use trace_replay::address::{
    find_last, pair_up, parse_address, parse_endpoint, parse_hex_group, parse_ipv4, parse_ipv6,
    parse_octet, parse_pieces, parse_port, Endpoint,
};
use trace_replay::event::AddressFamily;

#[test]
fn octets() {
    assert_eq!(parse_octet(b"0"), Some(0));
    assert_eq!(parse_octet(b"9"), Some(9));
    assert_eq!(parse_octet(b"10"), Some(10));
    assert_eq!(parse_octet(b"255"), Some(255));
    assert_eq!(parse_octet(b"256"), None);
    assert_eq!(parse_octet(b"00"), None);
    assert_eq!(parse_octet(b"01"), None);
    assert_eq!(parse_octet(b"1000"), None);
    assert_eq!(parse_octet(b""), None);
    assert_eq!(parse_octet(b"1a"), None);
    assert_eq!(parse_octet(b"+1"), None);
}

#[test]
fn dotted_quads() {
    assert_eq!(parse_ipv4(b"1.2.3.4"), Some(vec![1, 2, 3, 4]));
    assert_eq!(parse_ipv4(b"0.0.0.0"), Some(vec![0, 0, 0, 0]));
    assert_eq!(parse_ipv4(b"255.255.255.255"), Some(vec![255, 255, 255, 255]));
    assert_eq!(parse_ipv4(b"1.2.3"), None);
    assert_eq!(parse_ipv4(b"1.2.3.4.5"), None);
    assert_eq!(parse_ipv4(b"1.2.3.4."), None);
    assert_eq!(parse_ipv4(b".1.2.3.4"), None);
    assert_eq!(parse_ipv4(b"1..2.3"), None);
    assert_eq!(parse_ipv4(b"1.2.3.04"), None);
    assert_eq!(parse_ipv4(b"1.2.3.256"), None);
    assert_eq!(parse_ipv4(b""), None);
    assert_eq!(parse_ipv4(b"1.2.3.4 "), None);
}

#[test]
fn groups() {
    assert_eq!(parse_hex_group(b"0"), Some(0));
    assert_eq!(parse_hex_group(b"ffff"), Some(0xffff));
    assert_eq!(parse_hex_group(b"FfFf"), Some(0xffff));
    assert_eq!(parse_hex_group(b"0001"), Some(1));
    assert_eq!(parse_hex_group(b"12345"), None);
    assert_eq!(parse_hex_group(b""), None);
    assert_eq!(parse_hex_group(b"g"), None);
    assert_eq!(parse_pieces(b"1:2", false), Some(vec![0, 1, 0, 2]));
    assert_eq!(parse_pieces(b"1:1.2.3.4", true), Some(vec![0, 1, 1, 2, 3, 4]));
    assert_eq!(parse_pieces(b"1:1.2.3.4", false), None);
    assert_eq!(parse_pieces(b"1.2.3.4:1", true), None);
    assert_eq!(parse_pieces(b"1:", true), None);
    assert_eq!(parse_pieces(b"", true), None);
}

#[test]
fn long_addresses() {
    let zero = vec![0u8; 16];
    assert_eq!(parse_ipv6(b"::"), Some(zero.clone()));
    let mut one = zero.clone();
    one[15] = 1;
    assert_eq!(parse_ipv6(b"::1"), Some(one));
    let mut front = zero.clone();
    front[1] = 1;
    assert_eq!(parse_ipv6(b"1::"), Some(front));
    assert_eq!(
        parse_ipv6(b"1:2:3:4:5:6:7:8"),
        Some(vec![0, 1, 0, 2, 0, 3, 0, 4, 0, 5, 0, 6, 0, 7, 0, 8])
    );
    assert_eq!(
        parse_ipv6(b"::ffff:192.168.0.1"),
        Some(vec![0, 0, 0, 0, 0, 0, 0, 0, 0, 0, 0xff, 0xff, 192, 168, 0, 1])
    );
    assert_eq!(
        parse_ipv6(b"1:2:3:4:5:6:7::"),
        Some(vec![0, 1, 0, 2, 0, 3, 0, 4, 0, 5, 0, 6, 0, 7, 0, 0])
    );
    assert_eq!(parse_ipv6(b"1:2:3:4:5:6:7"), None);
    assert_eq!(parse_ipv6(b"1:2:3:4:5:6:7:8:9"), None);
    assert_eq!(parse_ipv6(b"1::2::3"), None);
    assert_eq!(parse_ipv6(b":::"), None);
    assert_eq!(parse_ipv6(b"1:2:3:4:5:6:7:8::"), None);
    assert_eq!(parse_ipv6(b"1.2.3.4::"), None);
    assert_eq!(parse_ipv6(b"1.2.3.4"), None);
    assert_eq!(parse_ipv6(b""), None);
}

#[test]
fn addresses_in_either_form() {
    let cases: Vec<(&str, Vec<u8>)> = vec![
        ("1.2.3.4", vec![1, 2, 3, 4]),
        ("0.0.0.0", vec![0, 0, 0, 0]),
        ("255.255.255.255", vec![255, 255, 255, 255]),
        ("::", vec![0, 0, 0, 0, 0, 0, 0, 0, 0, 0, 0, 0, 0, 0, 0, 0]),
        ("::1", vec![0, 0, 0, 0, 0, 0, 0, 0, 0, 0, 0, 0, 0, 0, 0, 1]),
        ("1::", vec![0, 1, 0, 0, 0, 0, 0, 0, 0, 0, 0, 0, 0, 0, 0, 0]),
        ("1:2:3:4:5:6:7:8", vec![0, 1, 0, 2, 0, 3, 0, 4, 0, 5, 0, 6, 0, 7, 0, 8]),
        ("1:2:3:4:5:6:7::", vec![0, 1, 0, 2, 0, 3, 0, 4, 0, 5, 0, 6, 0, 7, 0, 0]),
        ("::1:2:3:4:5:6:7", vec![0, 0, 0, 1, 0, 2, 0, 3, 0, 4, 0, 5, 0, 6, 0, 7]),
        ("fe80::1", vec![0xfe, 0x80, 0, 0, 0, 0, 0, 0, 0, 0, 0, 0, 0, 0, 0, 1]),
        ("FE80::ABCD", vec![0xfe, 0x80, 0, 0, 0, 0, 0, 0, 0, 0, 0, 0, 0, 0, 0xab, 0xcd]),
        ("::ffff:1.2.3.4", vec![0, 0, 0, 0, 0, 0, 0, 0, 0, 0, 0xff, 0xff, 1, 2, 3, 4]),
        ("::1.2.3.4", vec![0, 0, 0, 0, 0, 0, 0, 0, 0, 0, 0, 0, 1, 2, 3, 4]),
        ("1:2:3:4:5:6:1.2.3.4", vec![0, 1, 0, 2, 0, 3, 0, 4, 0, 5, 0, 6, 1, 2, 3, 4]),
        ("1:2:3:4:5::1.2.3.4", vec![0, 1, 0, 2, 0, 3, 0, 4, 0, 5, 0, 0, 1, 2, 3, 4]),
        ("1:2:3:4::5:6:7", vec![0, 1, 0, 2, 0, 3, 0, 4, 0, 0, 0, 5, 0, 6, 0, 7]),
        ("0:0:0:0:0:0:0:0", vec![0, 0, 0, 0, 0, 0, 0, 0, 0, 0, 0, 0, 0, 0, 0, 0]),
        ("::0000", vec![0, 0, 0, 0, 0, 0, 0, 0, 0, 0, 0, 0, 0, 0, 0, 0]),
        (
            "2001:db8::ff00:42:8329",
            vec![0x20, 0x01, 0x0d, 0xb8, 0, 0, 0, 0, 0, 0, 0xff, 0, 0, 0x42, 0x83, 0x29],
        ),
        (
            "2001:0db8:0000:0000:0000:ff00:0042:8329",
            vec![0x20, 0x01, 0x0d, 0xb8, 0, 0, 0, 0, 0, 0, 0xff, 0, 0, 0x42, 0x83, 0x29],
        ),
    ];
    for (text, bytes) in cases {
        assert_eq!(parse_address(text.as_bytes()), Some(bytes), "{:?}", text);
    }
}

#[test]
fn texts_that_are_no_address() {
    let texts = [
        "256.0.0.1", "01.2.3.4", "1.2.3", "1.2.3.4.5", "1.2.3.4.", ".1.2.3.4", "1..2.3", "", " ",
        "1.2.3.4 ", "a.b.c.d", "1.2.3.+4", "0.00.0.0", ":::", "::::", ":", "1:", ":1",
        "1:2:3:4:5:6:7", "1:2:3:4:5:6:7:8:9", "1::2:3:4:5:6:7:8", "1:2:3:4:5:6:7:8::",
        "::1:2:3:4:5:6:7:8", "1::2::3", "12345::", "::12345", "g::", "1.2.3.4::",
        "1:2:3:4:5:1.2.3.4", "1:2:3:4:5:6:7:1.2.3.4", "1:2:3:4:5:6::1.2.3.4", "::1.2.3.4:5",
        "::1.2.3", "::1.2.3.256", "::01.2.3.4", "1:2:3:4::5:6:7:8", "00000::", "::%eth0", "[::1]",
        "1:2:3:4:5:6:7:8 ", " ::1", "::1.2.3.4.5", "1::1.2.3.4:", "::ffff:1.2.3.4:1",
        "1:2::3:4::", "::.1.2.3", "1:.2.3.4", "::1.", "1.2.3.4:1::", "localhost",
    ];
    for text in texts {
        assert_eq!(parse_address(text.as_bytes()), None, "{:?}", text);
    }
}

#[test]
fn ports() {
    assert_eq!(parse_port(b"0"), Some(0));
    assert_eq!(parse_port(b"80"), Some(80));
    assert_eq!(parse_port(b"65535"), Some(65535));
    assert_eq!(parse_port(b"65536"), None);
    assert_eq!(parse_port(b"00080"), Some(80));
    assert_eq!(parse_port(b"+80"), Some(80));
    assert_eq!(parse_port(b"+"), None);
    assert_eq!(parse_port(b"++80"), None);
    assert_eq!(parse_port(b"-80"), None);
    assert_eq!(parse_port(b""), None);
    assert_eq!(parse_port(b"8o"), None);
    assert_eq!(parse_port(b" 80"), None);
    for text in ["0", "80", "65535", "65536", "00080", "+80", "+", "++80", "-80", "", "8o", "+0"] {
        assert_eq!(parse_port(text.as_bytes()), text.parse::<u16>().ok(), "{:?}", text);
    }
}

#[test]
fn last_positions() {
    assert_eq!(find_last(b"a.b.c", b'.'), Some(3));
    assert_eq!(find_last(b".", b'.'), Some(0));
    assert_eq!(find_last(b"abc", b'.'), None);
    assert_eq!(find_last(b"", b'.'), None);
}

#[test]
fn endpoints() {
    assert_eq!(
        parse_endpoint(b"10.1.2.3.8080"),
        Some(Endpoint { addr: vec![10, 1, 2, 3], port: 8080 })
    );
    let mut one = vec![0u8; 16];
    one[15] = 1;
    assert_eq!(parse_endpoint(b"::1.53"), Some(Endpoint { addr: one, port: 53 }));
    assert_eq!(
        parse_endpoint(b"::ffff:1.2.3.4.53"),
        Some(Endpoint {
            addr: vec![0, 0, 0, 0, 0, 0, 0, 0, 0, 0, 0xff, 0xff, 1, 2, 3, 4],
            port: 53
        })
    );
    assert_eq!(parse_endpoint(b"10.1.2.3"), None);
    assert_eq!(parse_endpoint(b"10.1.2.3."), None);
    assert_eq!(parse_endpoint(b"10.1.2.3:80"), None);
    assert_eq!(parse_endpoint(b"::1"), None);
    assert_eq!(parse_endpoint(b"80"), None);
    assert_eq!(parse_endpoint(b""), None);
}

#[test]
fn pairs_of_one_family() {
    let a = Endpoint { addr: vec![1, 2, 3, 4], port: 1 };
    let b = Endpoint { addr: vec![5, 6, 7, 8], port: 2 };
    let t = pair_up(a.clone(), b.clone()).unwrap();
    assert_eq!(t.address_length, 4);
    assert_eq!(t.address_family, AddressFamily::V4);
    assert_eq!(t.local_addr.len(), 4);
    assert_eq!(t.remote_addr.len(), 4);
    assert_eq!((t.local_addr, t.local_port), (a.addr.clone(), 1));
    assert_eq!((t.remote_addr, t.remote_port), (b.addr.clone(), 2));
    let c = Endpoint { addr: vec![9; 16], port: 3 };
    let d = Endpoint { addr: vec![7; 16], port: 4 };
    let t = pair_up(c.clone(), d).unwrap();
    assert_eq!(t.address_length, 16);
    assert_eq!(t.address_family, AddressFamily::V6);
    assert_eq!(t.local_addr.len(), 16);
    assert_eq!(t.remote_addr.len(), 16);
    assert_eq!(pair_up(a.clone(), c.clone()), None);
    assert_eq!(pair_up(c, a), None);
    let odd = Endpoint { addr: vec![1, 2, 3], port: 1 };
    assert_eq!(pair_up(odd.clone(), odd), None);
}
