use trace_replay::event::{
    AddressFamily, Direction, Fault, Field, ParseError, SocketRole, TransportProtocol,
    CONTAINER_ID_CAPACITY, PROCESS_NAME_CAPACITY,
};
use trace_replay::header::{
    copy_truncated, decode_container_id, decode_direction, decode_process_name, decode_role,
    decode_tls, decode_transport, parse_header,
};
use trace_replay::protocol::ProtocolTable;

fn vocabulary() -> ProtocolTable {
    let mut table = ProtocolTable::new();
    table.add(b"HTTP", 20);
    table.add(b"DNS", 120);
    table.add(b"HTTP", 21);
    table
}

fn header_with(tail: &str) -> String {
    format!("2024-01-01 12:00:00.000000 SYSCALL [host] x <HTTP> {}", tail)
}

const FIELDS: &str = "DIR out TYPE request(1) PID 100 THREAD_ID 101 COROUTINE_ID 7 FD 5 \
ROLE client CONTAINER_ID null SOURCE 2 COMM curl TCP 192.168.1.10.36720 > 10.0.0.1.80 \
LEN 4 SYSCALL_LEN 40 SOCKET_ID 9 TRACE_ID 11 TCP_SEQ 1000 DATA_SEQ 3 TLS false \
SyscallTime 2024-01-01 08:00:00.000001 SyscallMonoTime 123 \
CapTime 2024-01-01 08:00:01.500000 CapMonoTime 456";

fn well_formed() -> String {
    header_with(FIELDS)
}

fn refused(line: &str) -> ParseError {
    match parse_header(line.as_bytes(), &vocabulary()) {
        Ok(event) => panic!("decoded: {:?}", event),
        Err(e) => e,
    }
}

fn fault(field: Field, fault: Fault) -> ParseError {
    ParseError { field, fault }
}

#[test]
fn well_formed_header_decodes_every_field() {
    let event = parse_header(well_formed().as_bytes(), &vocabulary()).unwrap();
    assert_eq!(event.l7_protocol_hint, 20);
    assert_eq!(event.direction, Direction::Send);
    assert_eq!(event.msg_type, 1);
    assert_eq!(event.process_id, 100);
    assert_eq!(event.thread_id, 101);
    assert_eq!(event.coroutine_id, 7);
    assert_eq!(event.fd, 5);
    assert_eq!(event.socket_role, SocketRole::Client);
    assert_eq!(event.container_id, Vec::<u8>::new());
    assert_eq!(event.source, 2);
    assert_eq!(event.process_name, b"curl".to_vec());
    assert_eq!(event.transport_protocol, TransportProtocol::Tcp);
    assert_eq!(event.tuple.local_addr, vec![192, 168, 1, 10]);
    assert_eq!(event.tuple.remote_addr, vec![10, 0, 0, 1]);
    assert_eq!(event.tuple.local_port, 36720);
    assert_eq!(event.tuple.remote_port, 80);
    assert_eq!(event.tuple.address_family, AddressFamily::V4);
    assert_eq!(event.tuple.address_length, 4);
    assert_eq!(event.cap_len, 4);
    assert_eq!(event.syscall_len, 40);
    assert_eq!(event.socket_id, 9);
    assert_eq!(event.syscall_trace_id, 11);
    assert_eq!(event.tcp_seq, 1000);
    assert_eq!(event.cap_seq, 3);
    assert!(!event.is_tls);
    assert_eq!(event.timestamp, 1_704_067_200_000_001_000);
    assert_eq!(event.cap_timestamp, 1_704_067_201_500_000_000);
    assert_eq!(event.cap_data, Vec::<u8>::new());
}

#[test]
fn decoding_twice_gives_the_same_event() {
    let line = well_formed();
    let first = parse_header(line.as_bytes(), &vocabulary());
    let second = parse_header(line.as_bytes(), &vocabulary());
    assert!(first.is_ok());
    assert_eq!(first, second);
}

#[test]
fn incoming_direction() {
    let line = well_formed().replace("DIR out", "DIR in");
    let event = parse_header(line.as_bytes(), &vocabulary()).unwrap();
    assert_eq!(event.direction, Direction::Receive);
}

#[test]
fn first_entry_of_a_name_gives_the_code() {
    let line = well_formed().replace("<HTTP>", "<DNS>");
    let event = parse_header(line.as_bytes(), &vocabulary()).unwrap();
    assert_eq!(event.l7_protocol_hint, 120);
    assert_eq!(vocabulary().lookup(b"HTTP"), Some(20));
    assert_eq!(vocabulary().lookup(b"http"), None);
    assert_eq!(ProtocolTable::new().lookup(b"HTTP"), None);
}

#[test]
fn two_long_addresses_give_length_16() {
    let line = well_formed()
        .replace("192.168.1.10.36720", "fe80::1.36720")
        .replace("10.0.0.1.80", "2001:db8::ff00:42:8329.443");
    let event = parse_header(line.as_bytes(), &vocabulary()).unwrap();
    assert_eq!(event.tuple.address_family, AddressFamily::V6);
    assert_eq!(event.tuple.address_length, 16);
    assert_eq!(
        event.tuple.local_addr,
        vec![0xfe, 0x80, 0, 0, 0, 0, 0, 0, 0, 0, 0, 0, 0, 0, 0, 1]
    );
    assert_eq!(
        event.tuple.remote_addr,
        vec![0x20, 0x01, 0x0d, 0xb8, 0, 0, 0, 0, 0, 0, 0xff, 0, 0, 0x42, 0x83, 0x29]
    );
    assert_eq!(event.tuple.local_port, 36720);
    assert_eq!(event.tuple.remote_port, 443);
}

#[test]
fn addresses_of_two_families_are_refused() {
    let line = well_formed().replace("10.0.0.1.80", "fe80::1.80");
    assert_eq!(refused(&line), fault(Field::RemoteEndpoint, Fault::Value));
    let line = well_formed().replace("192.168.1.10.36720", "::1.36720");
    assert_eq!(refused(&line), fault(Field::RemoteEndpoint, Fault::Value));
}

#[test]
fn long_process_name_is_cut_to_capacity() {
    let line = well_formed().replace("COMM curl", "COMM a-very-long-process-name");
    let event = parse_header(line.as_bytes(), &vocabulary()).unwrap();
    assert_eq!(PROCESS_NAME_CAPACITY, 16);
    assert_eq!(event.process_name, b"a-very-long-proc".to_vec());
    assert_eq!(decode_process_name(b"0123456789abcdef"), b"0123456789abcdef".to_vec());
    assert_eq!(decode_process_name(b"0123456789abcdefg"), b"0123456789abcdef".to_vec());
    assert_eq!(decode_process_name(b""), Vec::<u8>::new());
    assert_eq!(copy_truncated(b"abc", 2), b"ab".to_vec());
    assert_eq!(copy_truncated(b"abc", 0), Vec::<u8>::new());
}

#[test]
fn container_id_null_is_absent() {
    assert_eq!(decode_container_id(b"null"), Vec::<u8>::new());
    assert_eq!(CONTAINER_ID_CAPACITY, 13);
    assert_eq!(decode_container_id(b"0123456789abcdef"), b"0123456789abc".to_vec());
    assert_eq!(decode_container_id(b"nul"), b"nul".to_vec());
    assert_eq!(decode_container_id(b"NULL"), b"NULL".to_vec());
    let line = well_formed().replace("CONTAINER_ID null", "CONTAINER_ID 4f2a9c01d3e7ffff");
    let event = parse_header(line.as_bytes(), &vocabulary()).unwrap();
    assert_eq!(event.container_id, b"4f2a9c01d3e7f".to_vec());
}

#[test]
fn role_mapping() {
    assert_eq!(decode_role(b"client"), SocketRole::Client);
    assert_eq!(decode_role(b"server"), SocketRole::Server);
    assert_eq!(decode_role(b"unknown"), SocketRole::Unknown);
    assert_eq!(decode_role(b""), SocketRole::Unknown);
    assert_eq!(decode_role(b"Client"), SocketRole::Unknown);
    assert_eq!(SocketRole::Unknown.code(), 0);
    assert_eq!(SocketRole::Client.code(), 1);
    assert_eq!(SocketRole::Server.code(), 2);
    let line = well_formed().replace("ROLE client", "ROLE other");
    let event = parse_header(line.as_bytes(), &vocabulary()).unwrap();
    assert_eq!(event.socket_role, SocketRole::Unknown);
}

#[test]
fn protocol_mapping() {
    assert_eq!(decode_transport(b"TCP").number(), 6);
    assert_eq!(decode_transport(b"UDP").number(), 17);
    assert_eq!(decode_transport(b"ICMP").number(), 0);
    assert_eq!(decode_transport(b"tcp"), TransportProtocol::Unspecified);
    let line = well_formed().replace(" TCP ", " UDP ");
    let event = parse_header(line.as_bytes(), &vocabulary()).unwrap();
    assert_eq!(event.transport_protocol, TransportProtocol::Udp);
    let line = well_formed().replace(" TCP ", " SCTP ");
    let event = parse_header(line.as_bytes(), &vocabulary()).unwrap();
    assert_eq!(event.transport_protocol, TransportProtocol::Unspecified);
}

#[test]
fn tls_flag() {
    assert!(decode_tls(b"true"));
    assert!(!decode_tls(b"false"));
    assert!(!decode_tls(b"yes"));
    let line = well_formed().replace("TLS false", "TLS true");
    assert!(parse_header(line.as_bytes(), &vocabulary()).unwrap().is_tls);
    let line = well_formed().replace("TLS false", "TLS maybe");
    assert!(!parse_header(line.as_bytes(), &vocabulary()).unwrap().is_tls);
}

#[test]
fn empty_tokens_of_lenient_fields_are_no_error() {
    let line = well_formed().replace("ROLE client", "ROLE ");
    assert!(line.contains(" ROLE  CONTAINER_ID "));
    let event = parse_header(line.as_bytes(), &vocabulary()).unwrap();
    assert_eq!(event.socket_role, SocketRole::Unknown);
    assert_eq!(event.socket_role.code(), 0);
    let line = well_formed().replace("TLS false", "TLS ");
    assert!(line.contains(" TLS  SyscallTime "));
    let event = parse_header(line.as_bytes(), &vocabulary()).unwrap();
    assert!(!event.is_tls);
    let line = well_formed().replace(" TCP ", "  ");
    assert!(line.contains(" COMM curl  192.168.1.10.36720 "));
    let event = parse_header(line.as_bytes(), &vocabulary()).unwrap();
    assert_eq!(event.transport_protocol, TransportProtocol::Unspecified);
    assert_eq!(event.transport_protocol.number(), 0);
    let line = well_formed()
        .replace("ROLE client", "ROLE ")
        .replace("TLS false", "TLS ")
        .replace(" TCP ", "  ");
    let event = parse_header(line.as_bytes(), &vocabulary()).unwrap();
    let plain = parse_header(
        well_formed().replace("ROLE client", "ROLE x").replace(" TCP ", " x ").as_bytes(),
        &vocabulary(),
    )
    .unwrap();
    assert_eq!(event, plain);
}

#[test]
fn every_role_token_decodes() {
    for (token, role) in [
        ("client", SocketRole::Client),
        ("server", SocketRole::Server),
        ("unknown", SocketRole::Unknown),
        ("Client", SocketRole::Unknown),
        ("", SocketRole::Unknown),
        ("clients", SocketRole::Unknown),
        ("\t", SocketRole::Unknown),
    ] {
        let line = well_formed().replace("ROLE client", &format!("ROLE {}", token));
        let event = parse_header(line.as_bytes(), &vocabulary()).unwrap();
        assert_eq!(event.socket_role, role, "{:?}", token);
    }
}

#[test]
fn direction_words() {
    assert_eq!(decode_direction(b"out"), Some(Direction::Send));
    assert_eq!(decode_direction(b"in"), Some(Direction::Receive));
    assert_eq!(decode_direction(b"OUT"), None);
    assert_eq!(decode_direction(b""), None);
}

#[test]
fn missing_direction_tag_is_reported() {
    let line = well_formed().replace(" DIR out", "");
    assert_eq!(refused(&line), fault(Field::Direction, Fault::Syntax));
    let line = well_formed().replace(" DIR out", " out");
    assert_eq!(refused(&line), fault(Field::Direction, Fault::Syntax));
}

#[test]
fn reserved_words_are_wanted() {
    assert_eq!(refused(""), fault(Field::Reserved, Fault::Syntax));
    assert_eq!(refused("a b c d"), fault(Field::Reserved, Fault::Syntax));
    assert_eq!(refused(" a b c d e <HTTP>"), fault(Field::Reserved, Fault::Syntax));
    assert_eq!(refused("a b c d e"), fault(Field::Reserved, Fault::Syntax));
    assert_eq!(refused("a b c d e "), fault(Field::ProtocolHint, Fault::Syntax));
    assert_eq!(refused("a b c d e HTTP"), fault(Field::ProtocolHint, Fault::Syntax));
    assert_eq!(refused("a b c d e <>"), fault(Field::ProtocolHint, Fault::Syntax));
    assert_eq!(refused("a b c d e <HTTP"), fault(Field::ProtocolHint, Fault::Syntax));
}

#[test]
fn reserved_words_may_have_blanks_and_tabs_between() {
    let line = format!("a  b \t c \t\td   e \t<HTTP> {}", FIELDS);
    assert_eq!(
        parse_header(line.as_bytes(), &vocabulary()),
        parse_header(well_formed().as_bytes(), &vocabulary())
    );
    let line = format!("a b c\td e <HTTP> {}", FIELDS);
    assert_eq!(refused(&line), fault(Field::ProtocolHint, Fault::Syntax));
}

#[test]
fn unknown_protocol_hint_is_refused() {
    let line = well_formed().replace("<HTTP>", "<Gopher>");
    assert_eq!(refused(&line), fault(Field::ProtocolHint, Fault::Value));
}

#[test]
fn unknown_direction_is_refused() {
    let line = well_formed().replace("DIR out", "DIR sideways");
    assert_eq!(refused(&line), fault(Field::Direction, Fault::Value));
}

#[test]
fn every_field_is_wanted_in_its_place() {
    let cases: Vec<(&str, &str, Field)> = vec![
        (" TYPE request(1)", " TYPE request", Field::MsgType),
        (" TYPE request(1)", " TYPE (1)", Field::MsgType),
        (" TYPE request(1)", " TYPE request()", Field::MsgType),
        (" TYPE request(1)", " TYPE request(1", Field::MsgType),
        (" PID 100", " PID x", Field::ProcessId),
        (" PID 100", " PID  100", Field::ProcessId),
        (" PID 100", "", Field::ProcessId),
        (" THREAD_ID 101", " THREAD 101", Field::ThreadId),
        (" COROUTINE_ID 7", " COROUTINE_ID -7", Field::CoroutineId),
        (" FD 5", " FD", Field::Fd),
        (" ROLE client", " ROLEclient", Field::Role),
        (" ROLE client", " ROLE\tclient", Field::Role),
        (" ROLE client", " ROLE  client", Field::ContainerId),
        (" CONTAINER_ID null", " CONTAINER null", Field::ContainerId),
        (" SOURCE 2", " SOURCE two", Field::Source),
        (" COMM curl", " COM curl", Field::ProcessName),
        (" > 10.0.0.1.80", " < 10.0.0.1.80", Field::RemoteEndpoint),
        (" > 10.0.0.1.80", " >  10.0.0.1.80", Field::RemoteEndpoint),
        (" LEN 4", " LENGTH 4", Field::CapLen),
        (" SYSCALL_LEN 40", " SYSCALL_LEN x", Field::SyscallLen),
        (" SOCKET_ID 9", "", Field::SocketId),
        (" TRACE_ID 11", " TRACE_ID", Field::TraceId),
        (" TCP_SEQ 1000", " TCP_SEQ +1000", Field::TcpSeq),
        (" DATA_SEQ 3", " DATA_SEQ", Field::DataSeq),
        (" TLS false", " TLSfalse", Field::Tls),
        (" TLS false", " TLS  false", Field::SyscallTime),
        (" SyscallTime ", " Syscalltime ", Field::SyscallTime),
        (" SyscallMonoTime", " MonoTime", Field::SyscallTime),
        (" CapTime ", " Captime ", Field::CapTime),
        (" CapTime ", " CapTimes ", Field::CapTime),
        (" CapMonoTime", " CapMono", Field::CapTime),
    ];
    for (from, to, field) in cases {
        let line = well_formed().replacen(from, to, 1);
        assert_ne!(line, well_formed());
        assert_eq!(refused(&line), fault(field, Fault::Syntax), "{} -> {}", from, to);
    }
}

#[test]
fn line_that_stops_early_is_refused_for_the_next_field() {
    let whole = well_formed();
    let cases: Vec<(&str, Field)> = vec![
        ("<HTTP>", Field::Direction),
        (" DIR out", Field::MsgType),
        ("request(1)", Field::ProcessId),
        (" COMM curl", Field::TransportProtocol),
        (" TCP", Field::LocalEndpoint),
        (" TCP ", Field::LocalEndpoint),
        ("36720", Field::RemoteEndpoint),
        ("36720 >", Field::RemoteEndpoint),
        ("10.0.0.1.80", Field::CapLen),
        (" TLS false", Field::SyscallTime),
        (" SyscallTime 2024", Field::SyscallTime),
        (" SyscallMonoTime 123", Field::CapTime),
        (" CapTime 2024", Field::CapTime),
    ];
    for (last, field) in cases {
        let end = whole.find(last).unwrap() + last.len();
        assert_eq!(refused(&whole[..end]), fault(field, Fault::Syntax), "{}", last);
    }
}

#[test]
fn numbers_out_of_range_are_refused() {
    let cases: Vec<(&str, &str, Field)> = vec![
        ("request(1)", "request(256)", Field::MsgType),
        ("PID 100", "PID 4294967296", Field::ProcessId),
        ("THREAD_ID 101", "THREAD_ID 99999999999", Field::ThreadId),
        ("COROUTINE_ID 7", "COROUTINE_ID 18446744073709551616", Field::CoroutineId),
        ("FD 5", "FD 4294967296", Field::Fd),
        ("SOURCE 2", "SOURCE 256", Field::Source),
        (" LEN 4", " LEN 4294967296", Field::CapLen),
        ("SYSCALL_LEN 40", "SYSCALL_LEN 18446744073709551616", Field::SyscallLen),
        ("SOCKET_ID 9", "SOCKET_ID 99999999999999999999", Field::SocketId),
        ("TRACE_ID 11", "TRACE_ID 18446744073709551616", Field::TraceId),
        ("TCP_SEQ 1000", "TCP_SEQ 18446744073709551616", Field::TcpSeq),
        ("DATA_SEQ 3", "DATA_SEQ 18446744073709551616", Field::DataSeq),
    ];
    for (from, to, field) in cases {
        let line = well_formed().replacen(from, to, 1);
        assert_eq!(refused(&line), fault(field, Fault::Value), "{} -> {}", from, to);
    }
}

#[test]
fn largest_numbers_are_kept() {
    let line = well_formed()
        .replace("request(1)", "request(255)")
        .replace("PID 100", "PID 4294967295")
        .replace("COROUTINE_ID 7", "COROUTINE_ID 18446744073709551615")
        .replace("SOURCE 2", "SOURCE 0255")
        .replace("TCP_SEQ 1000", "TCP_SEQ 000000000000000000000018446744073709551615");
    let event = parse_header(line.as_bytes(), &vocabulary()).unwrap();
    assert_eq!(event.msg_type, 255);
    assert_eq!(event.process_id, u32::MAX);
    assert_eq!(event.coroutine_id, u64::MAX);
    assert_eq!(event.source, 255);
    assert_eq!(event.tcp_seq, u64::MAX);
}

#[test]
fn malformed_endpoints_are_refused() {
    let line = well_formed().replace("192.168.1.10.36720", "192.168.1.36720");
    assert_eq!(refused(&line), fault(Field::LocalEndpoint, Fault::Value));
    let line = well_formed().replace("192.168.1.10.36720", "localhost");
    assert_eq!(refused(&line), fault(Field::LocalEndpoint, Fault::Value));
    let line = well_formed().replace("10.0.0.1.80", "10.0.0.1.65536");
    assert_eq!(refused(&line), fault(Field::RemoteEndpoint, Fault::Value));
    let line = well_formed().replace("10.0.0.1.80", "10.0.0.256.80");
    assert_eq!(refused(&line), fault(Field::RemoteEndpoint, Fault::Value));
}

#[test]
fn malformed_timestamps_are_refused() {
    let line = well_formed().replace("2024-01-01 08:00:00.000001", "2024-01-01T08:00:00.000001");
    assert_eq!(refused(&line), fault(Field::SyscallTime, Fault::Value));
    let line = well_formed().replace("2024-01-01 08:00:00.000001", "yesterday");
    assert_eq!(refused(&line), fault(Field::SyscallTime, Fault::Value));
    let line = well_formed().replace("2024-01-01 08:00:01.500000", "2024-13-01 08:00:01.500000");
    assert_eq!(refused(&line), fault(Field::CapTime, Fault::Value));
    let line = well_formed().replace("2024-01-01 08:00:01.500000", "");
    assert_eq!(refused(&line), fault(Field::CapTime, Fault::Value));
}

#[test]
fn the_first_fault_in_the_line_is_reported() {
    let line = well_formed().replace("PID 100", "PID 4294967296").replace(" FD 5", " FD x");
    assert_eq!(refused(&line), fault(Field::ProcessId, Fault::Value));
    let line = well_formed().replace("<HTTP>", "<Gopher>").replace(" DIR out", "");
    assert_eq!(refused(&line), fault(Field::ProtocolHint, Fault::Value));
    let line = well_formed().replace(" DIR out", "").replace("PID 100", "PID 4294967296");
    assert_eq!(refused(&line), fault(Field::Direction, Fault::Syntax));
}

#[test]
fn text_behind_the_capture_time_is_ignored() {
    let line = format!("{} 789 and more", well_formed());
    assert_eq!(
        parse_header(line.as_bytes(), &vocabulary()),
        parse_header(well_formed().as_bytes(), &vocabulary())
    );
}

#[test]
fn text_before_the_capture_time_is_skipped() {
    let line = well_formed().replace("SyscallMonoTime 123", "SyscallMonoTime 123 Cap Time more");
    assert_eq!(
        parse_header(line.as_bytes(), &vocabulary()),
        parse_header(well_formed().as_bytes(), &vocabulary())
    );
}
