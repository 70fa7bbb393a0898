//! Socket addresses as text: dotted quads, colon-separated groups, and the
//! `address.port` form of an endpoint.

use vstd::prelude::*;
use crate::event::{AddressFamily, SocketTuple, SocketTupleView};
use crate::text::{
    all_in_class, all_of, find, find_from, joined, lemma_find_from, lemma_joined_assoc,
    lemma_run_end, radix_value, read_number, run_end, scan_run, ByteClass,
};

verus! {

/// The bytes that delimit the parts of an address.
pub const DOT: u8 = 0x2e;

pub const COLON: u8 = 0x3a;

pub const PLUS: u8 = 0x2b;

pub const ZERO: u8 = 0x30;

/// One end of a connection: the raw address, 4 or 16 bytes, and the port.
#[derive(Clone, Debug, PartialEq, Eq)]
pub struct Endpoint {
    pub addr: Vec<u8>,
    pub port: u16,
}

/// The model of an `Endpoint`.
pub struct EndpointView {
    pub addr: Seq<u8>,
    pub port: u16,
}

impl View for Endpoint {
    type V = EndpointView;

    open spec fn view(&self) -> EndpointView {
        EndpointView { addr: self.addr@, port: self.port }
    }
}

/// One number of a dotted quad: one to three decimal digits, without a
/// leading zero unless it is the single digit 0, and at most 255.
pub open spec fn octet(t: Seq<u8>) -> Option<u8> {
    if 1 <= t.len() <= 3 && all_in_class(t, ByteClass::Digit) && (t.len() == 1 || t[0] != ZERO)
        && radix_value(t, 10) <= 255 {
        Some(radix_value(t, 10) as u8)
    } else {
        None
    }
}

/// The four bytes that a dotted quad writes: exactly four octets with single
/// dots between them.
pub open spec fn ipv4_bytes(t: Seq<u8>) -> Option<Seq<u8>> {
    let a = run_end(t, 0, ByteClass::Except(DOT));
    let b = run_end(t, a + 1, ByteClass::Except(DOT));
    let c = run_end(t, b + 1, ByteClass::Except(DOT));
    if c < t.len() {
        match (
            octet(t.subrange(0, a)),
            octet(t.subrange(a + 1, b)),
            octet(t.subrange(b + 1, c)),
            octet(t.subrange(c + 1, t.len() as int)),
        ) {
            (Some(w), Some(x), Some(y), Some(z)) => Some(seq![w, x, y, z]),
            _ => None,
        }
    } else {
        None
    }
}

/// The two bytes of one group of a long address: one to four hexadecimal
/// digits, most significant byte first.
pub open spec fn hex_group(t: Seq<u8>) -> Option<Seq<u8>> {
    if 1 <= t.len() <= 4 && all_in_class(t, ByteClass::Hex) {
        Some(seq![(radix_value(t, 16) / 256) as u8, (radix_value(t, 16) % 256) as u8])
    } else {
        None
    }
}

/// The bytes that the last piece of a colon-separated list writes: a group,
/// or, where `dotted` allows it, a dotted quad.
pub open spec fn last_piece(t: Seq<u8>, dotted: bool) -> Option<Seq<u8>> {
    match hex_group(t) {
        Some(g) => Some(g),
        None => if dotted {
            ipv4_bytes(t)
        } else {
            None
        },
    }
}

/// The bytes that the colon-separated pieces of `t` from `pos` on write.
/// Every piece is a group; the last may be a dotted quad where `dotted`
/// allows it.
pub open spec fn pieces(t: Seq<u8>, pos: int, dotted: bool) -> Option<Seq<u8>>
    decreases t.len() - pos + 1,
    via pieces_decreases
{
    let e = run_end(t, pos, ByteClass::Except(COLON));
    if pos < 0 || pos > t.len() {
        None
    } else if e >= t.len() {
        last_piece(t.subrange(pos, t.len() as int), dotted)
    } else {
        joined(hex_group(t.subrange(pos, e)), pieces(t, e + 1, dotted))
    }
}

#[via_fn]
proof fn pieces_decreases(t: Seq<u8>, pos: int, dotted: bool) {
    if 0 <= pos <= t.len() {
        lemma_run_end(t, pos, ByteClass::Except(COLON));
    }
}

/// The pattern that stands for a stretch of zero groups.
pub open spec fn gap() -> Seq<u8> {
    seq![COLON, COLON]
}

/// `n` zero bytes.
pub open spec fn zeros(n: int) -> Seq<u8> {
    Seq::new(n as nat, |i: int| 0u8)
}

/// The bytes of the pieces of `t`, where the empty text writes none.
pub open spec fn side(t: Seq<u8>, dotted: bool) -> Option<Seq<u8>> {
    if t.len() == 0 {
        Some(Seq::empty())
    } else {
        pieces(t, 0, dotted)
    }
}

/// The sixteen bytes that a long address writes. Without a gap it has eight
/// groups, of which the last two may be a dotted quad. With a gap, the
/// first `::` in the text, the groups before it and the pieces behind it
/// number seven at most, and zero groups fill the rest; the dotted quad may
/// stand only at the end.
pub open spec fn ipv6_bytes(t: Seq<u8>) -> Option<Seq<u8>> {
    match find_from(t, 0, gap()) {
        None => match pieces(t, 0, true) {
            Some(b) => if b.len() == 16 {
                Some(b)
            } else {
                None
            },
            None => None,
        },
        Some(k) => match (
            side(t.subrange(0, k), false),
            side(t.subrange(k + 2, t.len() as int), true),
        ) {
            (Some(h), Some(l)) => if h.len() + l.len() <= 14 {
                Some(h + zeros(16 - h.len() - l.len()) + l)
            } else {
                None
            },
            _ => None,
        },
    }
}

/// The raw bytes of an address in either form: 4 for a dotted quad, 16 for
/// a long address.
pub open spec fn address_bytes(t: Seq<u8>) -> Option<Seq<u8>> {
    match ipv4_bytes(t) {
        Some(b) => Some(b),
        None => ipv6_bytes(t),
    }
}

/// The last position of `t` that holds `b`.
pub open spec fn last_index(t: Seq<u8>, b: u8) -> Option<int>
    decreases t.len(),
{
    if t.len() == 0 {
        None
    } else if t.last() == b {
        Some(t.len() - 1)
    } else {
        last_index(t.drop_last(), b)
    }
}

/// A port: decimal digits, with an optional plus sign before them, that
/// write a number of at most 65535.
pub open spec fn port_number(t: Seq<u8>) -> Option<u16> {
    let digits = if t.len() > 0 && t[0] == PLUS {
        t.subrange(1, t.len() as int)
    } else {
        t
    };
    if digits.len() >= 1 && all_in_class(digits, ByteClass::Digit) && radix_value(digits, 10)
        <= 65535 {
        Some(radix_value(digits, 10) as u16)
    } else {
        None
    }
}

/// The endpoint that `t` writes: the address before the last dot, the port
/// behind it.
pub open spec fn endpoint(t: Seq<u8>) -> Option<EndpointView> {
    match last_index(t, DOT) {
        None => None,
        Some(k) => match (
            address_bytes(t.subrange(0, k)),
            port_number(t.subrange(k + 1, t.len() as int)),
        ) {
            (Some(addr), Some(port)) => Some(EndpointView { addr, port }),
            _ => None,
        },
    }
}

/// The family of an address of `len` bytes.
pub open spec fn family_of(len: nat) -> AddressFamily {
    if len == 4 {
        AddressFamily::V4
    } else {
        AddressFamily::V6
    }
}

/// The two ends of a connection as one tuple, if their addresses are of
/// one family: both of 4 bytes or both of 16.
pub open spec fn paired(local: EndpointView, remote: EndpointView) -> Option<SocketTupleView> {
    if local.addr.len() == remote.addr.len() && (local.addr.len() == 4 || local.addr.len() == 16) {
        Some(
            SocketTupleView {
                local_addr: local.addr,
                remote_addr: remote.addr,
                local_port: local.port,
                remote_port: remote.port,
                address_family: family_of(local.addr.len()),
                address_length: local.addr.len() as u8,
            },
        )
    } else {
        None
    }
}

/// A number of at most four hexadecimal digits is below 65536.
pub proof fn lemma_hex_group_bound(t: Seq<u8>)
    requires
        t.len() <= 4,
    ensures
        radix_value(t, 16) <= 0xffff,
{
    reveal_with_fuel(radix_value, 5);
}

/// The last position that holds a byte lies in the text and holds it.
pub proof fn lemma_last_index(t: Seq<u8>, b: u8)
    ensures
        match last_index(t, b) {
            Some(k) => 0 <= k < t.len() && t[k] == b && forall|j: int|
                k < j < t.len() ==> t[j] != b,
            None => forall|j: int| 0 <= j < t.len() ==> t[j] != b,
        },
    decreases t.len(),
{
    if t.len() > 0 && t.last() != b {
        lemma_last_index(t.drop_last(), b);
        assert(forall|j: int| 0 <= j < t.len() - 1 ==> t.drop_last()[j] == t[j]);
    }
}

/// An address in either form has 4 bytes or 16.
pub proof fn lemma_address_bytes_len(t: Seq<u8>)
    ensures
        ipv4_bytes(t) matches Some(b) ==> b.len() == 4,
        ipv6_bytes(t) matches Some(b) ==> b.len() == 16,
        address_bytes(t) matches Some(b) ==> b.len() == 4 || b.len() == 16,
{
}

/// Two endpoints with dotted quads make a tuple with addresses of 4
/// bytes, two with long addresses one with addresses of 16 bytes, and two
/// of different forms make none.
pub proof fn lemma_address_family(local: Seq<u8>, remote: Seq<u8>)
    requires
        endpoint(local) is Some,
        endpoint(remote) is Some,
    ensures
        ({
            let l = endpoint(local).unwrap();
            let r = endpoint(remote).unwrap();
            &&& l.addr.len() == 4 || l.addr.len() == 16
            &&& r.addr.len() == 4 || r.addr.len() == 16
            &&& paired(l, r) is Some <==> l.addr.len() == r.addr.len()
            &&& paired(l, r) matches Some(t) ==> {
                &&& t.wf()
                &&& t.local_addr == l.addr && t.remote_addr == r.addr
                &&& t.local_port == l.port && t.remote_port == r.port
                &&& t.address_length == l.addr.len()
                &&& t.address_family == family_of(l.addr.len())
            }
        }),
{
    let kl = last_index(local, DOT).unwrap();
    let kr = last_index(remote, DOT).unwrap();
    lemma_address_bytes_len(local.subrange(0, kl));
    lemma_address_bytes_len(remote.subrange(0, kr));
}

/// Reads one number of a dotted quad.
pub fn parse_octet(t: &[u8]) -> (r: Option<u8>)
    ensures
        r == octet(t@),
{
    if t.len() < 1 || t.len() > 3 {
        return None;
    }
    if !all_of(t, ByteClass::Digit) {
        return None;
    }
    if t.len() > 1 && t[0] == ZERO {
        return None;
    }
    match read_number(t, 10, 255) {
        Some(v) => Some(v as u8),
        None => None,
    }
}

/// Reads a dotted quad.
pub fn parse_ipv4(t: &[u8]) -> (r: Option<Vec<u8>>)
    ensures
        match r {
            Some(v) => ipv4_bytes(t@) == Some(v@),
            None => ipv4_bytes(t@) is None,
        },
{
    let a: usize = scan_run(t, 0, ByteClass::Except(DOT));
    if a >= t.len() {
        return None;
    }
    let b: usize = scan_run(t, a + 1, ByteClass::Except(DOT));
    if b >= t.len() {
        return None;
    }
    let c: usize = scan_run(t, b + 1, ByteClass::Except(DOT));
    if c >= t.len() {
        return None;
    }
    let w = parse_octet(&t[0..a]);
    let x = parse_octet(&t[a + 1..b]);
    let y = parse_octet(&t[b + 1..c]);
    let z = parse_octet(&t[c + 1..t.len()]);
    match (w, x, y, z) {
        (Some(w), Some(x), Some(y), Some(z)) => {
            let mut out: Vec<u8> = Vec::new();
            out.push(w);
            out.push(x);
            out.push(y);
            out.push(z);
            assert(out@ =~= seq![w, x, y, z]);
            Some(out)
        },
        _ => None,
    }
}

/// Reads one group of a long address and returns its number.
pub fn parse_hex_group(t: &[u8]) -> (r: Option<u16>)
    ensures
        match r {
            Some(v) => hex_group(t@) == Some(seq![(v / 256) as u8, (v % 256) as u8]),
            None => hex_group(t@) is None,
        },
{
    if t.len() < 1 || t.len() > 4 {
        return None;
    }
    if !all_of(t, ByteClass::Hex) {
        return None;
    }
    proof {
        lemma_hex_group_bound(t@);
    }
    match read_number(t, 16, 0xffff) {
        Some(v) => Some(v as u16),
        None => None,
    }
}

/// Appends the two bytes of a group.
fn push_group(out: &mut Vec<u8>, v: u16)
    ensures
        final(out)@ == old(out)@ + seq![(v / 256) as u8, (v % 256) as u8],
{
    out.push((v / 256) as u8);
    out.push((v % 256) as u8);
    assert(out@ =~= old(out)@ + seq![(v / 256) as u8, (v % 256) as u8]);
}

/// Appends the bytes of `more`.
fn push_all(out: &mut Vec<u8>, more: &Vec<u8>)
    ensures
        final(out)@ == old(out)@ + more@,
{
    let mut i: usize = 0;
    while i < more.len()
        invariant
            i <= more.len(),
            out@ == old(out)@ + more@.take(i as int),
        decreases more.len() - i,
    {
        out.push(more[i]);
        assert(out@ =~= old(out)@ + more@.take(i + 1));
        i += 1;
    }
    assert(more@.take(more.len() as int) =~= more@);
}

/// Reads the last piece of a colon-separated list.
fn parse_last_piece(t: &[u8], dotted: bool) -> (r: Option<Vec<u8>>)
    ensures
        match r {
            Some(v) => last_piece(t@, dotted) == Some(v@),
            None => last_piece(t@, dotted) is None,
        },
{
    match parse_hex_group(t) {
        Some(v) => {
            let mut out: Vec<u8> = Vec::new();
            push_group(&mut out, v);
            assert(out@ =~= seq![(v / 256) as u8, (v % 256) as u8]);
            Some(out)
        },
        None => if dotted {
            parse_ipv4(t)
        } else {
            None
        },
    }
}

/// Reads the colon-separated pieces of `t`.
pub fn parse_pieces(t: &[u8], dotted: bool) -> (r: Option<Vec<u8>>)
    ensures
        match r {
            Some(v) => pieces(t@, 0, dotted) == Some(v@),
            None => pieces(t@, 0, dotted) is None,
        },
{
    let mut out: Vec<u8> = Vec::new();
    let mut pos: usize = 0;
    loop
        invariant
            pos <= t.len(),
            pieces(t@, 0, dotted) == joined(Some(out@), pieces(t@, pos as int, dotted)),
        decreases t.len() - pos,
    {
        let e: usize = scan_run(t, pos, ByteClass::Except(COLON));
        if e >= t.len() {
            return match parse_last_piece(&t[pos..t.len()], dotted) {
                Some(last) => {
                    push_all(&mut out, &last);
                    Some(out)
                },
                None => None,
            };
        }
        match parse_hex_group(&t[pos..e]) {
            None => {
                return None;
            },
            Some(v) => {
                proof {
                    lemma_joined_assoc(
                        out@,
                        hex_group(t@.subrange(pos as int, e as int)),
                        pieces(t@, e + 1, dotted),
                    );
                }
                push_group(&mut out, v);
            },
        }
        pos = e + 1;
    }
}

/// Reads what stands on one side of a gap.
fn parse_side(t: &[u8], dotted: bool) -> (r: Option<Vec<u8>>)
    ensures
        match r {
            Some(v) => side(t@, dotted) == Some(v@),
            None => side(t@, dotted) is None,
        },
{
    if t.len() == 0 {
        Some(Vec::new())
    } else {
        parse_pieces(t, dotted)
    }
}

/// Reads a long address.
pub fn parse_ipv6(t: &[u8]) -> (r: Option<Vec<u8>>)
    ensures
        match r {
            Some(v) => ipv6_bytes(t@) == Some(v@),
            None => ipv6_bytes(t@) is None,
        },
{
    let mut pat: Vec<u8> = Vec::new();
    pat.push(COLON);
    pat.push(COLON);
    assert(pat@ =~= gap());
    match find(t, 0, pat.as_slice()) {
        None => match parse_pieces(t, true) {
            Some(v) => if v.len() == 16 {
                Some(v)
            } else {
                None
            },
            None => None,
        },
        Some(k) => {
            proof {
                lemma_find_from(t@, 0, gap());
                assert(gap().len() == 2);
            }
            let n: usize = t.len();
            let head = parse_side(&t[0..k], false);
            let tail = parse_side(&t[k + 2..n], true);
            match (head, tail) {
                (Some(h), Some(l)) => {
                    if h.len() > 14 || l.len() > 14 - h.len() {
                        return None;
                    }
                    let fill: usize = 16 - h.len() - l.len();
                    let mut out: Vec<u8> = h;
                    let ghost before = out@;
                    let mut i: usize = 0;
                    while i < fill
                        invariant
                            i <= fill,
                            out@ == before + zeros(i as int),
                        decreases fill - i,
                    {
                        out.push(0u8);
                        assert(out@ =~= before + zeros(i + 1));
                        i += 1;
                    }
                    push_all(&mut out, &l);
                    Some(out)
                },
                _ => None,
            }
        },
    }
}

/// Reads an address in either form.
pub fn parse_address(t: &[u8]) -> (r: Option<Vec<u8>>)
    ensures
        match r {
            Some(v) => address_bytes(t@) == Some(v@),
            None => address_bytes(t@) is None,
        },
{
    match parse_ipv4(t) {
        Some(v) => Some(v),
        None => parse_ipv6(t),
    }
}

/// Finds the last position of `t` that holds `b`.
pub fn find_last(t: &[u8], b: u8) -> (r: Option<usize>)
    ensures
        match r {
            Some(k) => last_index(t@, b) == Some(k as int),
            None => last_index(t@, b) is None,
        },
{
    let mut i: usize = t.len();
    assert(t@.take(i as int) =~= t@);
    while i > 0
        invariant
            i <= t.len(),
            last_index(t@, b) == last_index(t@.take(i as int), b),
        decreases i,
    {
        if t[i - 1] == b {
            return Some(i - 1);
        }
        assert(t@.take(i as int).drop_last() =~= t@.take(i - 1));
        i -= 1;
    }
    None
}

/// Reads a port.
pub fn parse_port(t: &[u8]) -> (r: Option<u16>)
    ensures
        r == port_number(t@),
{
    let digits: &[u8] = if t.len() > 0 && t[0] == PLUS {
        &t[1..t.len()]
    } else {
        t
    };
    if digits.len() < 1 || !all_of(digits, ByteClass::Digit) {
        return None;
    }
    match read_number(digits, 10, 65535) {
        Some(v) => Some(v as u16),
        None => None,
    }
}

/// Reads an endpoint in the form `address.port`.
pub fn parse_endpoint(t: &[u8]) -> (r: Option<Endpoint>)
    ensures
        match r {
            Some(e) => endpoint(t@) == Some(e@),
            None => endpoint(t@) is None,
        },
{
    match find_last(t, DOT) {
        None => None,
        Some(k) => {
            proof {
                lemma_last_index(t@, DOT);
            }
            let n: usize = t.len();
            let addr = parse_address(&t[0..k]);
            let port = parse_port(&t[k + 1..n]);
            match (addr, port) {
                (Some(addr), Some(port)) => Some(Endpoint { addr, port }),
                _ => None,
            }
        },
    }
}

/// Puts the two ends of a connection together. There is no tuple unless
/// both addresses have 4 bytes or both have 16.
pub fn pair_up(local: Endpoint, remote: Endpoint) -> (r: Option<SocketTuple>)
    ensures
        match r {
            Some(t) => paired(local@, remote@) == Some(t@) && t@.wf(),
            None => paired(local@, remote@) is None,
        },
{
    let len: usize = local.addr.len();
    if len != remote.addr.len() || (len != 4 && len != 16) {
        return None;
    }
    let family = if len == 4 {
        AddressFamily::V4
    } else {
        AddressFamily::V6
    };
    Some(
        SocketTuple {
            local_addr: local.addr,
            remote_addr: remote.addr,
            local_port: local.port,
            remote_port: remote.port,
            address_family: family,
            address_length: len as u8,
        },
    )
}

} // verus!
