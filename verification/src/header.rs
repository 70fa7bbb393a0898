//! The header line of a record: its tokens, taken by the grammar, turned
//! into the fields of a socket event.

use vstd::prelude::*;
use vstd::string::StringSliceAdditionalSpecFns;
use crate::address::{endpoint, pair_up, paired, parse_endpoint};
use crate::event::{
    Direction, Fault, Field, ParseError, SocketEvent, SocketEventView, SocketRole,
    TransportProtocol, CONTAINER_ID_CAPACITY, PROCESS_NAME_CAPACITY,
};
use crate::grammar::{
    header_tokens, lemma_tokens_from_len, lemma_tokens_reach, lemma_tokens_stop, located, reached, rule, rule_at, scan_tokens, Shape, CAP_LEN, CAP_TIME, CONTAINER_ID,
    COROUTINE_ID, DATA_SEQ, DIRECTION, FD, HINT, LOCAL, MSG_TYPE, PROCESS_ID, PROCESS_NAME,
    REMOTE, ROLE, RULE_COUNT, SOCKET_ID, SOURCE, SYSCALL_LEN, SYSCALL_TIME, TCP_SEQ, THREAD_ID,
    TLS, TRACE_ID, TRANSPORT,
};
use crate::protocol::{protocol_code, ProtocolNameView, ProtocolTable};
use crate::text::{occurs_at, radix_value, read_number, same_text, slice_of, Span};
use crate::timestamp::{decode_timestamp, timestamp_of};

verus! {

/// The direction that a token names; none but `out` and `in` names one.
pub open spec fn direction_of(t: Seq<u8>) -> Option<Direction> {
    if t == "out".spec_bytes() {
        Some(Direction::Send)
    } else if t == "in".spec_bytes() {
        Some(Direction::Receive)
    } else {
        None
    }
}

/// The role that a token names; a token that names none leaves it unknown.
pub open spec fn role_of(t: Seq<u8>) -> SocketRole {
    if t == "client".spec_bytes() {
        SocketRole::Client
    } else if t == "server".spec_bytes() {
        SocketRole::Server
    } else {
        SocketRole::Unknown
    }
}

/// The transport protocol that a token names; a token that names none
/// leaves it unspecified.
pub open spec fn transport_of(t: Seq<u8>) -> TransportProtocol {
    if t == "TCP".spec_bytes() {
        TransportProtocol::Tcp
    } else if t == "UDP".spec_bytes() {
        TransportProtocol::Udp
    } else {
        TransportProtocol::Unspecified
    }
}

/// Whether a token says that the payload went through TLS; a token that is
/// neither `true` nor `false` leaves the flag unset.
pub open spec fn tls_of(t: Seq<u8>) -> bool {
    t == "true".spec_bytes()
}

/// The first `capacity` bytes of `t`, or all of `t` if it has no more.
pub open spec fn truncated(t: Seq<u8>, capacity: int) -> Seq<u8> {
    if t.len() <= capacity {
        t
    } else {
        t.take(capacity)
    }
}

/// The container id that a token writes: none for `null`, else the token
/// cut to the capacity of the field.
pub open spec fn container_id_of(t: Seq<u8>) -> Seq<u8> {
    if t == "null".spec_bytes() {
        Seq::empty()
    } else {
        truncated(t, CONTAINER_ID_CAPACITY as int)
    }
}

/// The process name that a token writes: the token cut to the capacity of
/// the field.
pub open spec fn process_name_of(t: Seq<u8>) -> Seq<u8> {
    truncated(t, PROCESS_NAME_CAPACITY as int)
}

/// The number that a token of decimal digits writes.
pub open spec fn decimal(t: Seq<u8>) -> nat {
    radix_value(t, 10)
}

/// Whether the token of rule `i` writes a number.
pub open spec fn is_number(i: int) -> bool {
    rule(i).shape is Digits || rule(i).shape is Coded
}

/// The largest number that the field of rule `i` holds.
pub open spec fn number_limit(i: int) -> nat {
    if i == MSG_TYPE || i == SOURCE {
        u8::MAX as nat
    } else if i == PROCESS_ID || i == THREAD_ID || i == FD || i == CAP_LEN {
        u32::MAX as nat
    } else {
        u64::MAX as nat
    }
}

/// Whether the token of rule `i` fails to write a value of its field. The
/// words of the role, the transport protocol and the TLS flag, the
/// container id and the process name never fail.
pub open spec fn value_fault(tokens: Seq<Seq<u8>>, protocols: Seq<ProtocolNameView>, i: int) -> bool {
    if i == HINT {
        protocol_code(protocols, tokens[i]) is None
    } else if i == DIRECTION {
        direction_of(tokens[i]) is None
    } else if is_number(i) {
        decimal(tokens[i]) > number_limit(i)
    } else if i == LOCAL {
        endpoint(tokens[i]) is None
    } else if i == REMOTE {
        match (endpoint(tokens[LOCAL as int]), endpoint(tokens[i])) {
            (Some(local), Some(remote)) => paired(local, remote) is None,
            _ => true,
        }
    } else if i == SYSCALL_TIME || i == CAP_TIME {
        timestamp_of(tokens[i]) is None
    } else {
        false
    }
}

/// The first rule from `from` on whose token fails to write a value.
pub open spec fn earliest_fault(
    tokens: Seq<Seq<u8>>,
    protocols: Seq<ProtocolNameView>,
    from: int,
) -> Option<int>
    decreases tokens.len() - from,
{
    if from < 0 || from >= tokens.len() {
        None
    } else if value_fault(tokens, protocols, from) {
        Some(from)
    } else {
        earliest_fault(tokens, protocols, from + 1)
    }
}

/// The event that the tokens of a whole header line write. It has no
/// payload yet.
pub open spec fn event_of(tokens: Seq<Seq<u8>>, protocols: Seq<ProtocolNameView>) -> SocketEventView {
    SocketEventView {
        l7_protocol_hint: protocol_code(protocols, tokens[HINT as int]).unwrap(),
        direction: direction_of(tokens[DIRECTION as int]).unwrap(),
        msg_type: decimal(tokens[MSG_TYPE as int]) as u8,
        process_id: decimal(tokens[PROCESS_ID as int]) as u32,
        thread_id: decimal(tokens[THREAD_ID as int]) as u32,
        coroutine_id: decimal(tokens[COROUTINE_ID as int]) as u64,
        fd: decimal(tokens[FD as int]) as u32,
        socket_role: role_of(tokens[ROLE as int]),
        container_id: container_id_of(tokens[CONTAINER_ID as int]),
        source: decimal(tokens[SOURCE as int]) as u8,
        process_name: process_name_of(tokens[PROCESS_NAME as int]),
        transport_protocol: transport_of(tokens[TRANSPORT as int]),
        tuple: paired(
            endpoint(tokens[LOCAL as int]).unwrap(),
            endpoint(tokens[REMOTE as int]).unwrap(),
        ).unwrap(),
        cap_len: decimal(tokens[CAP_LEN as int]) as u32,
        syscall_len: decimal(tokens[SYSCALL_LEN as int]) as u64,
        socket_id: decimal(tokens[SOCKET_ID as int]) as u64,
        syscall_trace_id: decimal(tokens[TRACE_ID as int]) as u64,
        tcp_seq: decimal(tokens[TCP_SEQ as int]) as u64,
        cap_seq: decimal(tokens[DATA_SEQ as int]) as u64,
        is_tls: tls_of(tokens[TLS as int]),
        timestamp: timestamp_of(tokens[SYSCALL_TIME as int]).unwrap(),
        cap_timestamp: timestamp_of(tokens[CAP_TIME as int]).unwrap(),
        cap_data: Seq::empty(),
    }
}

/// What decoding a header line gives. The line is taken apart by the
/// grammar as far as it follows it. The first rule, in the order of the
/// line, whose token is not there or writes no value of its field is
/// reported; where there is none, the tokens write the event.
#[verifier::opaque]
pub open spec fn header_outcome(s: Seq<u8>, protocols: Seq<ProtocolNameView>) -> Result<
    SocketEventView,
    ParseError,
> {
    let tokens = header_tokens(s);
    match earliest_fault(tokens, protocols, 0) {
        Some(i) => Err(ParseError { field: rule(i).field, fault: Fault::Value }),
        None => if tokens.len() < RULE_COUNT {
            Err(ParseError { field: rule(tokens.len() as int).field, fault: Fault::Syntax })
        } else {
            Ok(event_of(tokens, protocols))
        },
    }
}

/// The first fault is the fault before which there is none.
pub proof fn lemma_fault_found(
    tokens: Seq<Seq<u8>>,
    protocols: Seq<ProtocolNameView>,
    from: int,
    k: int,
)
    requires
        0 <= from <= k < tokens.len(),
        forall|j: int| from <= j < k ==> !value_fault(tokens, protocols, j),
        value_fault(tokens, protocols, k),
    ensures
        earliest_fault(tokens, protocols, from) == Some(k),
    decreases k - from,
{
    if from < k {
        lemma_fault_found(tokens, protocols, from + 1, k);
    }
}

/// There is no first fault where there is no fault.
pub proof fn lemma_no_fault(tokens: Seq<Seq<u8>>, protocols: Seq<ProtocolNameView>, from: int)
    requires
        0 <= from,
        forall|j: int| from <= j < tokens.len() ==> !value_fault(tokens, protocols, j),
    ensures
        earliest_fault(tokens, protocols, from) is None,
    decreases tokens.len() - from,
{
    if from < tokens.len() {
        lemma_no_fault(tokens, protocols, from + 1);
    }
}

/// The role, the transport protocol, the TLS flag, the container id and
/// the process name are lenient: whatever their tokens hold, decoding
/// them is no fault.
pub proof fn lemma_lenient_fields(tokens: Seq<Seq<u8>>, protocols: Seq<ProtocolNameView>)
    ensures
        !value_fault(tokens, protocols, ROLE as int),
        !value_fault(tokens, protocols, CONTAINER_ID as int),
        !value_fault(tokens, protocols, PROCESS_NAME as int),
        !value_fault(tokens, protocols, TRANSPORT as int),
        !value_fault(tokens, protocols, TLS as int),
{
}

/// The token `client` gives the role of code 1, `server` that of code 2,
/// and every other token the unknown role, of code 0.
pub proof fn lemma_role_mapping(t: Seq<u8>)
    ensures
        t == "client".spec_bytes() ==> role_of(t) == SocketRole::Client,
        t == "server".spec_bytes() ==> role_of(t) == SocketRole::Server,
        t != "client".spec_bytes() && t != "server".spec_bytes() ==> role_of(t)
            == SocketRole::Unknown,
        role_of(t).spec_code() == if t == "client".spec_bytes() {
            1u8
        } else if t == "server".spec_bytes() {
            2u8
        } else {
            0u8
        },
{
    reveal_strlit("client");
    reveal_strlit("server");
    vstd::string::is_ascii_spec_bytes("client");
    vstd::string::is_ascii_spec_bytes("server");
    assert("client".spec_bytes()[0] == 0x63u8);
    assert("server".spec_bytes()[0] == 0x73u8);
}

/// A token without bytes gives the unknown role, no transport protocol
/// and no TLS.
pub proof fn lemma_empty_lenient_tokens()
    ensures
        role_of(Seq::empty()) == SocketRole::Unknown,
        transport_of(Seq::empty()) == TransportProtocol::Unspecified,
        !tls_of(Seq::empty()),
{
    reveal_strlit("client");
    reveal_strlit("server");
    reveal_strlit("TCP");
    reveal_strlit("UDP");
    reveal_strlit("true");
    vstd::string::is_ascii_spec_bytes("client");
    vstd::string::is_ascii_spec_bytes("server");
    vstd::string::is_ascii_spec_bytes("TCP");
    vstd::string::is_ascii_spec_bytes("UDP");
    vstd::string::is_ascii_spec_bytes("true");
    assert("client".spec_bytes().len() == 6);
    assert("server".spec_bytes().len() == 6);
    assert("TCP".spec_bytes().len() == 3);
    assert("UDP".spec_bytes().len() == 3);
    assert("true".spec_bytes().len() == 4);
}

/// The token `TCP` gives protocol 6, `UDP` protocol 17, and every other
/// token leaves the protocol at 0.
pub proof fn lemma_transport_mapping(t: Seq<u8>)
    ensures
        transport_of(t).spec_number() == if t == "TCP".spec_bytes() {
            6u8
        } else if t == "UDP".spec_bytes() {
            17u8
        } else {
            0u8
        },
{
    reveal_strlit("TCP");
    reveal_strlit("UDP");
    vstd::string::is_ascii_spec_bytes("TCP");
    vstd::string::is_ascii_spec_bytes("UDP");
    assert("TCP".spec_bytes()[0] == 0x54u8);
    assert("UDP".spec_bytes()[0] == 0x55u8);
}

/// A process name is kept up to the capacity of the field, byte for byte:
/// what is stored of a longer token is exactly its first bytes.
pub proof fn lemma_process_name_truncated(t: Seq<u8>)
    ensures
        process_name_of(t).len() == if t.len() <= PROCESS_NAME_CAPACITY {
            t.len()
        } else {
            PROCESS_NAME_CAPACITY as nat
        },
        forall|i: int| 0 <= i < process_name_of(t).len() ==> process_name_of(t)[i] == t[i],
        t.len() > PROCESS_NAME_CAPACITY ==> process_name_of(t) == t.take(
            PROCESS_NAME_CAPACITY as int,
        ),
{
}

/// The container id is absent exactly for the token `null`: every other
/// token, which is never empty, leaves at least its first byte.
pub proof fn lemma_container_id_absent(t: Seq<u8>)
    requires
        t.len() >= 1,
    ensures
        container_id_of(t).len() == 0 <==> t == "null".spec_bytes(),
{
}

/// A line that follows the grammar up to rule `n` and no further, with
/// tokens that all write values, is refused for the field of rule `n`.
pub proof fn lemma_missing_field(s: Seq<u8>, protocols: Seq<ProtocolNameView>, n: int)
    requires
        header_tokens(s).len() == n,
        0 <= n < RULE_COUNT,
        forall|j: int| 0 <= j < n ==> !value_fault(header_tokens(s), protocols, j),
    ensures
        header_outcome(s, protocols) == Err::<SocketEventView, ParseError>(
            ParseError { field: rule(n).field, fault: Fault::Syntax },
        ),
{
    reveal(header_outcome);
    lemma_no_fault(header_tokens(s), protocols, 0);
}

/// A line without the tag of the direction is refused for the direction:
/// where the reserved words and a protocol hint that is known are there,
/// and ` DIR ` does not stand behind them, decoding reports the syntax of
/// that field.
pub proof fn lemma_missing_direction_tag(s: Seq<u8>, protocols: Seq<ProtocolNameView>, p: int)
    requires
        reached(s, 0, 0, DIRECTION as int) == Some(p),
        !occurs_at(s, p, " DIR ".spec_bytes()),
        protocol_code(protocols, header_tokens(s)[HINT as int]) is Some,
    ensures
        header_outcome(s, protocols) == Err::<SocketEventView, ParseError>(
            ParseError { field: Field::Direction, fault: Fault::Syntax },
        ),
{
    lemma_tokens_stop(s, 0, 0, DIRECTION as int);
    lemma_missing_field(s, protocols, DIRECTION as int);
}

/// Where there is no first fault, there is no fault.
pub proof fn lemma_earliest_none(tokens: Seq<Seq<u8>>, protocols: Seq<ProtocolNameView>, from: int)
    requires
        0 <= from,
        earliest_fault(tokens, protocols, from) is None,
    ensures
        forall|j: int| from <= j < tokens.len() ==> !value_fault(tokens, protocols, j),
    decreases tokens.len() - from,
{
    if from < tokens.len() {
        lemma_earliest_none(tokens, protocols, from + 1);
    }
}

/// A line decodes to an event exactly if it follows every rule of the
/// grammar and every token writes a value. The event is then the one that
/// the tokens write, and it is well-formed.
pub proof fn lemma_header_event(s: Seq<u8>, protocols: Seq<ProtocolNameView>)
    ensures
        header_outcome(s, protocols) is Ok <==> header_tokens(s).len() == RULE_COUNT && forall|
            j: int,
        |
            0 <= j < RULE_COUNT ==> !value_fault(header_tokens(s), protocols, j),
        header_outcome(s, protocols) matches Ok(event) ==> event == event_of(
            header_tokens(s),
            protocols,
        ) && event.wf(),
{
    reveal(header_outcome);
    let tokens = header_tokens(s);
    lemma_tokens_from_len(s, 0, 0);
    if earliest_fault(tokens, protocols, 0) is None {
        lemma_earliest_none(tokens, protocols, 0);
        if tokens.len() == RULE_COUNT {
            assert(!value_fault(tokens, protocols, REMOTE as int));
        }
    } else {
        lemma_earliest_some(tokens, protocols, 0);
    }
    if tokens.len() == RULE_COUNT && forall|j: int|
        0 <= j < RULE_COUNT ==> !value_fault(tokens, protocols, j) {
        lemma_no_fault(tokens, protocols, 0);
    }
}

/// The first fault is a fault.
pub proof fn lemma_earliest_some(tokens: Seq<Seq<u8>>, protocols: Seq<ProtocolNameView>, from: int)
    requires
        0 <= from,
        earliest_fault(tokens, protocols, from) is Some,
    ensures
        from <= earliest_fault(tokens, protocols, from).unwrap() < tokens.len(),
        value_fault(tokens, protocols, earliest_fault(tokens, protocols, from).unwrap()),
    decreases tokens.len() - from,
{
    if from < tokens.len() && !value_fault(tokens, protocols, from) {
        lemma_earliest_some(tokens, protocols, from + 1);
    }
}

/// Two endpoints whose addresses are of different families are refused
/// for the remote endpoint, where nothing before them is at fault.
pub proof fn lemma_mixed_families_refused(s: Seq<u8>, protocols: Seq<ProtocolNameView>)
    requires
        header_tokens(s).len() > REMOTE,
        forall|j: int| 0 <= j < REMOTE ==> !value_fault(header_tokens(s), protocols, j),
        endpoint(header_tokens(s)[LOCAL as int]) is Some,
        endpoint(header_tokens(s)[REMOTE as int]) is Some,
        endpoint(header_tokens(s)[LOCAL as int]).unwrap().addr.len() != endpoint(
            header_tokens(s)[REMOTE as int],
        ).unwrap().addr.len(),
    ensures
        header_outcome(s, protocols) == Err::<SocketEventView, ParseError>(
            ParseError { field: Field::RemoteEndpoint, fault: Fault::Value },
        ),
{
    lemma_invalid_field(s, protocols, REMOTE as int);
}

/// No line is refused for the value of a lenient field: the role, the
/// container id, the process name, the transport protocol or the TLS flag.
pub proof fn lemma_lenient_never_invalid(s: Seq<u8>, protocols: Seq<ProtocolNameView>)
    ensures
        header_outcome(s, protocols) matches Err(e) ==> !(e.fault == Fault::Value && (e.field
            == Field::Role || e.field == Field::ContainerId || e.field == Field::ProcessName
            || e.field == Field::TransportProtocol || e.field == Field::Tls)),
{
    reveal(header_outcome);
    let tokens = header_tokens(s);
    lemma_tokens_from_len(s, 0, 0);
    if earliest_fault(tokens, protocols, 0) is Some {
        lemma_earliest_some(tokens, protocols, 0);
        lemma_lenient_fields(tokens, protocols);
    }
}

/// A line with the tag of the role in its place is not refused for the
/// role, whatever stands behind the tag, be it nothing. Where the line
/// decodes, its role is the one that the token names.
pub proof fn lemma_role_token_accepted(s: Seq<u8>, protocols: Seq<ProtocolNameView>, p: int)
    requires
        reached(s, 0, 0, ROLE as int) == Some(p),
        occurs_at(s, p, " ROLE ".spec_bytes()),
    ensures
        header_tokens(s).len() > ROLE,
        header_outcome(s, protocols) matches Err(e) ==> e.field != Field::Role,
        header_outcome(s, protocols) matches Ok(event) ==> event.socket_role == role_of(
            header_tokens(s)[ROLE as int],
        ),
{
    lemma_tokens_reach(s, 0, 0, ROLE as int);
    lemma_tokens_from_len(s, 0, 0);
    lemma_lenient_never_invalid(s, protocols);
    lemma_header_event(s, protocols);
    reveal(header_outcome);
    let tokens = header_tokens(s);
    if earliest_fault(tokens, protocols, 0) is Some {
        lemma_earliest_some(tokens, protocols, 0);
    }
}

/// A line with the tag of the TLS flag in its place is not refused for
/// the flag, whatever stands behind the tag, be it nothing. Where the line
/// decodes, the flag is set exactly for the token `true`.
pub proof fn lemma_tls_token_accepted(s: Seq<u8>, protocols: Seq<ProtocolNameView>, p: int)
    requires
        reached(s, 0, 0, TLS as int) == Some(p),
        occurs_at(s, p, " TLS ".spec_bytes()),
    ensures
        header_tokens(s).len() > TLS,
        header_outcome(s, protocols) matches Err(e) ==> e.field != Field::Tls,
        header_outcome(s, protocols) matches Ok(event) ==> event.is_tls == tls_of(
            header_tokens(s)[TLS as int],
        ),
{
    lemma_tokens_reach(s, 0, 0, TLS as int);
    lemma_tokens_from_len(s, 0, 0);
    lemma_lenient_never_invalid(s, protocols);
    lemma_header_event(s, protocols);
    reveal(header_outcome);
    let tokens = header_tokens(s);
    if earliest_fault(tokens, protocols, 0) is Some {
        lemma_earliest_some(tokens, protocols, 0);
    }
}

/// A line whose token of rule `k` is the first that writes no value is
/// refused for the field of rule `k`.
pub proof fn lemma_invalid_field(s: Seq<u8>, protocols: Seq<ProtocolNameView>, k: int)
    requires
        0 <= k < header_tokens(s).len(),
        forall|j: int| 0 <= j < k ==> !value_fault(header_tokens(s), protocols, j),
        value_fault(header_tokens(s), protocols, k),
    ensures
        header_outcome(s, protocols) == Err::<SocketEventView, ParseError>(
            ParseError { field: rule(k).field, fault: Fault::Value },
        ),
{
    reveal(header_outcome);
    lemma_fault_found(header_tokens(s), protocols, 0, k);
}

/// Reads the direction.
pub fn decode_direction(t: &[u8]) -> (r: Option<Direction>)
    ensures
        r == direction_of(t@),
{
    if same_text(t, "out".as_bytes()) {
        Some(Direction::Send)
    } else if same_text(t, "in".as_bytes()) {
        Some(Direction::Receive)
    } else {
        None
    }
}

/// Reads the role of the socket.
pub fn decode_role(t: &[u8]) -> (r: SocketRole)
    ensures
        r == role_of(t@),
{
    if same_text(t, "client".as_bytes()) {
        SocketRole::Client
    } else if same_text(t, "server".as_bytes()) {
        SocketRole::Server
    } else {
        SocketRole::Unknown
    }
}

/// Reads the transport protocol.
pub fn decode_transport(t: &[u8]) -> (r: TransportProtocol)
    ensures
        r == transport_of(t@),
{
    if same_text(t, "TCP".as_bytes()) {
        TransportProtocol::Tcp
    } else if same_text(t, "UDP".as_bytes()) {
        TransportProtocol::Udp
    } else {
        TransportProtocol::Unspecified
    }
}

/// Reads the TLS flag.
pub fn decode_tls(t: &[u8]) -> (r: bool)
    ensures
        r == tls_of(t@),
{
    same_text(t, "true".as_bytes())
}

/// Copies the first `capacity` bytes of `t`, or all of it if it has no
/// more.
pub fn copy_truncated(t: &[u8], capacity: usize) -> (r: Vec<u8>)
    ensures
        r@ == truncated(t@, capacity as int),
        r.len() <= capacity,
{
    let keep: usize = if t.len() <= capacity {
        t.len()
    } else {
        capacity
    };
    let mut out: Vec<u8> = Vec::new();
    let mut i: usize = 0;
    while i < keep
        invariant
            i <= keep <= t.len(),
            out@ == t@.take(i as int),
        decreases keep - i,
    {
        out.push(t[i]);
        assert(out@ =~= t@.take(i + 1));
        i += 1;
    }
    assert(t@.take(t.len() as int) =~= t@);
    out
}

/// Reads the container id.
pub fn decode_container_id(t: &[u8]) -> (r: Vec<u8>)
    ensures
        r@ == container_id_of(t@),
        r.len() <= CONTAINER_ID_CAPACITY,
{
    if same_text(t, "null".as_bytes()) {
        Vec::new()
    } else {
        copy_truncated(t, CONTAINER_ID_CAPACITY)
    }
}

/// Reads the process name.
pub fn decode_process_name(t: &[u8]) -> (r: Vec<u8>)
    ensures
        r@ == process_name_of(t@),
        r.len() <= PROCESS_NAME_CAPACITY,
{
    copy_truncated(t, PROCESS_NAME_CAPACITY)
}

/// The largest number that the field of rule `k` holds.
pub fn limit_at(k: usize) -> (r: u64)
    ensures
        r == number_limit(k as int),
{
    if k == MSG_TYPE || k == SOURCE {
        u8::MAX as u64
    } else if k == PROCESS_ID || k == THREAD_ID || k == FD || k == CAP_LEN {
        u32::MAX as u64
    } else {
        u64::MAX
    }
}

/// The error for a line that stops following the grammar at rule `n`.
pub fn missing(n: usize) -> (e: ParseError)
    ensures
        e == (ParseError { field: rule(n as int).field, fault: Fault::Syntax }),
{
    ParseError { field: rule_at(n).field, fault: Fault::Syntax }
}

/// The error for a token that writes no value of the field of rule `k`.
pub fn invalid(k: usize) -> (e: ParseError)
    ensures
        e == (ParseError { field: rule(k as int).field, fault: Fault::Value }),
{
    ParseError { field: rule_at(k).field, fault: Fault::Value }
}

/// Whether every token before that of rule `k` writes a value.
pub open spec fn sound_before(tokens: Seq<Seq<u8>>, protocols: Seq<ProtocolNameView>, k: int) -> bool {
    forall|j: int| 0 <= j < k ==> !value_fault(tokens, protocols, j)
}

/// The token of rule `k`, or the error of the rule at which the line
/// stops, if that is rule `k` or one before it.
fn token_at<'a>(
    line: &'a [u8],
    spans: &Vec<Span>,
    k: usize,
    Ghost(protocols): Ghost<Seq<ProtocolNameView>>,
) -> (r: Result<&'a [u8], ParseError>)
    requires
        located(line@, spans@),
        k < RULE_COUNT,
        sound_before(header_tokens(line@), protocols, k as int),
    ensures
        match r {
            Ok(t) => k < spans.len() && t@ == header_tokens(line@)[k as int],
            Err(e) => header_outcome(line@, protocols) == Err::<SocketEventView, ParseError>(e),
        },
{
    let n: usize = spans.len();
    if n <= k {
        proof {
            lemma_missing_field(line@, protocols, n as int);
        }
        return Err(missing(n));
    }
    Ok(slice_of(line, spans[k]))
}

/// The number that the token of rule `k` writes, or the error of the
/// first rule up to `k` that the line fails.
fn number_at(
    line: &[u8],
    spans: &Vec<Span>,
    k: usize,
    Ghost(protocols): Ghost<Seq<ProtocolNameView>>,
) -> (r: Result<u64, ParseError>)
    requires
        located(line@, spans@),
        k < RULE_COUNT,
        is_number(k as int),
        sound_before(header_tokens(line@), protocols, k as int),
    ensures
        match r {
            Ok(v) => {
                &&& k < spans.len()
                &&& v == decimal(header_tokens(line@)[k as int])
                &&& v <= number_limit(k as int)
                &&& sound_before(header_tokens(line@), protocols, k + 1)
            },
            Err(e) => header_outcome(line@, protocols) == Err::<SocketEventView, ParseError>(e),
        },
{
    let t = token_at(line, spans, k, Ghost(protocols))?;
    match read_number(t, 10, limit_at(k)) {
        Some(v) => Ok(v),
        None => {
            proof {
                lemma_invalid_field(line@, protocols, k as int);
            }
            Err(invalid(k))
        },
    }
}

/// Decodes a header line into an event without payload. The names of
/// the application protocols come from `protocols`.
///
/// The line is taken apart by the grammar: five reserved words, then the
/// tagged fields in their fixed order. The first field, in the order of
/// the line, that is not there or does not write a value is reported, and
/// nothing of the record is kept.
pub fn parse_header(line: &[u8], protocols: &ProtocolTable) -> (r: Result<SocketEvent, ParseError>)
    ensures
        match r {
            Ok(event) => header_outcome(line@, protocols@) == Ok::<SocketEventView, ParseError>(
                event@,
            ) && event@.wf(),
            Err(e) => header_outcome(line@, protocols@) == Err::<SocketEventView, ParseError>(e),
        },
{
    let spans = scan_tokens(line);
    let ghost tokens = header_tokens(line@);
    let ghost names = protocols@;
    let l7_protocol_hint: u16 = match protocols.lookup(token_at(line, &spans, HINT, Ghost(names))?) {
        Some(code) => code,
        None => {
            proof {
                lemma_invalid_field(line@, names, HINT as int);
            }
            return Err(invalid(HINT));
        },
    };
    let direction = match decode_direction(token_at(line, &spans, DIRECTION, Ghost(names))?) {
        Some(d) => d,
        None => {
            proof {
                lemma_invalid_field(line@, names, DIRECTION as int);
            }
            return Err(invalid(DIRECTION));
        },
    };
    let msg_type: u8 = number_at(line, &spans, MSG_TYPE, Ghost(names))? as u8;
    let process_id: u32 = number_at(line, &spans, PROCESS_ID, Ghost(names))? as u32;
    let thread_id: u32 = number_at(line, &spans, THREAD_ID, Ghost(names))? as u32;
    let coroutine_id: u64 = number_at(line, &spans, COROUTINE_ID, Ghost(names))?;
    let fd: u32 = number_at(line, &spans, FD, Ghost(names))? as u32;
    let socket_role = decode_role(token_at(line, &spans, ROLE, Ghost(names))?);
    let container_id = decode_container_id(token_at(line, &spans, CONTAINER_ID, Ghost(names))?);
    let source: u8 = number_at(line, &spans, SOURCE, Ghost(names))? as u8;
    let process_name = decode_process_name(token_at(line, &spans, PROCESS_NAME, Ghost(names))?);
    let transport_protocol = decode_transport(token_at(line, &spans, TRANSPORT, Ghost(names))?);
    let local = match parse_endpoint(token_at(line, &spans, LOCAL, Ghost(names))?) {
        Some(e) => e,
        None => {
            proof {
                lemma_invalid_field(line@, names, LOCAL as int);
            }
            return Err(invalid(LOCAL));
        },
    };
    let remote = match parse_endpoint(token_at(line, &spans, REMOTE, Ghost(names))?) {
        Some(e) => e,
        None => {
            proof {
                lemma_invalid_field(line@, names, REMOTE as int);
            }
            return Err(invalid(REMOTE));
        },
    };
    let tuple = match pair_up(local, remote) {
        Some(t) => t,
        None => {
            proof {
                lemma_invalid_field(line@, names, REMOTE as int);
            }
            return Err(invalid(REMOTE));
        },
    };
    let cap_len: u32 = number_at(line, &spans, CAP_LEN, Ghost(names))? as u32;
    let syscall_len: u64 = number_at(line, &spans, SYSCALL_LEN, Ghost(names))?;
    let socket_id: u64 = number_at(line, &spans, SOCKET_ID, Ghost(names))?;
    let syscall_trace_id: u64 = number_at(line, &spans, TRACE_ID, Ghost(names))?;
    let tcp_seq: u64 = number_at(line, &spans, TCP_SEQ, Ghost(names))?;
    let cap_seq: u64 = number_at(line, &spans, DATA_SEQ, Ghost(names))?;
    let is_tls = decode_tls(token_at(line, &spans, TLS, Ghost(names))?);
    let timestamp: u64 = match decode_timestamp(
        token_at(line, &spans, SYSCALL_TIME, Ghost(names))?,
    ) {
        Some(t) => t,
        None => {
            proof {
                lemma_invalid_field(line@, names, SYSCALL_TIME as int);
            }
            return Err(invalid(SYSCALL_TIME));
        },
    };
    let cap_timestamp: u64 = match decode_timestamp(
        token_at(line, &spans, CAP_TIME, Ghost(names))?,
    ) {
        Some(t) => t,
        None => {
            proof {
                lemma_invalid_field(line@, names, CAP_TIME as int);
            }
            return Err(invalid(CAP_TIME));
        },
    };
    proof {
        reveal(header_outcome);
        lemma_no_fault(tokens, names, 0);
    }
    Ok(
        SocketEvent {
            l7_protocol_hint,
            direction,
            msg_type,
            process_id,
            thread_id,
            coroutine_id,
            fd,
            socket_role,
            container_id,
            source,
            process_name,
            transport_protocol,
            tuple,
            cap_len,
            syscall_len,
            socket_id,
            syscall_trace_id,
            tcp_seq,
            cap_seq,
            is_tls,
            timestamp,
            cap_timestamp,
            cap_data: Vec::new(),
        },
    )
}

} // verus!
