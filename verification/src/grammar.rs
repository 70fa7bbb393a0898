//! The grammar of a header line: an ordered table of rules, each a lead
//! that is skipped and a shape by which the token of a field is taken.

use vstd::prelude::*;
use vstd::string::StringSliceAdditionalSpecFns;
use crate::event::Field;
use crate::text::{
    find, find_from, lemma_find_from, matches_at, occurs_at, run_end, scan_run, token, ByteClass,
    Span,
};

verus! {

/// The bytes that delimit the tokens of a header line.
pub const SPACE: u8 = 0x20;

pub const LESS: u8 = 0x3c;

pub const GREATER: u8 = 0x3e;

pub const OPEN: u8 = 0x28;

pub const CLOSE: u8 = 0x29;

/// What stands before the token of a field.
#[derive(Clone, Copy, Debug, PartialEq, Eq)]
pub enum Lead {
    /// Nothing: the token starts at once.
    Nothing,
    /// One or more blanks.
    Blanks,
    /// A literal tag.
    Tag(&'static str),
    /// Anything up to the first place where the mark stands, and there the
    /// tag.
    Seek(&'static str, &'static str),
}

/// How the token of a field is delimited.
#[derive(Clone, Copy, Debug, PartialEq, Eq)]
pub enum Shape {
    /// One or more bytes that are no space.
    Word,
    /// Any bytes that are no space, or none at all: the token of a field
    /// that takes whatever stands there.
    Loose,
    /// A word, and one or more blanks behind it that belong to no token.
    Padded,
    /// One or more bytes between `<` and the next `>`.
    Bracketed,
    /// One or more digits in round brackets, behind one or more bytes that
    /// are no opening bracket.
    Coded,
    /// One or more decimal digits.
    Digits,
    /// Everything before the first place where the stop text stands.
    Until(&'static str),
}

/// One entry of the grammar.
#[derive(Clone, Copy, Debug, PartialEq, Eq)]
pub struct Rule {
    pub field: Field,
    pub lead: Lead,
    pub shape: Shape,
}

/// A token and the position behind what its rule took.
pub struct Matched {
    pub text: Seq<u8>,
    pub next: int,
}

/// The number of rules of the grammar.
pub const RULE_COUNT: usize = 28;

/// The numbers of the rules, by the fields whose tokens they take.
pub const HINT: usize = 5;

pub const DIRECTION: usize = 6;

pub const MSG_TYPE: usize = 7;

pub const PROCESS_ID: usize = 8;

pub const THREAD_ID: usize = 9;

pub const COROUTINE_ID: usize = 10;

pub const FD: usize = 11;

pub const ROLE: usize = 12;

pub const CONTAINER_ID: usize = 13;

pub const SOURCE: usize = 14;

pub const PROCESS_NAME: usize = 15;

pub const TRANSPORT: usize = 16;

pub const LOCAL: usize = 17;

pub const REMOTE: usize = 18;

pub const CAP_LEN: usize = 19;

pub const SYSCALL_LEN: usize = 20;

pub const SOCKET_ID: usize = 21;

pub const TRACE_ID: usize = 22;

pub const TCP_SEQ: usize = 23;

pub const DATA_SEQ: usize = 24;

pub const TLS: usize = 25;

pub const SYSCALL_TIME: usize = 26;

pub const CAP_TIME: usize = 27;

/// The grammar: rule `i` takes the token of entry `i` of a header line.
/// Five reserved words come first, then the fields in their fixed order.
pub open spec fn rule(i: int) -> Rule {
    if i < HINT {
        Rule { field: Field::Reserved, lead: Lead::Nothing, shape: Shape::Padded }
    } else if i == HINT {
        Rule { field: Field::ProtocolHint, lead: Lead::Nothing, shape: Shape::Bracketed }
    } else if i == DIRECTION {
        Rule { field: Field::Direction, lead: Lead::Tag(" DIR "), shape: Shape::Word }
    } else if i == MSG_TYPE {
        Rule { field: Field::MsgType, lead: Lead::Tag(" TYPE "), shape: Shape::Coded }
    } else if i == PROCESS_ID {
        Rule { field: Field::ProcessId, lead: Lead::Tag(" PID "), shape: Shape::Digits }
    } else if i == THREAD_ID {
        Rule { field: Field::ThreadId, lead: Lead::Tag(" THREAD_ID "), shape: Shape::Digits }
    } else if i == COROUTINE_ID {
        Rule { field: Field::CoroutineId, lead: Lead::Tag(" COROUTINE_ID "), shape: Shape::Digits }
    } else if i == FD {
        Rule { field: Field::Fd, lead: Lead::Tag(" FD "), shape: Shape::Digits }
    } else if i == ROLE {
        Rule { field: Field::Role, lead: Lead::Tag(" ROLE "), shape: Shape::Loose }
    } else if i == CONTAINER_ID {
        Rule { field: Field::ContainerId, lead: Lead::Tag(" CONTAINER_ID "), shape: Shape::Word }
    } else if i == SOURCE {
        Rule { field: Field::Source, lead: Lead::Tag(" SOURCE "), shape: Shape::Digits }
    } else if i == PROCESS_NAME {
        Rule { field: Field::ProcessName, lead: Lead::Tag(" COMM "), shape: Shape::Word }
    } else if i == TRANSPORT {
        Rule { field: Field::TransportProtocol, lead: Lead::Tag(" "), shape: Shape::Loose }
    } else if i == LOCAL {
        Rule { field: Field::LocalEndpoint, lead: Lead::Blanks, shape: Shape::Word }
    } else if i == REMOTE {
        Rule { field: Field::RemoteEndpoint, lead: Lead::Tag(" > "), shape: Shape::Word }
    } else if i == CAP_LEN {
        Rule { field: Field::CapLen, lead: Lead::Tag(" LEN "), shape: Shape::Digits }
    } else if i == SYSCALL_LEN {
        Rule { field: Field::SyscallLen, lead: Lead::Tag(" SYSCALL_LEN "), shape: Shape::Digits }
    } else if i == SOCKET_ID {
        Rule { field: Field::SocketId, lead: Lead::Tag(" SOCKET_ID "), shape: Shape::Digits }
    } else if i == TRACE_ID {
        Rule { field: Field::TraceId, lead: Lead::Tag(" TRACE_ID "), shape: Shape::Digits }
    } else if i == TCP_SEQ {
        Rule { field: Field::TcpSeq, lead: Lead::Tag(" TCP_SEQ "), shape: Shape::Digits }
    } else if i == DATA_SEQ {
        Rule { field: Field::DataSeq, lead: Lead::Tag(" DATA_SEQ "), shape: Shape::Digits }
    } else if i == TLS {
        Rule { field: Field::Tls, lead: Lead::Tag(" TLS "), shape: Shape::Loose }
    } else if i == SYSCALL_TIME {
        Rule {
            field: Field::SyscallTime,
            lead: Lead::Tag(" SyscallTime "),
            shape: Shape::Until(" SyscallMonoTime"),
        }
    } else {
        Rule {
            field: Field::CapTime,
            lead: Lead::Seek(" CapTime", " CapTime "),
            shape: Shape::Until(" CapMonoTime"),
        }
    }
}

/// The position behind the lead, if the lead stands at `pos`.
pub open spec fn lead_end(s: Seq<u8>, pos: int, lead: Lead) -> Option<int> {
    match lead {
        Lead::Nothing => Some(pos),
        Lead::Blanks => {
            let e = run_end(s, pos, ByteClass::Blank);
            if e > pos {
                Some(e)
            } else {
                None
            }
        },
        Lead::Tag(tag) => if occurs_at(s, pos, tag.spec_bytes()) {
            Some(pos + tag.spec_bytes().len())
        } else {
            None
        },
        Lead::Seek(mark, tag) => match find_from(s, pos, mark.spec_bytes()) {
            Some(p) => if occurs_at(s, p, tag.spec_bytes()) {
                Some(p + tag.spec_bytes().len())
            } else {
                None
            },
            None => None,
        },
    }
}

/// The token that the shape takes at `pos`, if there is one.
pub open spec fn shape_match(s: Seq<u8>, pos: int, shape: Shape) -> Option<Matched> {
    match shape {
        Shape::Word => {
            let e = run_end(s, pos, ByteClass::Except(SPACE));
            if e > pos {
                Some(Matched { text: s.subrange(pos, e), next: e })
            } else {
                None
            }
        },
        Shape::Loose => {
            let e = run_end(s, pos, ByteClass::Except(SPACE));
            if 0 <= pos <= s.len() {
                Some(Matched { text: s.subrange(pos, e), next: e })
            } else {
                None
            }
        },
        Shape::Padded => {
            let e = run_end(s, pos, ByteClass::Except(SPACE));
            let b = run_end(s, e, ByteClass::Blank);
            if e > pos && b > e {
                Some(Matched { text: s.subrange(pos, e), next: b })
            } else {
                None
            }
        },
        Shape::Bracketed => {
            let e = run_end(s, pos + 1, ByteClass::Except(GREATER));
            if 0 <= pos < s.len() && s[pos] == LESS && pos + 1 < e < s.len() && s[e] == GREATER {
                Some(Matched { text: s.subrange(pos + 1, e), next: e + 1 })
            } else {
                None
            }
        },
        Shape::Coded => {
            let e = run_end(s, pos, ByteClass::Except(OPEN));
            let d = run_end(s, e + 1, ByteClass::Digit);
            if pos < e < s.len() && s[e] == OPEN && e + 1 < d < s.len() && s[d] == CLOSE {
                Some(Matched { text: s.subrange(e + 1, d), next: d + 1 })
            } else {
                None
            }
        },
        Shape::Digits => {
            let e = run_end(s, pos, ByteClass::Digit);
            if e > pos {
                Some(Matched { text: s.subrange(pos, e), next: e })
            } else {
                None
            }
        },
        Shape::Until(stop) => match find_from(s, pos, stop.spec_bytes()) {
            Some(p) => Some(Matched { text: s.subrange(pos, p), next: p }),
            None => None,
        },
    }
}

/// The token that a rule takes at `pos`: its lead is skipped, then its
/// shape delimits the token.
pub open spec fn rule_match(s: Seq<u8>, pos: int, rule: Rule) -> Option<Matched> {
    match lead_end(s, pos, rule.lead) {
        Some(p) => shape_match(s, p, rule.shape),
        None => None,
    }
}

/// The tokens that the rules from `i` on take one behind the other from
/// `pos` on, up to the first rule that takes none.
pub open spec fn tokens_from(s: Seq<u8>, pos: int, i: int) -> Seq<Seq<u8>>
    decreases RULE_COUNT - i,
{
    if i < 0 || i >= RULE_COUNT {
        Seq::empty()
    } else {
        match rule_match(s, pos, rule(i)) {
            None => Seq::empty(),
            Some(m) => seq![m.text] + tokens_from(s, m.next, i + 1),
        }
    }
}

/// The tokens of a header line: one for each rule of the grammar, in
/// order, up to the first rule that the line does not follow.
pub open spec fn header_tokens(s: Seq<u8>) -> Seq<Seq<u8>> {
    tokens_from(s, 0, 0)
}

/// Whether `spans` tell where the tokens of a header line lie.
pub open spec fn located(line: Seq<u8>, spans: Seq<Span>) -> bool {
    &&& spans.len() == header_tokens(line).len()
    &&& forall|i: int|
        0 <= i < spans.len() ==> (#[trigger] spans[i]).start <= spans[i].end <= line.len()
            && token(line, spans[i]) == header_tokens(line)[i]
}

/// The position that a line reaches from `pos` by the rules from `i` up
/// to rule `n`, which is not applied, if the line follows them all.
pub open spec fn reached(s: Seq<u8>, pos: int, i: int, n: int) -> Option<int>
    decreases n - i,
{
    if i >= n {
        Some(pos)
    } else {
        match rule_match(s, pos, rule(i)) {
            None => None,
            Some(m) => reached(s, m.next, i + 1, n),
        }
    }
}

/// A line that follows the rules before rule `n`, and at the position
/// that it reaches by them does not follow rule `n`, has a token for each
/// of the rules before `n` and no more.
pub proof fn lemma_tokens_stop(s: Seq<u8>, pos: int, i: int, n: int)
    requires
        0 <= i <= n < RULE_COUNT,
        reached(s, pos, i, n) matches Some(p) && rule_match(s, p, rule(n)) is None,
    ensures
        tokens_from(s, pos, i).len() == n - i,
    decreases n - i,
{
    if i < n {
        let m = rule_match(s, pos, rule(i)).unwrap();
        lemma_tokens_stop(s, m.next, i + 1, n);
    }
}

/// A line that follows the rules before rule `n`, and rule `n` at the
/// position that it reaches by them, has a token for rule `n`.
pub proof fn lemma_tokens_reach(s: Seq<u8>, pos: int, i: int, n: int)
    requires
        0 <= i <= n < RULE_COUNT,
        reached(s, pos, i, n) matches Some(p) && rule_match(s, p, rule(n)) is Some,
    ensures
        tokens_from(s, pos, i).len() > n - i,
    decreases n - i,
{
    if i < n {
        let m = rule_match(s, pos, rule(i)).unwrap();
        lemma_tokens_reach(s, m.next, i + 1, n);
    }
}

/// The rules of the role, the transport protocol and the TLS flag take
/// whatever stands behind their tag, be it nothing: a line fails them only
/// where the tag is not there.
pub proof fn lemma_loose_rules(s: Seq<u8>, pos: int, i: int)
    requires
        i == ROLE || i == TRANSPORT || i == TLS,
        0 <= pos <= s.len(),
    ensures
        rule_match(s, pos, rule(i)) is Some <==> lead_end(s, pos, rule(i).lead) is Some,
        rule_match(s, pos, rule(i)) matches Some(m) ==> {
            let p = lead_end(s, pos, rule(i).lead).unwrap();
            m.next == run_end(s, p, ByteClass::Except(SPACE)) && m.text == s.subrange(p, m.next)
        },
{
}

/// No more tokens are taken than there are rules.
pub proof fn lemma_tokens_from_len(s: Seq<u8>, pos: int, i: int)
    requires
        0 <= i <= RULE_COUNT,
    ensures
        tokens_from(s, pos, i).len() <= RULE_COUNT - i,
    decreases RULE_COUNT - i,
{
    if i < RULE_COUNT {
        match rule_match(s, pos, rule(i)) {
            None => {},
            Some(m) => {
                lemma_tokens_from_len(s, m.next, i + 1);
            },
        }
    }
}

/// Rule `i` of the grammar.
pub fn rule_at(i: usize) -> (r: Rule)
    ensures
        r == rule(i as int),
{
    if i < HINT {
        Rule { field: Field::Reserved, lead: Lead::Nothing, shape: Shape::Padded }
    } else if i == HINT {
        Rule { field: Field::ProtocolHint, lead: Lead::Nothing, shape: Shape::Bracketed }
    } else if i == DIRECTION {
        Rule { field: Field::Direction, lead: Lead::Tag(" DIR "), shape: Shape::Word }
    } else if i == MSG_TYPE {
        Rule { field: Field::MsgType, lead: Lead::Tag(" TYPE "), shape: Shape::Coded }
    } else if i == PROCESS_ID {
        Rule { field: Field::ProcessId, lead: Lead::Tag(" PID "), shape: Shape::Digits }
    } else if i == THREAD_ID {
        Rule { field: Field::ThreadId, lead: Lead::Tag(" THREAD_ID "), shape: Shape::Digits }
    } else if i == COROUTINE_ID {
        Rule { field: Field::CoroutineId, lead: Lead::Tag(" COROUTINE_ID "), shape: Shape::Digits }
    } else if i == FD {
        Rule { field: Field::Fd, lead: Lead::Tag(" FD "), shape: Shape::Digits }
    } else if i == ROLE {
        Rule { field: Field::Role, lead: Lead::Tag(" ROLE "), shape: Shape::Loose }
    } else if i == CONTAINER_ID {
        Rule { field: Field::ContainerId, lead: Lead::Tag(" CONTAINER_ID "), shape: Shape::Word }
    } else if i == SOURCE {
        Rule { field: Field::Source, lead: Lead::Tag(" SOURCE "), shape: Shape::Digits }
    } else if i == PROCESS_NAME {
        Rule { field: Field::ProcessName, lead: Lead::Tag(" COMM "), shape: Shape::Word }
    } else if i == TRANSPORT {
        Rule { field: Field::TransportProtocol, lead: Lead::Tag(" "), shape: Shape::Loose }
    } else if i == LOCAL {
        Rule { field: Field::LocalEndpoint, lead: Lead::Blanks, shape: Shape::Word }
    } else if i == REMOTE {
        Rule { field: Field::RemoteEndpoint, lead: Lead::Tag(" > "), shape: Shape::Word }
    } else if i == CAP_LEN {
        Rule { field: Field::CapLen, lead: Lead::Tag(" LEN "), shape: Shape::Digits }
    } else if i == SYSCALL_LEN {
        Rule { field: Field::SyscallLen, lead: Lead::Tag(" SYSCALL_LEN "), shape: Shape::Digits }
    } else if i == SOCKET_ID {
        Rule { field: Field::SocketId, lead: Lead::Tag(" SOCKET_ID "), shape: Shape::Digits }
    } else if i == TRACE_ID {
        Rule { field: Field::TraceId, lead: Lead::Tag(" TRACE_ID "), shape: Shape::Digits }
    } else if i == TCP_SEQ {
        Rule { field: Field::TcpSeq, lead: Lead::Tag(" TCP_SEQ "), shape: Shape::Digits }
    } else if i == DATA_SEQ {
        Rule { field: Field::DataSeq, lead: Lead::Tag(" DATA_SEQ "), shape: Shape::Digits }
    } else if i == TLS {
        Rule { field: Field::Tls, lead: Lead::Tag(" TLS "), shape: Shape::Loose }
    } else if i == SYSCALL_TIME {
        Rule {
            field: Field::SyscallTime,
            lead: Lead::Tag(" SyscallTime "),
            shape: Shape::Until(" SyscallMonoTime"),
        }
    } else {
        Rule {
            field: Field::CapTime,
            lead: Lead::Seek(" CapTime", " CapTime "),
            shape: Shape::Until(" CapMonoTime"),
        }
    }
}

/// Skips a lead at `pos` and returns the position behind it.
pub fn match_lead(line: &[u8], pos: usize, lead: Lead) -> (r: Option<usize>)
    ensures
        match r {
            Some(p) => lead_end(line@, pos as int, lead) == Some(p as int) && (pos <= line.len()
                ==> p <= line.len()),
            None => lead_end(line@, pos as int, lead) is None,
        },
{
    let n: usize = line.len();
    match lead {
        Lead::Nothing => Some(pos),
        Lead::Blanks => {
            let e: usize = scan_run(line, pos, ByteClass::Blank);
            if e > pos {
                Some(e)
            } else {
                None
            }
        },
        Lead::Tag(tag) => {
            let bytes: &[u8] = tag.as_bytes();
            if matches_at(line, pos, bytes) {
                Some(pos + bytes.len())
            } else {
                None
            }
        },
        Lead::Seek(mark, tag) => match find(line, pos, mark.as_bytes()) {
            Some(p) => {
                let bytes: &[u8] = tag.as_bytes();
                if matches_at(line, p, bytes) {
                    Some(p + bytes.len())
                } else {
                    None
                }
            },
            None => None,
        },
    }
}

/// Takes the token of a shape at `pos`. Returns where the token lies and
/// the position behind what the shape took.
pub fn match_shape(line: &[u8], pos: usize, shape: Shape) -> (r: Option<(Span, usize)>)
    ensures
        match r {
            Some((span, next)) => shape_match(line@, pos as int, shape) == Some(
                Matched { text: token(line@, span), next: next as int },
            ) && span.start <= span.end <= line.len() && next <= line.len(),
            None => shape_match(line@, pos as int, shape) is None,
        },
{
    let n: usize = line.len();
    if pos > n {
        proof {
            if let Shape::Until(stop) = shape {
                assert(find_from(line@, pos as int, stop.spec_bytes()) is None);
            }
        }
        return None;
    }
    match shape {
        Shape::Word => {
            let e: usize = scan_run(line, pos, ByteClass::Except(SPACE));
            if e > pos {
                Some((Span { start: pos, end: e }, e))
            } else {
                None
            }
        },
        Shape::Loose => {
            let e: usize = scan_run(line, pos, ByteClass::Except(SPACE));
            Some((Span { start: pos, end: e }, e))
        },
        Shape::Padded => {
            let e: usize = scan_run(line, pos, ByteClass::Except(SPACE));
            let b: usize = scan_run(line, e, ByteClass::Blank);
            if e > pos && b > e {
                Some((Span { start: pos, end: e }, b))
            } else {
                None
            }
        },
        Shape::Bracketed => {
            if pos >= n || line[pos] != LESS {
                return None;
            }
            let e: usize = scan_run(line, pos + 1, ByteClass::Except(GREATER));
            if e > pos + 1 && e < n && line[e] == GREATER {
                Some((Span { start: pos + 1, end: e }, e + 1))
            } else {
                None
            }
        },
        Shape::Coded => {
            let e: usize = scan_run(line, pos, ByteClass::Except(OPEN));
            if e <= pos || e >= n || line[e] != OPEN {
                return None;
            }
            let d: usize = scan_run(line, e + 1, ByteClass::Digit);
            if d > e + 1 && d < n && line[d] == CLOSE {
                Some((Span { start: e + 1, end: d }, d + 1))
            } else {
                None
            }
        },
        Shape::Digits => {
            let e: usize = scan_run(line, pos, ByteClass::Digit);
            if e > pos {
                Some((Span { start: pos, end: e }, e))
            } else {
                None
            }
        },
        Shape::Until(stop) => match find(line, pos, stop.as_bytes()) {
            Some(p) => {
                proof {
                    lemma_find_from(line@, pos as int, stop.spec_bytes());
                }
                Some((Span { start: pos, end: p }, p))
            },
            None => None,
        },
    }
}

/// Takes the token of a rule at `pos`.
pub fn match_rule(line: &[u8], pos: usize, rule: Rule) -> (r: Option<(Span, usize)>)
    ensures
        match r {
            Some((span, next)) => rule_match(line@, pos as int, rule) == Some(
                Matched { text: token(line@, span), next: next as int },
            ) && span.start <= span.end <= line.len() && next <= line.len(),
            None => rule_match(line@, pos as int, rule) is None,
        },
{
    match match_lead(line, pos, rule.lead) {
        Some(p) => match_shape(line, p, rule.shape),
        None => None,
    }
}

/// Takes the tokens of a header line and returns where each lies.
pub fn scan_tokens(line: &[u8]) -> (spans: Vec<Span>)
    ensures
        located(line@, spans@),
        spans.len() <= RULE_COUNT,
{
    let mut spans: Vec<Span> = Vec::new();
    let mut pos: usize = 0;
    let mut i: usize = 0;
    let ghost mut done: Seq<Seq<u8>> = Seq::empty();
    proof {
        assert(done + tokens_from(line@, 0, 0) =~= tokens_from(line@, 0, 0));
    }
    while i < RULE_COUNT
        invariant
            i <= RULE_COUNT,
            pos <= line.len(),
            spans.len() == i,
            done.len() == i,
            header_tokens(line@) == done + tokens_from(line@, pos as int, i as int),
            forall|j: int|
                0 <= j < i ==> (#[trigger] spans[j]).start <= spans[j].end <= line.len() && token(
                    line@,
                    spans[j],
                ) == done[j],
        decreases RULE_COUNT - i,
    {
        match match_rule(line, pos, rule_at(i)) {
            None => {
                proof {
                    assert(done + Seq::<Seq<u8>>::empty() =~= done);
                }
                return spans;
            },
            Some((span, next)) => {
                proof {
                    let text = token(line@, span);
                    assert((done + seq![text]) + tokens_from(line@, next as int, i + 1) =~= done
                        + (seq![text] + tokens_from(line@, next as int, i + 1)));
                    assert(done + seq![text] =~= done.push(text));
                    done = done.push(text);
                }
                spans.push(span);
                pos = next;
            },
        }
        i += 1;
    }
    proof {
        assert(done + Seq::<Seq<u8>>::empty() =~= done);
    }
    spans
}

} // verus!
