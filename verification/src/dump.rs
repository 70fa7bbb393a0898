//! A dump of socket traces: records of two lines each, a header and a
//! payload, read one after the other from the content of a file.

use vstd::prelude::*;
use vstd::string::StringSliceAdditionalSpecFns;
use crate::event::{Fault, Field, ParseError, SocketEvent, SocketEventView};
use crate::header::{header_outcome, parse_header};
use crate::payload::{decode_payload, payload_bytes};
use crate::protocol::{ProtocolNameView, ProtocolTable};
use crate::text::{
    in_class, lemma_run_end, lemma_run_end_is, run_end, same_text, scan_run, slice_of, ByteClass,
    Span,
};

verus! {

/// The byte that ends a line.
pub const NEWLINE: u8 = 0x0a;

/// A record that was not decoded, and the number of its first line.
#[derive(Clone, Copy, Debug, PartialEq, Eq)]
pub struct DumpError {
    pub line: usize,
    pub error: ParseError,
}

/// What a fixture holds.
#[derive(Clone, Debug, PartialEq, Eq)]
pub enum Fixture {
    /// A binary capture: its packets are replayed by the capture library.
    Capture,
    /// A dump of socket traces, decoded.
    Trace(Vec<SocketEvent>),
}

/// The model of a `Fixture`.
pub enum FixtureView {
    Capture,
    Trace(Seq<SocketEventView>),
}

/// Whether every event of a vector is well-formed.
pub open spec fn all_wf(events: Seq<SocketEvent>) -> bool {
    forall|i: int| 0 <= i < events.len() ==> (#[trigger] events[i])@.wf()
}

/// The events of a vector, each by its model.
pub open spec fn views(events: Seq<SocketEvent>) -> Seq<SocketEventView> {
    Seq::new(events.len(), |i: int| events[i]@)
}

impl View for Fixture {
    type V = FixtureView;

    open spec fn view(&self) -> FixtureView {
        match self {
            Fixture::Capture => FixtureView::Capture,
            Fixture::Trace(events) => FixtureView::Trace(views(events@)),
        }
    }
}

/// The position behind the line that starts at `pos`: behind its newline,
/// or at the end of the text where no newline follows.
pub open spec fn line_end(s: Seq<u8>, pos: int) -> int {
    let e = run_end(s, pos, ByteClass::Except(NEWLINE));
    if e < s.len() {
        e + 1
    } else {
        e
    }
}

/// Whether a record starts at `pos`: a first line, and a second line that
/// is not empty.
pub open spec fn has_record(s: Seq<u8>, pos: int) -> bool {
    0 <= pos && line_end(s, line_end(s, pos)) > line_end(s, pos)
}

/// The header of the record at `pos`: its first line without the newline.
pub open spec fn header_at(s: Seq<u8>, pos: int) -> Seq<u8> {
    s.subrange(pos, line_end(s, pos) - 1)
}

/// The payload line of the record at `pos`: its second line.
pub open spec fn payload_at(s: Seq<u8>, pos: int) -> Seq<u8> {
    s.subrange(line_end(s, pos), line_end(s, line_end(s, pos)))
}

/// The position behind the two lines at `pos`.
pub open spec fn record_end(s: Seq<u8>, pos: int) -> int {
    line_end(s, line_end(s, pos))
}

/// What decoding a record gives: the event of its header with the bytes
/// of its payload line, or the first fault of the header, or that of the
/// payload.
pub open spec fn record_outcome(
    header: Seq<u8>,
    payload: Seq<u8>,
    protocols: Seq<ProtocolNameView>,
) -> Result<SocketEventView, ParseError> {
    match header_outcome(header, protocols) {
        Err(e) => Err(e),
        Ok(event) => match payload_bytes(payload) {
            None => Err(ParseError { field: Field::Payload, fault: Fault::Value }),
            Some(bytes) => Ok(SocketEventView { cap_data: bytes, ..event }),
        },
    }
}

/// The number of the first line of record `k`, counted from 0; lines are
/// counted from 1.
pub open spec fn first_line(k: nat) -> usize {
    (2 * k + 1) as usize
}

/// What loading the records from `pos` on gives, where `k` records stand
/// before them: the events in order, up to the end of the records, or the
/// first record that is not decoded.
pub open spec fn events_from(
    s: Seq<u8>,
    pos: int,
    k: nat,
    protocols: Seq<ProtocolNameView>,
) -> Result<Seq<SocketEventView>, DumpError>
    decreases s.len() - pos,
    via events_from_decreases
{
    if !has_record(s, pos) || pos > s.len() {
        Ok(Seq::empty())
    } else {
        match record_outcome(header_at(s, pos), payload_at(s, pos), protocols) {
            Err(e) => Err(DumpError { line: first_line(k), error: e }),
            Ok(event) => match events_from(s, record_end(s, pos), k + 1, protocols) {
                Err(e) => Err(e),
                Ok(rest) => Ok(seq![event] + rest),
            },
        }
    }
}

/// Where reading the records from `pos` on stops, and how many records
/// have been read by then, where `k` stand before `pos`: behind the first
/// record that is not decoded, or behind the last line.
pub open spec fn read_from(s: Seq<u8>, pos: int, k: nat, protocols: Seq<ProtocolNameView>) -> (
    int,
    nat,
)
    decreases s.len() - pos,
    via read_from_decreases
{
    if !has_record(s, pos) || pos > s.len() {
        (record_end(s, pos), k)
    } else {
        match record_outcome(header_at(s, pos), payload_at(s, pos), protocols) {
            Err(_) => (record_end(s, pos), k + 1),
            Ok(_) => read_from(s, record_end(s, pos), k + 1, protocols),
        }
    }
}

#[via_fn]
proof fn read_from_decreases(s: Seq<u8>, pos: int, k: nat, protocols: Seq<ProtocolNameView>) {
    if has_record(s, pos) && pos <= s.len() {
        lemma_record_bounds(s, pos);
    }
}

#[via_fn]
proof fn events_from_decreases(s: Seq<u8>, pos: int, k: nat, protocols: Seq<ProtocolNameView>) {
    if has_record(s, pos) && pos <= s.len() {
        lemma_record_bounds(s, pos);
    }
}

/// A record has at least two bytes, lies in the text, and its first line
/// ends with a newline.
pub proof fn lemma_record_bounds(s: Seq<u8>, pos: int)
    requires
        0 <= pos <= s.len(),
    ensures
        pos <= line_end(s, pos) <= record_end(s, pos) <= s.len(),
        has_record(s, pos) ==> pos < line_end(s, pos) < record_end(s, pos) && s[line_end(s, pos)
            - 1] == NEWLINE,
{
    lemma_run_end(s, pos, ByteClass::Except(NEWLINE));
    lemma_run_end(s, line_end(s, pos), ByteClass::Except(NEWLINE));
}

/// Decoding is deterministic: what two runs on the same two lines and the
/// same vocabulary give is the same.
pub proof fn lemma_decoding_deterministic(
    header: Seq<u8>,
    payload: Seq<u8>,
    protocols: Seq<ProtocolNameView>,
    first: Result<SocketEventView, ParseError>,
    second: Result<SocketEventView, ParseError>,
)
    requires
        first == record_outcome(header, payload, protocols),
        second == record_outcome(header, payload, protocols),
    ensures
        first == second,
{
}

/// Whether the text from `pos` on is made of whole records: pairs of
/// lines that both end with a newline.
pub open spec fn whole_records(s: Seq<u8>, pos: int) -> bool
    decreases s.len() - pos,
    via whole_records_decreases
{
    pos == s.len() || (0 <= pos < s.len() && has_record(s, pos) && s[record_end(s, pos) - 1]
        == NEWLINE && whole_records(s, record_end(s, pos)))
}

#[via_fn]
proof fn whole_records_decreases(s: Seq<u8>, pos: int) {
    if 0 <= pos < s.len() {
        lemma_record_bounds(s, pos);
    }
}

/// Whether `h` is one line: it holds no newline but, if any, at its end.
pub open spec fn single_line(h: Seq<u8>) -> bool {
    forall|i: int| 0 <= i < h.len() - 1 ==> h[i] != NEWLINE
}

/// A run that ends inside a text ends at the same place when more text
/// follows.
pub proof fn lemma_run_end_append(s: Seq<u8>, h: Seq<u8>, pos: int, class: ByteClass)
    requires
        0 <= pos <= s.len(),
        run_end(s, pos, class) < s.len(),
    ensures
        run_end(s + h, pos, class) == run_end(s, pos, class),
{
    lemma_run_end(s, pos, class);
    let e = run_end(s, pos, class);
    assert forall|i: int| pos <= i < e implies in_class(#[trigger] (s + h)[i], class) by {
        assert((s + h)[i] == s[i]);
    }
    assert((s + h)[e] == s[e]);
    lemma_run_end_is(s + h, pos, e, class);
}

/// A header that stands alone behind whole records is dropped: the dump
/// holds the same events with it as without it.
pub proof fn lemma_dangling_header_dropped(
    s: Seq<u8>,
    h: Seq<u8>,
    pos: int,
    k: nat,
    protocols: Seq<ProtocolNameView>,
)
    requires
        0 <= pos <= s.len(),
        whole_records(s, pos),
        single_line(h),
    ensures
        events_from(s + h, pos, k, protocols) == events_from(s, pos, k, protocols),
    decreases s.len() - pos,
{
    let t = s + h;
    if pos == s.len() {
        lemma_run_end(s, pos, ByteClass::Except(NEWLINE));
        lemma_run_end(t, pos, ByteClass::Except(NEWLINE));
        let e = run_end(t, pos, ByteClass::Except(NEWLINE));
        assert(line_end(t, pos) == t.len()) by {
            if e < t.len() {
                assert(t[e] == h[e - s.len()]);
                assert(e + 1 == t.len());
            }
        }
        lemma_run_end(t, t.len() as int, ByteClass::Except(NEWLINE));
        assert(!has_record(t, pos));
        assert(!has_record(s, pos));
    } else {
        lemma_record_bounds(s, pos);
        let e1 = line_end(s, pos);
        let e2 = record_end(s, pos);
        lemma_run_end(s, pos, ByteClass::Except(NEWLINE));
        lemma_run_end(s, e1, ByteClass::Except(NEWLINE));
        lemma_run_end_append(s, h, pos, ByteClass::Except(NEWLINE));
        assert(line_end(t, pos) == e1);
        assert(run_end(s, e1, ByteClass::Except(NEWLINE)) < s.len()) by {
            let r = run_end(s, e1, ByteClass::Except(NEWLINE));
            if r == s.len() {
                assert(e2 == s.len());
                assert(s[e2 - 1] == NEWLINE);
                assert(in_class(s[e2 - 1], ByteClass::Except(NEWLINE)));
            }
        }
        lemma_run_end_append(s, h, e1, ByteClass::Except(NEWLINE));
        assert(record_end(t, pos) == e2);
        assert(header_at(t, pos) =~= header_at(s, pos));
        assert(payload_at(t, pos) =~= payload_at(s, pos));
        lemma_dangling_header_dropped(s, h, e2, k + 1, protocols);
    }
}

/// The kind of a fixture file.
#[derive(Clone, Copy, Debug, PartialEq, Eq)]
pub enum FixtureKind {
    Capture,
    Trace,
}

/// The kind that the extension of a file name gives: `pcap` a capture,
/// `log` a dump of traces, anything else and no extension none.
pub open spec fn kind_of(extension: Option<Seq<u8>>) -> Option<FixtureKind> {
    match extension {
        None => None,
        Some(e) => if e == "pcap".spec_bytes() {
            Some(FixtureKind::Capture)
        } else if e == "log".spec_bytes() {
            Some(FixtureKind::Trace)
        } else {
            None
        },
    }
}

/// The extension of a file name, by its bytes.
pub open spec fn extension_view(extension: Option<&[u8]>) -> Option<Seq<u8>> {
    match extension {
        Some(e) => Some(e@),
        None => None,
    }
}

/// What loading a fixture of a kind gives: for a capture the kind alone,
/// for a dump of traces its events in order, or the first record that is
/// not decoded.
pub open spec fn load_outcome(
    kind: FixtureKind,
    content: Seq<u8>,
    protocols: Seq<ProtocolNameView>,
) -> Result<FixtureView, DumpError> {
    match kind {
        FixtureKind::Capture => Ok(FixtureView::Capture),
        FixtureKind::Trace => match events_from(content, 0, 0, protocols) {
            Ok(events) => Ok(FixtureView::Trace(events)),
            Err(e) => Err(e),
        },
    }
}

/// Tells the kind of a fixture by the extension of its file name.
pub fn fixture_kind(extension: Option<&[u8]>) -> (r: Option<FixtureKind>)
    ensures
        r == kind_of(extension_view(extension)),
{
    match extension {
        None => None,
        Some(e) => if same_text(e, "pcap".as_bytes()) {
            Some(FixtureKind::Capture)
        } else if same_text(e, "log".as_bytes()) {
            Some(FixtureKind::Trace)
        } else {
            None
        },
    }
}

/// Finds the end of the line that starts at `pos`.
pub fn scan_line(content: &[u8], pos: usize) -> (end: usize)
    ensures
        end == line_end(content@, pos as int),
        pos <= content.len() ==> pos <= end <= content.len(),
{
    let e: usize = scan_run(content, pos, ByteClass::Except(NEWLINE));
    if e < content.len() {
        e + 1
    } else {
        e
    }
}

/// Decodes one record from its two lines.
pub fn decode_record(header: &[u8], payload: &[u8], protocols: &ProtocolTable) -> (r: Result<
    SocketEvent,
    ParseError,
>)
    ensures
        match r {
            Ok(event) => record_outcome(header@, payload@, protocols@) == Ok::<
                SocketEventView,
                ParseError,
            >(event@) && event@.wf(),
            Err(e) => record_outcome(header@, payload@, protocols@) == Err::<
                SocketEventView,
                ParseError,
            >(e),
        },
{
    match parse_header(header, protocols) {
        Err(e) => Err(e),
        Ok(event) => match decode_payload(payload) {
            None => Err(ParseError { field: Field::Payload, fault: Fault::Value }),
            Some(bytes) => {
                let mut event = event;
                event.cap_data = bytes;
                Ok(event)
            },
        },
    }
}

/// A reader of a dump of socket traces.
pub struct EbpfDataDump {
    content: Vec<u8>,
    pos: usize,
    records: usize,
}

impl EbpfDataDump {
    #[verifier::type_invariant]
    spec fn inv(self) -> bool {
        self.pos <= self.content@.len() && 2 * self.records <= self.pos
    }

    /// The content of the dump.
    pub closed spec fn content(&self) -> Seq<u8> {
        self.content@
    }

    /// The position up to which the dump has been read.
    pub closed spec fn position(&self) -> int {
        self.pos as int
    }

    /// The number of records that have been read.
    pub closed spec fn records(&self) -> nat {
        self.records as nat
    }

    /// Opens a dump on the content of a file, before its first line.
    pub fn open(content: Vec<u8>) -> (r: EbpfDataDump)
        ensures
            r.content() == content@,
            r.position() == 0,
            r.records() == 0,
    {
        EbpfDataDump { content, pos: 0, records: 0 }
    }

    /// The number of the line at which the reader stands, counted from 1.
    pub fn lineno(&self) -> (r: usize)
        ensures
            r == first_line(self.records()),
            r == 2 * self.records() + 1,
    {
        proof {
            use_type_invariant(self);
        }
        2 * self.records + 1
    }

    /// The bytes of the dump that `span` covers.
    pub fn line(&self, span: Span) -> (r: &[u8])
        requires
            span.start <= span.end <= self.content().len(),
        ensures
            r@ == self.content().subrange(span.start as int, span.end as int),
    {
        slice_of(self.content.as_slice(), span)
    }

    /// Reads two lines and returns where the header, without its newline,
    /// and the payload line lie. There is no record where the second line
    /// is empty: at the end of the dump, and where a header stands alone
    /// at the end, which is then dropped.
    pub fn next_record(&mut self) -> (r: Option<(Span, Span)>)
        ensures
            final(self).content() == old(self).content(),
            final(self).position() == record_end(old(self).content(), old(self).position()),
            r is Some <==> has_record(old(self).content(), old(self).position()),
            final(self).records() == old(self).records() + (if r is Some {
                1nat
            } else {
                0nat
            }),
            r matches Some((header, payload)) ==> {
                &&& header.start <= header.end <= payload.start <= payload.end
                    <= old(self).content().len()
                &&& old(self).content().subrange(header.start as int, header.end as int)
                    == header_at(old(self).content(), old(self).position())
                &&& old(self).content().subrange(payload.start as int, payload.end as int)
                    == payload_at(old(self).content(), old(self).position())
            },
    {
        proof {
            use_type_invariant(&*self);
            lemma_record_bounds(self.content@, self.pos as int);
        }
        let start: usize = self.pos;
        let first: usize = scan_line(self.content.as_slice(), start);
        let second: usize = scan_line(self.content.as_slice(), first);
        self.pos = second;
        if second == first {
            return None;
        }
        self.records = self.records + 1;
        Some((Span { start, end: first - 1 }, Span { start: first, end: second }))
    }

    /// Reads the next record and decodes it. At the end of the dump there
    /// is none. A record that does not follow the format is reported with
    /// the number of its first line, and the reader goes on behind it.
    pub fn parse_next(&mut self, protocols: &ProtocolTable) -> (r: Result<
        Option<SocketEvent>,
        DumpError,
    >)
        ensures
            final(self).content() == old(self).content(),
            final(self).position() == record_end(old(self).content(), old(self).position()),
            match r {
                Ok(None) => !has_record(old(self).content(), old(self).position())
                    && final(self).records() == old(self).records(),
                Ok(Some(event)) => {
                    &&& has_record(old(self).content(), old(self).position())
                    &&& final(self).records() == old(self).records() + 1
                    &&& event@.wf()
                    &&& record_outcome(
                        header_at(old(self).content(), old(self).position()),
                        payload_at(old(self).content(), old(self).position()),
                        protocols@,
                    ) == Ok::<SocketEventView, ParseError>(event@)
                },
                Err(e) => {
                    &&& has_record(old(self).content(), old(self).position())
                    &&& final(self).records() == old(self).records() + 1
                    &&& e.line == first_line(old(self).records())
                    &&& record_outcome(
                        header_at(old(self).content(), old(self).position()),
                        payload_at(old(self).content(), old(self).position()),
                        protocols@,
                    ) == Err::<SocketEventView, ParseError>(e.error)
                },
            },
    {
        let line: usize = self.lineno();
        match self.next_record() {
            None => Ok(None),
            Some((header, payload)) => {
                match decode_record(self.line(header), self.line(payload), protocols) {
                    Ok(event) => Ok(Some(event)),
                    Err(error) => Err(DumpError { line, error }),
                }
            },
        }
    }

    /// The next event of the dump, or the error of the next record; nothing
    /// at the end of the dump.
    pub fn next(&mut self, protocols: &ProtocolTable) -> (r: Option<Result<SocketEvent, DumpError>>)
        ensures
            final(self).content() == old(self).content(),
            final(self).position() == record_end(old(self).content(), old(self).position()),
            r is Some <==> has_record(old(self).content(), old(self).position()),
            final(self).records() == old(self).records() + (if r is Some {
                1nat
            } else {
                0nat
            }),
            r matches Some(Ok(event)) ==> event@.wf() && record_outcome(
                header_at(old(self).content(), old(self).position()),
                payload_at(old(self).content(), old(self).position()),
                protocols@,
            ) == Ok::<SocketEventView, ParseError>(event@),
            r matches Some(Err(e)) ==> e.line == first_line(old(self).records())
                && record_outcome(
                header_at(old(self).content(), old(self).position()),
                payload_at(old(self).content(), old(self).position()),
                protocols@,
            ) == Err::<SocketEventView, ParseError>(e.error),
    {
        match self.parse_next(protocols) {
            Ok(None) => None,
            Ok(Some(event)) => Some(Ok(event)),
            Err(e) => Some(Err(e)),
        }
    }

    /// Reads the rest of the dump: all its events in order, or the first
    /// record that is not decoded. The reader then stands behind the last
    /// line, or behind the record that it reports.
    pub fn read_all(&mut self, protocols: &ProtocolTable) -> (r: Result<Vec<SocketEvent>, DumpError>)
        ensures
            final(self).content() == old(self).content(),
            (final(self).position(), final(self).records()) == read_from(
                old(self).content(),
                old(self).position(),
                old(self).records(),
                protocols@,
            ),
            match r {
                Ok(events) => all_wf(events@) && events_from(
                    old(self).content(),
                    old(self).position(),
                    old(self).records(),
                    protocols@,
                ) == Ok::<Seq<SocketEventView>, DumpError>(views(events@)),
                Err(e) => events_from(
                    old(self).content(),
                    old(self).position(),
                    old(self).records(),
                    protocols@,
                ) == Err::<Seq<SocketEventView>, DumpError>(e),
            },
    {
        let mut events: Vec<SocketEvent> = Vec::new();
        let ghost whole = events_from(
            self.content(),
            self.position(),
            self.records(),
            protocols@,
        );
        proof {
            assert(views(events@) =~= Seq::<SocketEventView>::empty());
            lemma_prepend_nothing(whole);
            use_type_invariant(&*self);
        }
        loop
            invariant
                self.content() == old(self).content(),
                whole == events_from(
                    old(self).content(),
                    old(self).position(),
                    old(self).records(),
                    protocols@,
                ),
                whole == prepended(
                    views(events@),
                    events_from(self.content(), self.position(), self.records(), protocols@),
                ),
                read_from(
                    old(self).content(),
                    old(self).position(),
                    old(self).records(),
                    protocols@,
                ) == read_from(self.content(), self.position(), self.records(), protocols@),
                all_wf(events@),
                0 <= self.position() <= self.content().len(),
            decreases self.content().len() - self.position(),
        {
            let ghost s = self.content();
            let ghost pos = self.position();
            let ghost k = self.records();
            proof {
                lemma_record_bounds(s, pos);
                lemma_events_step(s, pos, k, protocols@);
            }
            match self.parse_next(protocols) {
                Ok(None) => {
                    proof {
                        assert(views(events@) + Seq::<SocketEventView>::empty() =~= views(events@));
                    }
                    return Ok(events);
                },
                Err(e) => {
                    return Err(e);
                },
                Ok(Some(event)) => {
                    proof {
                        lemma_prepended_assoc(
                            views(events@),
                            event@,
                            events_from(s, record_end(s, pos), k + 1, protocols@),
                        );
                        assert(views(events@.push(event)) =~= views(events@) + seq![event@]);
                        use_type_invariant(&*self);
                    }
                    events.push(event);
                },
            }
        }
    }
}

/// Loading goes record by record.
pub proof fn lemma_events_step(s: Seq<u8>, pos: int, k: nat, protocols: Seq<ProtocolNameView>)
    requires
        0 <= pos <= s.len(),
    ensures
        events_from(s, pos, k, protocols) == (if !has_record(s, pos) {
            Ok::<Seq<SocketEventView>, DumpError>(Seq::empty())
        } else {
            match record_outcome(header_at(s, pos), payload_at(s, pos), protocols) {
                Err(e) => Err(DumpError { line: first_line(k), error: e }),
                Ok(event) => prepended(
                    seq![event],
                    events_from(s, record_end(s, pos), k + 1, protocols),
                ),
            }
        }),
{
}

/// `rest` with `done` in front of it, if `rest` holds events.
pub open spec fn prepended(
    done: Seq<SocketEventView>,
    rest: Result<Seq<SocketEventView>, DumpError>,
) -> Result<Seq<SocketEventView>, DumpError> {
    match rest {
        Ok(events) => Ok(done + events),
        Err(e) => Err(e),
    }
}

/// Nothing in front changes nothing.
proof fn lemma_prepend_nothing(rest: Result<Seq<SocketEventView>, DumpError>)
    ensures
        prepended(Seq::empty(), rest) == rest,
{
    if let Ok(events) = rest {
        assert(Seq::<SocketEventView>::empty() + events =~= events);
    }
}

/// Putting events in front one by one or at once is the same.
proof fn lemma_prepended_assoc(
    done: Seq<SocketEventView>,
    event: SocketEventView,
    rest: Result<Seq<SocketEventView>, DumpError>,
)
    ensures
        prepended(done, prepended(seq![event], rest)) == prepended(done + seq![event], rest),
{
    if let Ok(events) = rest {
        assert(done + (seq![event] + events) =~= (done + seq![event]) + events);
    }
}

/// Loads a fixture from the content of its file. The extension of the
/// file name tells the format, and has to name one: whether it does,
/// `fixture_kind` tells. A binary capture is left to the capture library:
/// the answer names the kind and holds no packets. A dump of traces is
/// decoded record by record to its end.
pub fn load_packets(extension: Option<&[u8]>, content: Vec<u8>, protocols: &ProtocolTable) -> (r:
    Result<Fixture, DumpError>)
    requires
        kind_of(extension_view(extension)) is Some,
    ensures
        r matches Ok(Fixture::Trace(events)) ==> all_wf(events@),
        match r {
            Ok(fixture) => load_outcome(
                kind_of(extension_view(extension)).unwrap(),
                content@,
                protocols@,
            ) == Ok::<FixtureView, DumpError>(fixture@),
            Err(e) => load_outcome(
                kind_of(extension_view(extension)).unwrap(),
                content@,
                protocols@,
            ) == Err::<FixtureView, DumpError>(e),
        },
{
    if let Some(FixtureKind::Capture) = fixture_kind(extension) {
        Ok(Fixture::Capture)
    } else {
        let mut dump = EbpfDataDump::open(content);
        match dump.read_all(protocols) {
            Ok(events) => Ok(Fixture::Trace(events)),
            Err(e) => Err(e),
        }
    }
}

} // verus!
