//! The payload line of a record: the captured bytes, written as
//! hexadecimal tokens with blanks between them.

use vstd::prelude::*;
use crate::text::{
    joined, lemma_joined_assoc, lemma_run_end, radix_value, read_number, run_end, scan_run,
    ByteClass,
};

verus! {

/// The bytes that the tokens of `s` from `pos` on write. A token is a
/// longest run of hexadecimal digits, after any blanks, and writes one
/// byte; the list ends before the first thing that is no such token.
/// There are no bytes at all if a token writes a number above 255.
pub open spec fn payload_from(s: Seq<u8>, pos: int) -> Option<Seq<u8>>
    decreases s.len() - pos + 1,
    via payload_from_decreases
{
    let start = run_end(s, pos, ByteClass::Blank);
    let end = run_end(s, start, ByteClass::Hex);
    if pos < 0 || pos > s.len() || end == start {
        Some(Seq::empty())
    } else if radix_value(s.subrange(start, end), 16) > 255 {
        None
    } else {
        joined(Some(seq![radix_value(s.subrange(start, end), 16) as u8]), payload_from(s, end))
    }
}

#[via_fn]
proof fn payload_from_decreases(s: Seq<u8>, pos: int) {
    if 0 <= pos <= s.len() {
        lemma_run_end(s, pos, ByteClass::Blank);
        lemma_run_end(s, run_end(s, pos, ByteClass::Blank), ByteClass::Hex);
    }
}

/// The bytes that a payload line writes.
pub open spec fn payload_bytes(s: Seq<u8>) -> Option<Seq<u8>> {
    payload_from(s, 0)
}

/// An empty payload line writes no bytes.
pub proof fn lemma_empty_payload()
    ensures
        payload_bytes(Seq::empty()) == Some(Seq::<u8>::empty()),
{
}

/// Decodes a payload line. An empty line decodes to no bytes. There is no
/// result if a token is too large for one byte.
pub fn decode_payload(line: &[u8]) -> (r: Option<Vec<u8>>)
    ensures
        match r {
            Some(v) => payload_bytes(line@) == Some(v@),
            None => payload_bytes(line@) is None,
        },
{
    let mut out: Vec<u8> = Vec::new();
    let mut pos: usize = 0;
    assert(Seq::<u8>::empty() + Seq::<u8>::empty() =~= Seq::<u8>::empty());
    loop
        invariant
            pos <= line.len(),
            payload_bytes(line@) == joined(Some(out@), payload_from(line@, pos as int)),
        decreases line.len() - pos,
    {
        let start: usize = scan_run(line, pos, ByteClass::Blank);
        let end: usize = scan_run(line, start, ByteClass::Hex);
        if end == start {
            assert(out@ + Seq::<u8>::empty() =~= out@);
            return Some(out);
        }
        match read_number(&line[start..end], 16, 255) {
            None => {
                return None;
            },
            Some(v) => {
                proof {
                    lemma_joined_assoc(
                        out@,
                        Some(seq![v as u8]),
                        payload_from(line@, end as int),
                    );
                    assert(out@.push(v as u8) =~= out@ + seq![v as u8]);
                }
                out.push(v as u8);
            },
        }
        pos = end;
    }
}

} // verus!
