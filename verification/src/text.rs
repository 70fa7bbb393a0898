//! Scanning primitives on byte text: runs of a byte class, literal matches,
//! substring search and positional numbers.

use vstd::prelude::*;

verus! {

/// A class of bytes by which a run of text is delimited.
#[derive(Clone, Copy, Debug, PartialEq, Eq)]
pub enum ByteClass {
    /// Every byte but the given one.
    Except(u8),
    /// A space or a horizontal tab.
    Blank,
    /// An ASCII decimal digit.
    Digit,
    /// An ASCII hexadecimal digit, in either case.
    Hex,
}

/// A half-open range of positions in a line: the bytes of one token.
#[derive(Clone, Copy, Debug, PartialEq, Eq)]
pub struct Span {
    pub start: usize,
    pub end: usize,
}

/// Whether a byte is of a class.
pub open spec fn in_class(b: u8, class: ByteClass) -> bool {
    match class {
        ByteClass::Except(x) => b != x,
        ByteClass::Blank => b == 0x20 || b == 0x09,
        ByteClass::Digit => 0x30 <= b <= 0x39,
        ByteClass::Hex => (0x30 <= b <= 0x39) || (0x41 <= b <= 0x46) || (0x61 <= b <= 0x66),
    }
}

/// The end of the longest run of bytes of `class` that starts at `pos`.
pub open spec fn run_end(s: Seq<u8>, pos: int, class: ByteClass) -> int
    decreases s.len() - pos,
{
    if 0 <= pos < s.len() && in_class(s[pos], class) {
        run_end(s, pos + 1, class)
    } else {
        pos
    }
}

/// Whether `pat` stands in `s` at position `pos`.
pub open spec fn occurs_at(s: Seq<u8>, pos: int, pat: Seq<u8>) -> bool {
    &&& 0 <= pos
    &&& pos + pat.len() <= s.len()
    &&& s.subrange(pos, pos + pat.len()) == pat
}

/// The first position at or after `pos` where `pat` stands in `s`.
pub open spec fn find_from(s: Seq<u8>, pos: int, pat: Seq<u8>) -> Option<int>
    decreases s.len() - pos + 1,
{
    if pos < 0 || pos + pat.len() > s.len() {
        None
    } else if occurs_at(s, pos, pat) {
        Some(pos)
    } else {
        find_from(s, pos + 1, pat)
    }
}

/// The number that one digit stands for; 0 for a byte that is no digit.
pub open spec fn digit_value(b: u8) -> nat {
    if 0x30 <= b <= 0x39 {
        (b - 0x30) as nat
    } else if 0x41 <= b <= 0x46 {
        (b - 0x41 + 10) as nat
    } else if 0x61 <= b <= 0x66 {
        (b - 0x61 + 10) as nat
    } else {
        0
    }
}

/// The number that the digits of `t` write in the given radix, most
/// significant digit first.
pub open spec fn radix_value(t: Seq<u8>, radix: nat) -> nat
    decreases t.len(),
{
    if t.len() == 0 {
        0
    } else {
        radix_value(t.drop_last(), radix) * radix + digit_value(t.last())
    }
}

/// Whether every byte of `t` is of `class`.
pub open spec fn all_in_class(t: Seq<u8>, class: ByteClass) -> bool {
    forall|i: int| 0 <= i < t.len() ==> in_class(#[trigger] t[i], class)
}

/// The bytes of `s` that `span` covers.
pub open spec fn token(s: Seq<u8>, span: Span) -> Seq<u8> {
    s.subrange(span.start as int, span.end as int)
}

/// `rest` with `first` in front of it, if both are there.
pub open spec fn joined(first: Option<Seq<u8>>, rest: Option<Seq<u8>>) -> Option<Seq<u8>> {
    match (first, rest) {
        (Some(a), Some(b)) => Some(a + b),
        _ => None,
    }
}

/// A run ends inside the text, holds only bytes of its class, and cannot be
/// extended.
pub proof fn lemma_run_end(s: Seq<u8>, pos: int, class: ByteClass)
    requires
        0 <= pos <= s.len(),
    ensures
        pos <= run_end(s, pos, class) <= s.len(),
        forall|i: int| pos <= i < run_end(s, pos, class) ==> in_class(#[trigger] s[i], class),
        run_end(s, pos, class) < s.len() ==> !in_class(s[run_end(s, pos, class)], class),
    decreases s.len() - pos,
{
    if pos < s.len() && in_class(s[pos], class) {
        lemma_run_end(s, pos + 1, class);
    }
}

/// A position that bounds a stretch of bytes of one class, with a byte of
/// another class or the end of the text behind it, is the end of the run.
pub proof fn lemma_run_end_is(s: Seq<u8>, pos: int, end: int, class: ByteClass)
    requires
        0 <= pos <= end <= s.len(),
        forall|i: int| pos <= i < end ==> in_class(#[trigger] s[i], class),
        end < s.len() ==> !in_class(s[end], class),
    ensures
        run_end(s, pos, class) == end,
    decreases end - pos,
{
    if pos < end {
        lemma_run_end_is(s, pos + 1, end, class);
    }
}

/// What `find_from` finds is the first occurrence, and it finds one if
/// there is any.
pub proof fn lemma_find_from(s: Seq<u8>, pos: int, pat: Seq<u8>)
    requires
        0 <= pos,
    ensures
        match find_from(s, pos, pat) {
            Some(p) => pos <= p && occurs_at(s, p, pat) && forall|q: int|
                pos <= q < p ==> !occurs_at(s, q, pat),
            None => forall|q: int| pos <= q ==> !occurs_at(s, q, pat),
        },
    decreases s.len() - pos + 1,
{
    if pos + pat.len() <= s.len() && !occurs_at(s, pos, pat) {
        lemma_find_from(s, pos + 1, pat);
    }
}

/// A number does not shrink when digits are appended to it.
pub proof fn lemma_radix_value_prefix(t: Seq<u8>, k: int, radix: nat)
    requires
        0 <= k <= t.len(),
        radix >= 1,
    ensures
        radix_value(t.take(k), radix) <= radix_value(t, radix),
    decreases t.len() - k,
{
    if k == t.len() {
        assert(t.take(k) == t);
    } else {
        lemma_radix_value_prefix(t, k + 1, radix);
        let u = t.take(k + 1);
        assert(u.drop_last() == t.take(k));
        let v = radix_value(t.take(k), radix);
        assert(v <= v * radix) by (nonlinear_arith)
            requires
                radix >= 1,
                v >= 0,
        ;
    }
}

/// Joining is associative.
pub proof fn lemma_joined_assoc(a: Seq<u8>, g: Option<Seq<u8>>, rest: Option<Seq<u8>>)
    ensures
        joined(Some(a), joined(g, rest)) == joined(joined(Some(a), g), rest),
{
    if g is Some && rest is Some {
        assert(a + (g.unwrap() + rest.unwrap()) =~= (a + g.unwrap()) + rest.unwrap());
    }
}

/// Tells whether a byte is of a class.
pub fn is_in_class(b: u8, class: ByteClass) -> (r: bool)
    ensures
        r == in_class(b, class),
{
    match class {
        ByteClass::Except(x) => b != x,
        ByteClass::Blank => b == 0x20 || b == 0x09,
        ByteClass::Digit => 0x30 <= b && b <= 0x39,
        ByteClass::Hex => (0x30 <= b && b <= 0x39) || (0x41 <= b && b <= 0x46) || (0x61 <= b
            && b <= 0x66),
    }
}

/// Scans the longest run of bytes of `class` from `pos` and returns its end.
pub fn scan_run(line: &[u8], pos: usize, class: ByteClass) -> (end: usize)
    ensures
        end == run_end(line@, pos as int, class),
        pos <= line.len() ==> pos <= end <= line.len(),
{
    if pos > line.len() {
        return pos;
    }
    let mut i: usize = pos;
    while i < line.len() && is_in_class(line[i], class)
        invariant
            pos <= i <= line.len(),
            run_end(line@, pos as int, class) == run_end(line@, i as int, class),
        decreases line.len() - i,
    {
        i += 1;
    }
    i
}

/// Tells whether `pat` stands in `line` at `pos`.
pub fn matches_at(line: &[u8], pos: usize, pat: &[u8]) -> (r: bool)
    ensures
        r == occurs_at(line@, pos as int, pat@),
{
    if pos > line.len() || pat.len() > line.len() - pos {
        return false;
    }
    let mut i: usize = 0;
    while i < pat.len()
        invariant
            i <= pat.len(),
            pos + pat.len() <= line.len(),
            forall|j: int| 0 <= j < i ==> line@[pos + j] == pat@[j],
        decreases pat.len() - i,
    {
        if line[pos + i] != pat[i] {
            assert(line@.subrange(pos as int, pos + pat.len())[i as int] != pat@[i as int]);
            return false;
        }
        i += 1;
    }
    assert(line@.subrange(pos as int, pos + pat.len()) =~= pat@);
    true
}

/// Searches `line` from `pos` on for the first place where `pat` stands.
pub fn find(line: &[u8], pos: usize, pat: &[u8]) -> (r: Option<usize>)
    ensures
        match r {
            Some(p) => find_from(line@, pos as int, pat@) == Some(p as int),
            None => find_from(line@, pos as int, pat@) is None,
        },
{
    if pos > line.len() || pat.len() > line.len() - pos {
        return None;
    }
    let last: usize = line.len() - pat.len();
    let mut p: usize = pos;
    loop
        invariant
            pos <= p <= last,
            last == line.len() - pat.len(),
            find_from(line@, pos as int, pat@) == find_from(line@, p as int, pat@),
        decreases last - p,
    {
        if matches_at(line, p, pat) {
            return Some(p);
        }
        if p == last {
            assert(find_from(line@, p + 1, pat@) is None);
            return None;
        }
        p += 1;
    }
}

/// Tells whether two texts are equal, byte for byte.
pub fn same_text(a: &[u8], b: &[u8]) -> (r: bool)
    ensures
        r == (a@ == b@),
{
    if a.len() != b.len() {
        return false;
    }
    let r = matches_at(a, 0, b);
    assert(a@.subrange(0, b@.len() as int) =~= a@);
    r
}

/// The bytes of `line` that `span` covers.
pub fn slice_of(line: &[u8], span: Span) -> (r: &[u8])
    requires
        span.start <= span.end <= line.len(),
    ensures
        r@ == token(line@, span),
{
    &line[span.start..span.end]
}

/// Tells whether every byte of `t` is of `class`.
pub fn all_of(t: &[u8], class: ByteClass) -> (r: bool)
    ensures
        r == all_in_class(t@, class),
{
    let mut i: usize = 0;
    while i < t.len()
        invariant
            i <= t.len(),
            forall|j: int| 0 <= j < i ==> in_class(#[trigger] t@[j], class),
        decreases t.len() - i,
    {
        if !is_in_class(t[i], class) {
            return false;
        }
        i += 1;
    }
    true
}

/// Reads `t` as a number in the given radix, if that number is at most
/// `max`.
pub fn read_number(t: &[u8], radix: u64, max: u64) -> (r: Option<u64>)
    requires
        1 <= radix <= 16,
    ensures
        r == (if radix_value(t@, radix as nat) <= max {
            Some(radix_value(t@, radix as nat) as u64)
        } else {
            None
        }),
{
    let mut acc: u64 = 0;
    let mut i: usize = 0;
    while i < t.len()
        invariant
            i <= t.len(),
            1 <= radix <= 16,
            acc == radix_value(t@.take(i as int), radix as nat),
            acc <= max,
        decreases t.len() - i,
    {
        let d: u64 = digit_of(t[i]);
        proof {
            assert(t@.take(i + 1).drop_last() == t@.take(i as int));
            assert(acc * radix <= 0xFFFF_FFFF_FFFF_FFFF * 16) by (nonlinear_arith)
                requires
                    acc <= 0xFFFF_FFFF_FFFF_FFFF,
                    radix <= 16,
            ;
        }
        let wide: u128 = (acc as u128) * (radix as u128) + (d as u128);
        if wide > max as u128 {
            proof {
                lemma_radix_value_prefix(t@, i + 1, radix as nat);
            }
            return None;
        }
        acc = wide as u64;
        i += 1;
    }
    proof {
        assert(t@.take(t.len() as int) == t@);
    }
    Some(acc)
}

/// The number that one digit stands for.
pub fn digit_of(b: u8) -> (d: u64)
    ensures
        d == digit_value(b),
        d <= 15,
{
    if 0x30 <= b && b <= 0x39 {
        (b - 0x30) as u64
    } else if 0x41 <= b && b <= 0x46 {
        (b - 0x41 + 10) as u64
    } else if 0x61 <= b && b <= 0x66 {
        (b - 0x61 + 10) as u64
    } else {
        0
    }
}

} // verus!
