//! Deciding when a server reply is complete, from the bytes received so far.
use vstd::prelude::*;

verus! {

pub const CR: u8 = 13;

pub const LF: u8 = 10;

pub const PLUS: u8 = 43;

pub const SPACE: u8 = 32;

/// The fixed tag that prefixes every client command of the tagged protocol,
/// together with the space that follows it: `POCHTA `.
pub open spec fn tag_seq() -> Seq<u8> {
    seq![80u8, 79u8, 67u8, 72u8, 84u8, 65u8, 32u8]
}

/// The tag bytes, for sending.
pub fn tag() -> (r: Vec<u8>)
    ensures
        r@ == tag_seq(),
{
    let r: Vec<u8> = vec![80u8, 79u8, 67u8, 72u8, 84u8, 65u8, 32u8];
    assert(r@ =~= tag_seq());
    r
}

/// Result of one non-blocking receive attempt.
pub enum RecvResult {
    /// This many bytes were written to the front of the scratch buffer.
    Received(usize),
    /// Nothing to read right now.
    Again,
}

/// A reply whose last line breaks the three-digit status grammar.
#[derive(Clone, Copy, Debug, PartialEq, Eq, Structural)]
pub enum FramingError {
    MalformedStatusLine,
}

/// What the receive loop does next.
#[derive(Clone, Copy, Debug, PartialEq, Eq, Structural)]
pub enum RecvStep {
    /// Bytes were appended: try to read again at once.
    ReadAgain,
    /// The reply is not complete yet: wait until the socket is readable.
    Wait,
    /// The reply is complete.
    Done,
}

pub open spec fn starts_with(s: Seq<u8>, p: Seq<u8>) -> bool {
    p.len() <= s.len() && s.subrange(0, p.len() as int) == p
}

pub open spec fn ends_with_crlf(b: Seq<u8>) -> bool {
    b.len() >= 2 && b[b.len() - 2] == CR && b[b.len() - 1] == LF
}

/// Position of the last LF among the first `end` bytes, or -1.
pub open spec fn last_lf_before(b: Seq<u8>, end: int) -> int
    decreases end,
{
    if end <= 0 {
        -1
    } else if b[end - 1] == LF {
        end - 1
    } else {
        last_lf_before(b, end - 1)
    }
}

/// Where the last line of a CRLF-terminated buffer begins: one past the last
/// LF that precedes the trailing CRLF, or 0 when there is none.
pub open spec fn last_line_start(b: Seq<u8>) -> int {
    last_lf_before(b, b.len() - 2) + 1
}

pub open spec fn last_line(b: Seq<u8>) -> Seq<u8> {
    b.subrange(last_line_start(b), b.len() as int)
}

/// A tagged-protocol reply is complete when the buffer ends with CRLF and its
/// last line starts with the tag or with the continuation marker `+`.
pub open spec fn tagged_complete(b: Seq<u8>) -> bool {
    &&& ends_with_crlf(b)
    &&& (starts_with(last_line(b), tag_seq()) || starts_with(last_line(b), seq![PLUS]))
}

pub open spec fn is_digit(c: u8) -> bool {
    48 <= c <= 57
}

/// The first three bytes of the line are ASCII digits.
pub open spec fn has_status_code(line: Seq<u8>) -> bool {
    line.len() >= 3 && is_digit(line[0]) && is_digit(line[1]) && is_digit(line[2])
}

/// The verdict on a status-coded reply: not complete until it ends with CRLF;
/// then its last line must carry a three-digit code, and a space after the
/// code marks the final line.
pub open spec fn coded_status(b: Seq<u8>) -> Result<bool, FramingError> {
    if !ends_with_crlf(b) {
        Ok(false)
    } else if !has_status_code(last_line(b)) {
        Err(FramingError::MalformedStatusLine)
    } else {
        Ok(last_line(b).len() > 3 && last_line(b)[3] == SPACE)
    }
}

proof fn lemma_last_lf_before_bounds(b: Seq<u8>, end: int)
    requires
        end <= b.len(),
    ensures
        -1 <= last_lf_before(b, end) < end || (end <= 0 && last_lf_before(b, end) == -1),
        last_lf_before(b, end) >= 0 ==> b[last_lf_before(b, end)] == LF,
        forall|k: int| last_lf_before(b, end) < k < end ==> b[k] != LF,
    decreases end,
{
    if end > 0 && b[end - 1] != LF {
        lemma_last_lf_before_bounds(b, end - 1);
    }
}

/// The buffer ends with a whole line that begins at `s`: the line ends with
/// the buffer's trailing CRLF, begins at the buffer start or just after an LF,
/// and holds no LF before that CRLF.
pub open spec fn is_final_line_at(b: Seq<u8>, s: int) -> bool {
    &&& ends_with_crlf(b)
    &&& 0 <= s <= b.len() - 2
    &&& (s == 0 || b[s - 1] == LF)
    &&& forall|k: int| s <= k < b.len() - 2 ==> b[k] != LF
}

/// The final line of a CRLF-terminated buffer begins at exactly one place,
/// and that is where the framers look.
pub proof fn lemma_final_line_unique(b: Seq<u8>, s: int)
    ensures
        is_final_line_at(b, s) <==> (ends_with_crlf(b) && s == last_line_start(b)),
{
    if ends_with_crlf(b) {
        let end = b.len() - 2;
        lemma_last_lf_before_bounds(b, end);
        let l = last_lf_before(b, end);
        if is_final_line_at(b, s) && s != l + 1 {
            if s < l + 1 {
                assert(b[l] != LF);
            } else {
                assert(b[s - 1] != LF);
            }
        }
    }
}

/// Tagged framing: the reply is complete exactly when the bytes received end
/// with a whole line that starts with the tag or with `+`; a buffer that
/// stops mid-line is never complete.
pub proof fn lemma_tagged_complete_iff_final_line(b: Seq<u8>)
    ensures
        tagged_complete(b) <==> exists|s: int|
            is_final_line_at(b, s) && {
                let line = #[trigger] b.subrange(s, b.len() as int);
                starts_with(line, tag_seq()) || starts_with(line, seq![PLUS])
            },
        !ends_with_crlf(b) ==> !tagged_complete(b),
{
    if ends_with_crlf(b) {
        let s0 = last_line_start(b);
        lemma_final_line_unique(b, s0);
        assert forall|s: int| is_final_line_at(b, s) implies s == s0 by {
            lemma_final_line_unique(b, s);
        }
    }
}

/// Coded framing: the reply is complete exactly when the bytes received end
/// with a whole line made of three ASCII digits and a space; a final line
/// without a three-digit code is a framing error; anything else waits.
pub proof fn lemma_coded_complete_iff_final_line(b: Seq<u8>)
    ensures
        coded_status(b) == Ok::<bool, FramingError>(true) <==> exists|s: int|
            is_final_line_at(b, s) && {
                let line = #[trigger] b.subrange(s, b.len() as int);
                has_status_code(line) && line.len() > 3 && line[3] == SPACE
            },
        coded_status(b) is Err <==> exists|s: int|
            is_final_line_at(b, s) && !has_status_code(#[trigger] b.subrange(s, b.len() as int)),
        !ends_with_crlf(b) ==> coded_status(b) == Ok::<bool, FramingError>(false),
{
    if ends_with_crlf(b) {
        let s0 = last_line_start(b);
        lemma_final_line_unique(b, s0);
        assert forall|s: int| is_final_line_at(b, s) implies s == s0 by {
            lemma_final_line_unique(b, s);
        }
    }
}

/// Finds where the last line of a CRLF-terminated buffer begins.
pub fn find_last_line_start(b: &[u8]) -> (r: usize)
    requires
        ends_with_crlf(b@),
    ensures
        r == last_line_start(b@),
        r <= b@.len() - 2,
{
    let mut i: usize = b.len() - 2;
    while i > 0
        invariant
            i <= b@.len() - 2,
            last_lf_before(b@, b@.len() - 2) == last_lf_before(b@, i as int),
        decreases i,
    {
        if b[i - 1] == LF {
            return i;
        }
        i = i - 1;
    }
    0
}

fn slice_starts_with(s: &[u8], start: usize, p: &[u8]) -> (r: bool)
    requires
        start <= s@.len(),
    ensures
        r == starts_with(s@.subrange(start as int, s@.len() as int), p@),
{
    if p.len() > s.len() - start {
        return false;
    }
    let n = s.len();
    let mut k: usize = 0;
    while k < p.len()
        invariant
            n == s@.len(),
            start + p@.len() <= s@.len(),
            k <= p@.len(),
            forall|j: int| 0 <= j < k ==> s@[start + j] == p@[j],
        decreases p@.len() - k,
    {
        if s[start + k] != p[k] {
            assert(s@.subrange(start as int, s@.len() as int).subrange(0, p@.len() as int)[k as int]
                != p@[k as int]);
            return false;
        }
        k = k + 1;
    }
    assert(s@.subrange(start as int, s@.len() as int).subrange(0, p@.len() as int) =~= p@);
    true
}

/// Whether a tagged-protocol reply is complete.
pub fn is_tagged_complete(b: &[u8]) -> (r: bool)
    ensures
        r == tagged_complete(b@),
{
    if b.len() < 2 || b[b.len() - 2] != CR || b[b.len() - 1] != LF {
        return false;
    }
    let start = find_last_line_start(b);
    let t = tag();
    let plus: Vec<u8> = vec![PLUS];
    assert(plus@ =~= seq![PLUS]);
    slice_starts_with(b, start, t.as_slice()) || slice_starts_with(b, start, plus.as_slice())
}

/// The verdict on a status-coded reply.
pub fn coded_reply_status(b: &[u8]) -> (r: Result<bool, FramingError>)
    ensures
        r == coded_status(b@),
{
    if b.len() < 2 || b[b.len() - 2] != CR || b[b.len() - 1] != LF {
        return Ok(false);
    }
    let start = find_last_line_start(b);
    let ghost line = last_line(b@);
    assert(line.len() == b@.len() - start);
    if b.len() - start < 3 {
        return Err(FramingError::MalformedStatusLine);
    }
    assert(line[0] == b@[start as int] && line[1] == b@[start + 1] && line[2] == b@[start + 2]);
    let d0 = b[start];
    let d1 = b[start + 1];
    let d2 = b[start + 2];
    if !(48 <= d0 && d0 <= 57 && 48 <= d1 && d1 <= 57 && 48 <= d2 && d2 <= 57) {
        return Err(FramingError::MalformedStatusLine);
    }
    if b.len() - start > 3 {
        assert(line[3] == b@[start + 3]);
        Ok(b[start + 3] == SPACE)
    } else {
        Ok(false)
    }
}

} // verus!
