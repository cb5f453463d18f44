//! Reading RESP frames from received bytes with the parser of `mini_redis`.
//!
//! The parser's outcome is named over the bytes it reads; the frames it
//! produces are carried over into the library's own frame type.

use vstd::prelude::*;
use crate::frame::{FrameView, RespFrame};

verus! {

/// The frame type of `mini_redis`, produced by its parser.
#[verifier::external_type_specification]
#[verifier::external_body]
pub struct ExRespFrame(mini_redis::Frame);

/// Carries a frame of `mini_redis` over into the library's frame type,
/// variant by variant, the parts of an array in order.
impl From<mini_redis::Frame> for RespFrame {
    #[verifier::external_body]
    fn from(frame: mini_redis::Frame) -> RespFrame {
        match frame {
            mini_redis::Frame::Simple(s) => RespFrame::Simple(s),
            mini_redis::Frame::Error(s) => RespFrame::Error(s),
            mini_redis::Frame::Integer(n) => RespFrame::Integer(n),
            mini_redis::Frame::Bulk(b) => RespFrame::Bulk(b),
            mini_redis::Frame::Null => RespFrame::Null,
            mini_redis::Frame::Array(parts) => RespFrame::Array(parts.into_iter().map(RespFrame::from).collect()),
        }
    }
}

/// Carries a frame of the library over into the frame type of `mini_redis`,
/// variant by variant, the parts of an array in order.
impl From<RespFrame> for mini_redis::Frame {
    #[verifier::external_body]
    fn from(frame: RespFrame) -> mini_redis::Frame {
        match frame {
            RespFrame::Simple(s) => mini_redis::Frame::Simple(s),
            RespFrame::Error(s) => mini_redis::Frame::Error(s),
            RespFrame::Integer(n) => mini_redis::Frame::Integer(n),
            RespFrame::Bulk(b) => mini_redis::Frame::Bulk(b),
            RespFrame::Null => mini_redis::Frame::Null,
            RespFrame::Array(parts) => mini_redis::Frame::Array(parts.into_iter().map(mini_redis::Frame::from).collect()),
        }
    }
}

/// What `mini_redis::Frame::check` reports on a buffer.
#[derive(Debug, PartialEq, Eq, Clone, Copy)]
pub enum CheckOutcome {
    /// A whole frame lies at the front of the buffer; it takes this many bytes.
    Complete(usize),
    /// The buffer ends before a whole frame.
    Incomplete,
    /// The buffer does not start with a well-formed frame.
    Invalid,
}

/// How `mini_redis::Frame::parse` ends on a buffer, the frame seen as plain
/// values.
pub enum ParsedView {
    /// A frame was read; it took this many bytes.
    Parsed(FrameView, usize),
    /// The buffer ends before the frame does.
    Incomplete,
    /// The frame is malformed.
    Invalid,
}

/// A frame read by `mini_redis::Frame::parse`, or why none was.
pub enum ParseOutcome {
    Parsed(RespFrame, usize),
    Incomplete,
    Invalid,
}

impl ParseOutcome {
    pub open spec fn view(&self) -> ParsedView {
        match self {
            ParseOutcome::Parsed(f, n) => ParsedView::Parsed(f.view(), *n),
            ParseOutcome::Incomplete => ParsedView::Incomplete,
            ParseOutcome::Invalid => ParsedView::Invalid,
        }
    }
}

/// The outcome of `mini_redis::Frame::check` on the given bytes.
pub uninterp spec fn resp_check(buf: Seq<u8>) -> CheckOutcome;

/// How `mini_redis::Frame::parse` ends on the given bytes: the frame it
/// reads, seen as plain values, and its length, or why it reads none.
pub uninterp spec fn resp_parse(buf: Seq<u8>) -> ParsedView;

pub open spec fn is_ascii_digit(b: u8) -> bool {
    48 <= b <= 57
}

pub open spec fn all_digits(s: Seq<u8>) -> bool {
    forall|k: int| 0 <= k < s.len() ==> is_ascii_digit(#[trigger] s[k])
}

/// The value of a run of ASCII digits read in base ten.
pub open spec fn digits_value(s: Seq<u8>) -> nat
    decreases s.len(),
{
    if s.len() == 0 {
        0
    } else {
        digits_value(s.drop_last()) * 10 + (s.last() - 48) as nat
    }
}

/// Where the first line terminator at or after `a` starts, as the parser of
/// `mini_redis` looks for it.
pub open spec fn first_crlf(s: Seq<u8>, a: int) -> Option<int>
    decreases s.len() - a,
{
    if a < 0 || a + 1 >= s.len() {
        None
    } else if s[a] == 13u8 && s[a + 1] == 10u8 {
        Some(a)
    } else {
        first_crlf(s, a + 1)
    }
}

proof fn lemma_first_crlf(s: Seq<u8>, a: int)
    ensures
        first_crlf(s, a) matches Some(k) ==> 0 <= a <= k && k + 1 < s.len() && s[k] == 13u8 && s[k + 1] == 10u8,
    decreases s.len() - a,
{
    if !(a < 0 || a + 1 >= s.len()) && !(s[a] == 13u8 && s[a + 1] == 10u8) {
        lemma_first_crlf(s, a + 1);
    }
}

/// Where the run of ASCII digits that starts at `a` ends, at `k` at the
/// latest.
pub open spec fn digit_run_end(s: Seq<u8>, a: int, k: int) -> int
    decreases k - a,
{
    if 0 <= a < k && a < s.len() && is_ascii_digit(s[a]) {
        digit_run_end(s, a + 1, k)
    } else {
        a
    }
}

/// How the parser reads a number on the line that starts at `a`.
pub enum LineNumber {
    /// No line terminator follows.
    Incomplete,
    /// The line does not start with a number that fits `u64`.
    Invalid,
    /// The number, and where the next line starts.
    Value(nat, int),
}

/// The number on the line that starts at `a`: its leading digits, read as
/// the parser of `mini_redis` reads them.
pub open spec fn line_number(s: Seq<u8>, a: int) -> LineNumber {
    match first_crlf(s, a) {
        None => LineNumber::Incomplete,
        Some(k) => {
            let e = digit_run_end(s, a, k);
            let v = digits_value(s.subrange(a, e));
            if e == a || v > u64::MAX {
                LineNumber::Invalid
            } else {
                LineNumber::Value(v, k + 2)
            }
        },
    }
}

/// Where walking the frame headers from one position ends.
pub enum FrameWalk {
    /// The frame ends just before this position.
    Done(int),
    Incomplete,
    Invalid,
    /// A bulk header announces a length the parser overflows on.
    Overflow,
}

/// The walk `mini_redis::Frame::check` makes over the frame that starts at
/// `pos`: a type byte; then a line for a simple string or an error; a number
/// for an integer; for a bulk string either `-1` or a length followed by
/// that many bytes and two more; for an array a count followed by that many
/// frames.
pub open spec fn frame_walk(s: Seq<u8>, pos: int) -> FrameWalk
    decreases s.len() - pos, 0int, 0int,
{
    if pos < 0 || pos >= s.len() {
        FrameWalk::Incomplete
    } else if s[pos] == 43u8 || s[pos] == 45u8 {
        match first_crlf(s, pos + 1) {
            None => FrameWalk::Incomplete,
            Some(k) => FrameWalk::Done(k + 2),
        }
    } else if s[pos] == 58u8 {
        match line_number(s, pos + 1) {
            LineNumber::Incomplete => FrameWalk::Incomplete,
            LineNumber::Invalid => FrameWalk::Invalid,
            LineNumber::Value(_, next) => FrameWalk::Done(next),
        }
    } else if s[pos] == 36u8 {
        if pos + 1 >= s.len() {
            FrameWalk::Incomplete
        } else if s[pos + 1] == 45u8 {
            if pos + 5 <= s.len() {
                FrameWalk::Done(pos + 5)
            } else {
                FrameWalk::Incomplete
            }
        } else {
            match line_number(s, pos + 1) {
                LineNumber::Incomplete => FrameWalk::Incomplete,
                LineNumber::Invalid => FrameWalk::Invalid,
                LineNumber::Value(v, next) => if v > usize::MAX {
                    FrameWalk::Invalid
                } else if v >= usize::MAX - 1 {
                    FrameWalk::Overflow
                } else if next + v + 2 <= s.len() {
                    FrameWalk::Done(next + v + 2)
                } else {
                    FrameWalk::Incomplete
                },
            }
        }
    } else if s[pos] == 42u8 {
        match line_number(s, pos + 1) {
            LineNumber::Incomplete => FrameWalk::Incomplete,
            LineNumber::Invalid => FrameWalk::Invalid,
            LineNumber::Value(c, next) => if pos < next <= s.len() {
                frames_walk(s, next, c as int)
            } else {
                FrameWalk::Invalid
            },
        }
    } else {
        FrameWalk::Invalid
    }
}

/// The walk over `count` frames in a row, the first at `pos`.
pub open spec fn frames_walk(s: Seq<u8>, pos: int, count: int) -> FrameWalk
    decreases s.len() - pos, 1int, count,
{
    if count <= 0 {
        FrameWalk::Done(pos)
    } else {
        match frame_walk(s, pos) {
            FrameWalk::Done(end) => if pos < end <= s.len() {
                frames_walk(s, end, count - 1)
            } else {
                FrameWalk::Invalid
            },
            FrameWalk::Incomplete => FrameWalk::Incomplete,
            FrameWalk::Invalid => FrameWalk::Invalid,
            FrameWalk::Overflow => FrameWalk::Overflow,
        }
    }
}

/// At `p` stands a bulk header `$<n>` with a whole line, whose length `n`
/// is `usize::MAX - 1` or more.
pub open spec fn long_bulk_header_at(s: Seq<u8>, p: int) -> bool {
    &&& 0 <= p < s.len()
    &&& s[p] == 36u8
    &&& (line_number(s, p + 1) matches LineNumber::Value(v, _) && v >= usize::MAX - 1)
}

proof fn lemma_walk_overflow(s: Seq<u8>, pos: int)
    ensures
        frame_walk(s, pos) is Overflow ==> exists|p: int| pos <= p && #[trigger] long_bulk_header_at(s, p),
    decreases s.len() - pos, 0int, 0int,
{
    if !(pos < 0 || pos >= s.len()) && s[pos] == 42u8 {
        if let LineNumber::Value(c, next) = line_number(s, pos + 1) {
            if pos < next <= s.len() {
                lemma_walks_overflow(s, next, c as int);
            }
        }
    }
    if !(pos < 0 || pos >= s.len()) && s[pos] == 36u8 && frame_walk(s, pos) is Overflow {
        assert(long_bulk_header_at(s, pos));
    }
}

proof fn lemma_walks_overflow(s: Seq<u8>, pos: int, count: int)
    ensures
        frames_walk(s, pos, count) is Overflow ==> exists|p: int| pos <= p && #[trigger] long_bulk_header_at(s, p),
    decreases s.len() - pos, 1int, count,
{
    if count > 0 {
        lemma_walk_overflow(s, pos);
        if let FrameWalk::Done(end) = frame_walk(s, pos) {
            if pos < end <= s.len() {
                lemma_walks_overflow(s, end, count - 1);
            }
        }
    }
}

/// The parser overflows only on a bulk header it reads: a buffer on which
/// the walk overflows holds a `$` line announcing a length of at least
/// `usize::MAX - 1`. So a buffer whose bulk headers all announce smaller
/// lengths is never refused.
pub proof fn law_overflow_needs_a_long_bulk_header(s: Seq<u8>)
    requires
        has_oversized_bulk_header(s),
    ensures
        exists|p: int| #[trigger] long_bulk_header_at(s, p),
{
    lemma_walk_overflow(s, 0);
}

/// Reading the frame at the start of `s`, the parser of `mini_redis` comes
/// to a bulk header whose length overflows it.
pub open spec fn has_oversized_bulk_header(s: Seq<u8>) -> bool {
    frame_walk(s, 0) is Overflow
}

/// `LineNumber`, as computed.
enum LineNumberExec {
    Incomplete,
    Invalid,
    Value(u64, usize),
}

impl LineNumberExec {
    spec fn view(&self) -> LineNumber {
        match self {
            LineNumberExec::Incomplete => LineNumber::Incomplete,
            LineNumberExec::Invalid => LineNumber::Invalid,
            LineNumberExec::Value(v, next) => LineNumber::Value(*v as nat, *next as int),
        }
    }
}

/// `FrameWalk`, as computed.
enum FrameWalkExec {
    Done(usize),
    Incomplete,
    Invalid,
    Overflow,
}

impl FrameWalkExec {
    spec fn view(&self) -> FrameWalk {
        match self {
            FrameWalkExec::Done(p) => FrameWalk::Done(*p as int),
            FrameWalkExec::Incomplete => FrameWalk::Incomplete,
            FrameWalkExec::Invalid => FrameWalk::Invalid,
            FrameWalkExec::Overflow => FrameWalk::Overflow,
        }
    }
}

fn find_first_crlf(s: &[u8], a: usize) -> (r: Option<usize>)
    ensures
        match r {
            Some(k) => first_crlf(s@, a as int) == Some(k as int),
            None => first_crlf(s@, a as int) is None,
        },
{
    let n = s.len();
    if a >= n {
        return None;
    }
    let mut i = a;
    while i + 1 < n
        invariant
            n == s@.len(),
            a <= i < n,
            first_crlf(s@, a as int) == first_crlf(s@, i as int),
        decreases n - i,
    {
        if s[i] == 13u8 && s[i + 1] == 10u8 {
            return Some(i);
        }
        i = i + 1;
    }
    None
}

fn read_line_number(s: &[u8], a: usize) -> (r: LineNumberExec)
    ensures
        r@ == line_number(s@, a as int),
{
    match find_first_crlf(s, a) {
        None => LineNumberExec::Incomplete,
        Some(k) => {
            proof {
                lemma_first_crlf(s@, a as int);
            }
            let limit: u128 = u64::MAX as u128;
            let mut j = a;
            let mut val: u128 = 0;
            let mut big = false;
            assert(s@.subrange(a as int, j as int) =~= Seq::<u8>::empty());
            while j < k && 48u8 <= s[j] && s[j] <= 57u8
                invariant
                    k + 1 < s@.len(),
                    a <= j <= k,
                    limit == u64::MAX,
                    digit_run_end(s@, a as int, k as int) == digit_run_end(s@, j as int, k as int),
                    big ==> digits_value(s@.subrange(a as int, j as int)) > u64::MAX,
                    !big ==> val == digits_value(s@.subrange(a as int, j as int)) && val <= u64::MAX,
                decreases k - j,
            {
                let ghost prev = s@.subrange(a as int, j as int);
                let d = s[j] - 48u8;
                if !big {
                    val = val * 10 + (d as u128);
                    if val > limit {
                        big = true;
                    }
                }
                j = j + 1;
                let ghost cur = s@.subrange(a as int, j as int);
                assert(cur.drop_last() =~= prev);
                assert(cur.last() == s@[j - 1]);
            }
            assert(digit_run_end(s@, j as int, k as int) == j);
            if j == a || big {
                LineNumberExec::Invalid
            } else {
                LineNumberExec::Value(val as u64, k + 2)
            }
        },
    }
}

/// Walks the frame headers from `pos` as `frame_walk` does.
fn walk_frame(s: &[u8], pos: usize) -> (r: FrameWalkExec)
    ensures
        r@ == frame_walk(s@, pos as int),
    decreases s@.len() - pos,
{
    let n = s.len();
    if pos >= n {
        return FrameWalkExec::Incomplete;
    }
    let t = s[pos];
    if t == 43u8 || t == 45u8 {
        match find_first_crlf(s, pos + 1) {
            None => FrameWalkExec::Incomplete,
            Some(k) => {
                proof {
                    lemma_first_crlf(s@, pos + 1);
                }
                FrameWalkExec::Done(k + 2)
            },
        }
    } else if t == 58u8 {
        match read_line_number(s, pos + 1) {
            LineNumberExec::Incomplete => FrameWalkExec::Incomplete,
            LineNumberExec::Invalid => FrameWalkExec::Invalid,
            LineNumberExec::Value(_, next) => FrameWalkExec::Done(next),
        }
    } else if t == 36u8 {
        if pos + 1 >= n {
            FrameWalkExec::Incomplete
        } else if s[pos + 1] == 45u8 {
            if n - pos >= 5 {
                FrameWalkExec::Done(pos + 5)
            } else {
                FrameWalkExec::Incomplete
            }
        } else {
            match read_line_number(s, pos + 1) {
                LineNumberExec::Incomplete => FrameWalkExec::Incomplete,
                LineNumberExec::Invalid => FrameWalkExec::Invalid,
                LineNumberExec::Value(v, next) => {
                    proof {
                        lemma_first_crlf(s@, pos + 1);
                    }
                    if (v as u128) > (usize::MAX as u128) {
                        FrameWalkExec::Invalid
                    } else if (v as u128) >= (usize::MAX as u128) - 1 {
                        FrameWalkExec::Overflow
                    } else {
                        let len = v as usize;
                        if n - next >= len + 2 {
                            FrameWalkExec::Done(next + len + 2)
                        } else {
                            FrameWalkExec::Incomplete
                        }
                    }
                },
            }
        }
    } else if t == 42u8 {
        match read_line_number(s, pos + 1) {
            LineNumberExec::Incomplete => FrameWalkExec::Incomplete,
            LineNumberExec::Invalid => FrameWalkExec::Invalid,
            LineNumberExec::Value(c, next) => {
                proof {
                    lemma_first_crlf(s@, pos + 1);
                }
                let mut p = next;
                let mut left = c;
                while left > 0
                    invariant
                        n == s@.len(),
                        pos < p <= n,
                        frame_walk(s@, pos as int) == frames_walk(s@, p as int, left as int),
                    decreases left,
                {
                    match walk_frame(s, p) {
                        FrameWalkExec::Done(end) => {
                            if p < end && end <= n {
                                p = end;
                                left = left - 1;
                            } else {
                                return FrameWalkExec::Invalid;
                            }
                        },
                        FrameWalkExec::Incomplete => {
                            return FrameWalkExec::Incomplete;
                        },
                        FrameWalkExec::Invalid => {
                            return FrameWalkExec::Invalid;
                        },
                        FrameWalkExec::Overflow => {
                            return FrameWalkExec::Overflow;
                        },
                    }
                }
                FrameWalkExec::Done(p)
            },
        }
    } else {
        FrameWalkExec::Invalid
    }
}

/// Whether reading the frame at the start of `buf`, the parser of
/// `mini_redis` would come to a bulk header whose length overflows it.
pub fn find_oversized_bulk_header(buf: &[u8]) -> (r: bool)
    ensures
        r == has_oversized_bulk_header(buf@),
{
    match walk_frame(buf, 0) {
        FrameWalkExec::Overflow => true,
        _ => false,
    }
}

/// The frames `parts` stand one after another from `pos` on, each as the
/// parser reads it from there, and the last ends just before `end`.
pub open spec fn parts_parsed(buf: Seq<u8>, pos: int, parts: Seq<FrameView>, end: int) -> bool
    decreases parts.len(),
{
    if parts.len() == 0 {
        pos == end
    } else {
        match resp_parse(buf.skip(pos)) {
            ParsedView::Parsed(f, m) => f == parts[0] && parts_parsed(buf, pos + m, parts.drop_first(), end),
            _ => false,
        }
    }
}

/// `buf` starts with an array header `*<count>` whose count is the number
/// of `parts`, and the parts follow it, ending just before `end`.
pub open spec fn array_parsed(buf: Seq<u8>, parts: Seq<FrameView>, end: int) -> bool {
    &&& buf.len() > 0
    &&& buf[0] == 42u8
    &&& (line_number(buf, 1) matches LineNumber::Value(count, next) && parts.len() == count
        && parts_parsed(buf, next, parts, end))
}

/// The parser reads frame `f` from position `p` of `buf`.
pub open spec fn frame_read_at(buf: Seq<u8>, p: int, f: FrameView) -> bool {
    resp_parse(buf.skip(p)) matches ParsedView::Parsed(g, _) && g == f
}

/// Where the `i`-th of the frames that follow one another from `pos` on
/// begins: each frame starts where the one before it ended.
pub open spec fn part_start(buf: Seq<u8>, pos: int, i: int) -> int
    decreases i,
{
    if i <= 0 {
        pos
    } else {
        match resp_parse(buf.skip(pos)) {
            ParsedView::Parsed(_, m) => part_start(buf, pos + m, i - 1),
            _ => pos,
        }
    }
}

proof fn lemma_parts_read(buf: Seq<u8>, pos: int, parts: Seq<FrameView>, end: int)
    requires
        parts_parsed(buf, pos, parts, end),
    ensures
        forall|i: int| 0 <= i < parts.len() ==> #[trigger] frame_read_at(buf, part_start(buf, pos, i), parts[i]),
    decreases parts.len(),
{
    if parts.len() > 0 {
        if let ParsedView::Parsed(f, m) = resp_parse(buf.skip(pos)) {
            let rest = parts.drop_first();
            lemma_parts_read(buf, pos + m, rest, end);
            assert forall|i: int| 0 <= i < parts.len() implies #[trigger] frame_read_at(buf, part_start(buf, pos, i), parts[i]) by {
                if i == 0 {
                    assert(part_start(buf, pos, 0) == pos);
                } else {
                    assert(part_start(buf, pos, i) == part_start(buf, pos + m, i - 1));
                    assert(parts[i] == rest[i - 1]);
                    assert(frame_read_at(buf, part_start(buf, pos + m, i - 1), rest[i - 1]));
                }
            }
        }
    }
}

/// An array read from bytes holds exactly as many parts as its header
/// announces, and its `i`-th part is the frame the parser reads where the
/// `i`-th frame after the header begins.
pub proof fn law_array_parts_are_the_announced_frames(buf: Seq<u8>, parts: Seq<FrameView>, end: int)
    requires
        array_parsed(buf, parts, end),
    ensures
        line_number(buf, 1) matches LineNumber::Value(count, next) && parts.len() == count && forall|i: int|
            0 <= i < count ==> #[trigger] frame_read_at(buf, part_start(buf, next, i), parts[i]),
{
    if let LineNumber::Value(count, next) = line_number(buf, 1) {
        lemma_parts_read(buf, next, parts, end);
    }
}

/// Runs `mini_redis::Frame::check` on `buf` from its start.
///
/// The outcome is named by `resp_check`; on success the frame's length is
/// the cursor position reached, at least one byte and at most the buffer.
/// The checker recurses once per nesting level of arrays; how deep a nesting
/// the thread's stack allows is not stated.
#[verifier::external_body]
pub(crate) fn check_frame(buf: &[u8]) -> (r: CheckOutcome)
    requires
        !has_oversized_bulk_header(buf@),
    ensures
        r == resp_check(buf@),
        r matches CheckOutcome::Complete(n) ==> 1 <= n <= buf@.len(),
{
    let mut cursor = std::io::Cursor::new(buf);
    match mini_redis::Frame::check(&mut cursor) {
        Ok(()) => CheckOutcome::Complete(cursor.position() as usize),
        Err(mini_redis::frame::Error::Incomplete) => CheckOutcome::Incomplete,
        Err(mini_redis::frame::Error::Other(_)) => CheckOutcome::Invalid,
    }
}

/// Runs `mini_redis::Frame::parse` on `buf` from its start, on a buffer that
/// `Frame::check` accepted, as the parser's documentation demands, and
/// carries the frame it reads over into `RespFrame`, variant by variant.
///
/// How it ends, and the frame as plain values, are named by `resp_parse`.
/// When it yields a frame, the frame took exactly the bytes that `check`
/// measured, as both walk the same grammar. An array holds as many parts as
/// its header announces, each the frame the parser reads at its place.
#[verifier::external_body]
pub(crate) fn parse_frame_bytes(buf: &[u8]) -> (r: ParseOutcome)
    requires
        resp_check(buf@) is Complete,
        !has_oversized_bulk_header(buf@),
    ensures
        r.view() == resp_parse(buf@),
        r matches ParseOutcome::Parsed(_, n) ==> resp_check(buf@) == CheckOutcome::Complete(n),
        r matches ParseOutcome::Parsed(f, n) ==> (f.view() matches FrameView::Array(parts) ==> array_parsed(
            buf@,
            parts,
            n as int,
        )),
{
    let mut cursor = std::io::Cursor::new(buf);
    match mini_redis::Frame::parse(&mut cursor) {
        Ok(frame) => ParseOutcome::Parsed(RespFrame::from(frame), cursor.position() as usize),
        Err(mini_redis::frame::Error::Incomplete) => ParseOutcome::Incomplete,
        Err(mini_redis::frame::Error::Other(_)) => ParseOutcome::Invalid,
    }
}

} // verus!
