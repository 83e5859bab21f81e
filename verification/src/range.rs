//! Byte ranges of a log, and cutting a span of log bytes at a line end.
use crate::error::ApiError;
use vstd::prelude::*;
use vstd::utf8::{
    is_char_boundary, is_char_boundary_iff_not_is_continuation_byte,
    is_char_boundary_start_end_of_seq, is_continuation_byte, pop_first_scalar, valid_first_scalar,
    valid_utf8, valid_utf8_split,
};

verus! {

/// The byte that ends a line.
pub const NEWLINE: u8 = 0x0A;

/// A request for one part of a log. Positions count bytes from the start of
/// the log.
#[derive(Debug, Clone, Copy, PartialEq, Eq)]
pub enum ByteRange {
    /// The bytes from `start` up to, not including, `end`.
    Between { start: u64, end: u64 },
    /// The bytes from `start` to the end of the log.
    StartingAt { start: u64 },
    /// The last `length` bytes of the log.
    Last { length: u64 },
}

/// The span `[start, end)` that `range` stands for in a log of `len` bytes.
///
/// A span that ends before it has begun is invalid, whatever the log holds.
/// A start beyond the end of the log cannot be satisfied. An end beyond the
/// end of the log is cut back to it, and so is a suffix longer than the log.
pub open spec fn spec_resolve(range: ByteRange, len: u64) -> Result<(u64, u64), ApiError> {
    match range {
        ByteRange::Between { start, end } => {
            if start >= end {
                Err(ApiError::InvalidRange)
            } else if start > len {
                Err(ApiError::RangeNotSatisfiable)
            } else if end > len {
                Ok((start, len))
            } else {
                Ok((start, end))
            }
        },
        ByteRange::StartingAt { start } => {
            if start > len {
                Err(ApiError::RangeNotSatisfiable)
            } else {
                Ok((start, len))
            }
        },
        ByteRange::Last { length } => {
            if length > len {
                Ok((0, len))
            } else {
                Ok(((len - length) as u64, len))
            }
        },
    }
}

/// Resolves a requested range against a log that is `len` bytes long.
pub fn resolve_range(range: ByteRange, len: u64) -> (span: Result<(u64, u64), ApiError>)
    ensures
        span == spec_resolve(range, len),
{
    match range {
        ByteRange::Between { start, end } => {
            if start >= end {
                Err(ApiError::InvalidRange)
            } else if start > len {
                Err(ApiError::RangeNotSatisfiable)
            } else if end > len {
                Ok((start, len))
            } else {
                Ok((start, end))
            }
        },
        ByteRange::StartingAt { start } => {
            if start > len {
                Err(ApiError::RangeNotSatisfiable)
            } else {
                Ok((start, len))
            }
        },
        ByteRange::Last { length } => {
            if length > len {
                Ok((0, len))
            } else {
                Ok((len - length, len))
            }
        },
    }
}

/// A span that was resolved lies within the log and is in order.
pub proof fn lemma_resolved_within(range: ByteRange, len: u64)
    ensures
        spec_resolve(range, len) matches Ok((start, end)) ==> start <= end <= len,
{
}

/// A suffix request is never refused, and it ends where the log ends.
pub proof fn lemma_suffix_is_satisfiable(length: u64, len: u64)
    ensures
        spec_resolve(ByteRange::Last { length }, len) matches Ok((start, end)) && end == len && (
        length >= len ==> start == 0) && (length < len ==> end - start == length),
{
}

/// Whether `n` is where `bytes` is cut: just behind its last line end, or at
/// 0 if it holds none.
pub open spec fn is_cut(bytes: Seq<u8>, n: int) -> bool {
    &&& 0 <= n <= bytes.len()
    &&& n > 0 ==> bytes[n - 1] == NEWLINE
    &&& forall|i: int| n <= i < bytes.len() ==> bytes[i] != NEWLINE
}

/// The number of bytes of `bytes` up to and including its last line end; 0
/// if it holds none.
pub open spec fn cut_len(bytes: Seq<u8>) -> int
    decreases bytes.len(),
{
    if bytes.len() == 0 {
        0
    } else if bytes.last() == NEWLINE {
        bytes.len() as int
    } else {
        cut_len(bytes.drop_last())
    }
}

/// `cut_len` is the one place at which a span is cut.
pub proof fn lemma_cut_unique(bytes: Seq<u8>, n: int)
    ensures
        is_cut(bytes, n) <==> n == cut_len(bytes),
    decreases bytes.len(),
{
    if bytes.len() == 0 {
    } else if bytes.last() == NEWLINE {
        if is_cut(bytes, n) && n < bytes.len() {
            assert(bytes[bytes.len() - 1] != NEWLINE);
        }
    } else {
        let shorter = bytes.drop_last();
        lemma_cut_unique(shorter, n);
        lemma_cut_unique(shorter, cut_len(shorter));
        if is_cut(bytes, n) {
            assert(n < bytes.len());
            assert forall|i: int| n <= i < shorter.len() implies shorter[i] != NEWLINE by {
                assert(shorter[i] == bytes[i]);
            }
            if n > 0 {
                assert(shorter[n - 1] == bytes[n - 1]);
            }
        }
        if n == cut_len(shorter) {
            assert(is_cut(shorter, n));
            assert forall|i: int| n <= i < bytes.len() implies bytes[i] != NEWLINE by {
                if i < shorter.len() {
                    assert(shorter[i] == bytes[i]);
                }
            }
            if n > 0 {
                assert(shorter[n - 1] == bytes[n - 1]);
            }
        }
    }
}

/// The bytes of `bytes` up to and including its last line end.
pub open spec fn trimmed(bytes: Seq<u8>) -> Seq<u8> {
    bytes.subrange(0, cut_len(bytes))
}

/// What is left after the cut ends with a line end, or is empty; it is empty
/// exactly when the span holds no line end.
pub proof fn lemma_trimmed_ends_with_newline(bytes: Seq<u8>)
    ensures
        trimmed(bytes).len() <= bytes.len(),
        trimmed(bytes).len() == 0 || trimmed(bytes).last() == NEWLINE,
        trimmed(bytes).len() == 0 <==> !bytes.contains(NEWLINE),
        trimmed(bytes).is_prefix_of(bytes),
{
    let n = cut_len(bytes);
    lemma_cut_unique(bytes, n);
    if n == 0 {
        if bytes.contains(NEWLINE) {
            let i = choose|i: int| 0 <= i < bytes.len() && bytes[i] == NEWLINE;
            assert(bytes[i] != NEWLINE);
        }
    } else {
        assert(bytes[n - 1] == NEWLINE);
    }
}

/// In text, a character starts right behind a line end.
pub proof fn lemma_char_boundary_after_newline(text: Seq<u8>, i: int)
    requires
        valid_utf8(text),
        0 <= i < text.len(),
        text[i] == NEWLINE,
    ensures
        is_char_boundary(text, i + 1),
{
    assert(!is_continuation_byte(text[i]));
    is_char_boundary_iff_not_is_continuation_byte(text, i);
    valid_utf8_split(text, i);
    let tail = text.subrange(i, text.len() as int);
    assert(tail[0] == text[i]);
    assert(valid_first_scalar(tail) && valid_utf8(pop_first_scalar(tail)));
    let rest = pop_first_scalar(tail);
    assert(rest =~= tail.subrange(1, tail.len() as int));
    if i + 1 == text.len() {
        is_char_boundary_start_end_of_seq(text);
    } else {
        assert(rest.len() > 0);
        assert(valid_first_scalar(rest));
        assert(rest[0] == text[i + 1]);
        assert(!is_continuation_byte(rest[0]));
        is_char_boundary_iff_not_is_continuation_byte(text, i + 1);
    }
}

/// Cutting at the last line end never cuts a character in two.
///
/// `text` is what the hook writes in the end, and the span `[start, end)` is
/// what a reader got hold of while the hook was still writing; it may end
/// in the middle of a character. If the span starts where a character
/// starts, what is left after the cut is text.
pub proof fn lemma_cut_keeps_text_whole(text: Seq<u8>, start: int, end: int)
    requires
        valid_utf8(text),
        0 <= start <= end <= text.len(),
        is_char_boundary(text, start),
    ensures
        valid_utf8(trimmed(text.subrange(start, end))),
{
    let span = text.subrange(start, end);
    let n = cut_len(span);
    lemma_cut_unique(span, n);
    if n > 0 {
        assert(span[n - 1] == text[start + n - 1]);
        lemma_char_boundary_after_newline(text, start + n - 1);
    }
    assert(is_char_boundary(text, start + n));
    valid_utf8_split(text, start + n);
    let head = text.subrange(0, start + n);
    if start < head.len() {
        is_char_boundary_iff_not_is_continuation_byte(text, start);
        assert(head[start] == text[start]);
        is_char_boundary_iff_not_is_continuation_byte(head, start);
    } else {
        is_char_boundary_start_end_of_seq(head);
    }
    valid_utf8_split(head, start);
    assert(head.subrange(start, head.len() as int) =~= trimmed(span));
}

/// Finds where to cut `bytes` so that it ends with a whole line.
pub fn trim_to_last_newline(bytes: &[u8]) -> (n: usize)
    ensures
        n == cut_len(bytes@),
        is_cut(bytes@, n as int),
{
    let mut n = bytes.len();
    while n > 0 && bytes[n - 1] != NEWLINE
        invariant
            n <= bytes@.len(),
            forall|i: int| n <= i < bytes@.len() ==> bytes@[i] != NEWLINE,
        decreases n,
    {
        n = n - 1;
    }
    proof {
        lemma_cut_unique(bytes@, n as int);
    }
    n
}

/// Whether `byte` is a decimal digit.
pub open spec fn is_digit(byte: u8) -> bool {
    0x30 <= byte <= 0x39
}

/// The number that the decimal digits `digits` write.
pub open spec fn decimal_value(digits: Seq<u8>) -> nat
    decreases digits.len(),
{
    if digits.len() == 0 {
        0
    } else {
        decimal_value(digits.drop_last()) * 10 + (digits.last() - 0x30) as nat
    }
}

/// The number that `text` writes, where `text` is one or more decimal
/// digits and the number is one that 64 bits can hold.
pub open spec fn spec_number(text: Seq<u8>) -> Option<u64> {
    if text.len() > 0 && (forall|i: int| 0 <= i < text.len() ==> is_digit(#[trigger] text[i]))
        && decimal_value(text) <= u64::MAX {
        Some(decimal_value(text) as u64)
    } else {
        None
    }
}

/// More digits do not write a smaller number.
proof fn lemma_decimal_value_grows(digits: Seq<u8>, shorter: int)
    requires
        0 <= shorter <= digits.len(),
        forall|i: int| 0 <= i < digits.len() ==> is_digit(#[trigger] digits[i]),
    ensures
        decimal_value(digits.subrange(0, shorter)) <= decimal_value(digits),
    decreases digits.len(),
{
    if shorter == digits.len() {
        assert(digits.subrange(0, shorter) =~= digits);
    } else {
        let front = digits.drop_last();
        assert(front.subrange(0, shorter) =~= digits.subrange(0, shorter));
        lemma_decimal_value_grows(front, shorter);
    }
}

/// Reads the bytes of `text` from `from` up to `to` as a decimal number.
fn parse_number(text: &[u8], from: usize, to: usize) -> (number: Option<u64>)
    requires
        from <= to <= text@.len(),
    ensures
        number == spec_number(text@.subrange(from as int, to as int)),
{
    let ghost digits = text@.subrange(from as int, to as int);
    if from == to {
        return None;
    }
    let mut value: u64 = 0;
    let mut i: usize = from;
    while i < to
        invariant
            from <= i <= to <= text@.len(),
            digits == text@.subrange(from as int, to as int),
            forall|j: int| 0 <= j < i - from ==> is_digit(#[trigger] digits[j]),
            value == decimal_value(digits.subrange(0, i - from)),
        decreases to - i,
    {
        let byte = text[i];
        assert(byte == digits[i - from]);
        if byte < 0x30 || byte > 0x39 {
            return None;
        }
        let ghost longer = digits.subrange(0, i - from + 1);
        assert(longer.drop_last() =~= digits.subrange(0, i - from));
        assert(longer.last() == byte);
        let digit = (byte - 0x30) as u64;
        if value > (u64::MAX - digit) / 10 {
            proof {
                assert(decimal_value(longer) > u64::MAX);
                if forall|j: int| 0 <= j < digits.len() ==> is_digit(#[trigger] digits[j]) {
                    lemma_decimal_value_grows(digits, i - from + 1);
                }
            }
            return None;
        }
        value = value * 10 + digit;
        i = i + 1;
    }
    assert(digits.subrange(0, i - from) =~= digits);
    Some(value)
}

/// The bytes `bytes=`, with which the value of a range header begins.
pub open spec fn range_unit() -> Seq<u8> {
    seq![0x62u8, 0x79u8, 0x74u8, 0x65u8, 0x73u8, 0x3Du8]
}

/// The byte `-`, which parts the two ends of a range.
pub const DASH: u8 = 0x2D;

/// The place of the first `-` in `text`, or the length of `text` if it
/// holds none.
pub open spec fn first_dash(text: Seq<u8>) -> int
    decreases text.len(),
{
    if text.len() == 0 || text[0] == DASH {
        0
    } else {
        1 + first_dash(text.drop_first())
    }
}

/// The range that the value of a range header asks for.
///
/// The value is `bytes=` and then one of `first-last`, `first-` and
/// `-length`, in decimal digits; `last` is the last byte asked for, so the
/// span ends one behind it. Any other value, one that lists several ranges
/// among them, asks for no range.
pub open spec fn spec_parse_range(header: Seq<u8>) -> Option<ByteRange> {
    if header.len() < 6 || header.subrange(0, 6) != range_unit() {
        None
    } else {
        let ends = header.subrange(6, header.len() as int);
        let dash = first_dash(ends);
        if dash >= ends.len() {
            None
        } else {
            let first = ends.subrange(0, dash);
            let last = ends.subrange(dash + 1, ends.len() as int);
            if first.len() == 0 {
                match spec_number(last) {
                    Some(length) => Some(ByteRange::Last { length }),
                    None => None,
                }
            } else if last.len() == 0 {
                match spec_number(first) {
                    Some(start) => Some(ByteRange::StartingAt { start }),
                    None => None,
                }
            } else {
                match (spec_number(first), spec_number(last)) {
                    (Some(start), Some(last)) => if last < u64::MAX {
                        Some(ByteRange::Between { start, end: (last + 1) as u64 })
                    } else {
                        None
                    },
                    _ => None,
                }
            }
        }
    }
}

/// At `first_dash` a `-` stands, unless the text holds none.
proof fn lemma_first_dash_found(text: Seq<u8>)
    ensures
        0 <= first_dash(text) <= text.len(),
        first_dash(text) < text.len() ==> text[first_dash(text)] == DASH,
    decreases text.len(),
{
    if text.len() == 0 || text[0] == DASH {
    } else {
        lemma_first_dash_found(text.drop_first());
    }
}

/// `first_dash` is the one place before which no `-` stands and at which
/// one does, or the text ends.
proof fn lemma_first_dash(text: Seq<u8>, at: int)
    requires
        0 <= at <= text.len(),
        forall|i: int| 0 <= i < at ==> text[i] != DASH,
        at < text.len() ==> text[at] == DASH,
    ensures
        first_dash(text) == at,
    decreases text.len(),
{
    if text.len() == 0 || text[0] == DASH {
    } else {
        let rest = text.drop_first();
        assert forall|i: int| 0 <= i < at - 1 implies rest[i] != DASH by {
            assert(rest[i] == text[i + 1]);
        }
        if at < text.len() {
            assert(rest[at - 1] == text[at]);
        }
        lemma_first_dash(rest, at - 1);
    }
}

/// The byte `,`, which parts the ranges of a list.
pub const COMMA: u8 = 0x2C;

/// A header that lists several ranges asks for no range.
pub proof fn lemma_list_of_ranges_asks_for_none(header: Seq<u8>)
    requires
        header.contains(COMMA),
    ensures
        spec_parse_range(header) is None,
{
    let at = choose|i: int| 0 <= i < header.len() && header[i] == COMMA;
    if header.len() >= 6 && header.subrange(0, 6) == range_unit() {
        if at < 6 {
            assert(header.subrange(0, 6)[at] == header[at]);
        } else {
            let ends = header.subrange(6, header.len() as int);
            let dash = first_dash(ends);
            assert(ends[at - 6] == COMMA);
            lemma_first_dash_found(ends);
            if dash < ends.len() {
                let first = ends.subrange(0, dash);
                let last = ends.subrange(dash + 1, ends.len() as int);
                if at - 6 < dash {
                    assert(first[at - 6] == COMMA);
                    assert(!is_digit(first[at - 6]));
                } else {
                    assert(last[at - 6 - dash - 1] == COMMA);
                    assert(!is_digit(last[at - 6 - dash - 1]));
                }
            }
        }
    }
}

/// Reads the value of a range header.
pub fn parse_range(header: &[u8]) -> (range: Option<ByteRange>)
    ensures
        range == spec_parse_range(header@),
{
    let len = header.len();
    if len < 6 {
        return None;
    }
    if header[0] != 0x62 || header[1] != 0x79 || header[2] != 0x74 || header[3] != 0x65
        || header[4] != 0x73 || header[5] != 0x3D {
        assert(header@.subrange(0, 6)[0] == header@[0]);
        assert(header@.subrange(0, 6)[1] == header@[1]);
        assert(header@.subrange(0, 6)[2] == header@[2]);
        assert(header@.subrange(0, 6)[3] == header@[3]);
        assert(header@.subrange(0, 6)[4] == header@[4]);
        assert(header@.subrange(0, 6)[5] == header@[5]);
        return None;
    }
    assert(header@.subrange(0, 6) =~= range_unit());
    let ghost ends = header@.subrange(6, len as int);
    let mut dash: usize = 6;
    while dash < len && header[dash] != DASH
        invariant
            6 <= dash <= len == header@.len(),
            ends == header@.subrange(6, len as int),
            forall|i: int| 0 <= i < dash - 6 ==> ends[i] != DASH,
        decreases len - dash,
    {
        dash = dash + 1;
    }
    proof {
        lemma_first_dash(ends, dash - 6);
    }
    if dash >= len {
        return None;
    }
    assert(ends.subrange(0, dash - 6) =~= header@.subrange(6, dash as int));
    assert(ends.subrange(dash - 6 + 1, ends.len() as int) =~= header@.subrange(
        dash + 1,
        len as int,
    ));
    if dash == 6 {
        match parse_number(header, dash + 1, len) {
            Some(length) => Some(ByteRange::Last { length }),
            None => None,
        }
    } else if dash + 1 == len {
        match parse_number(header, 6, dash) {
            Some(start) => Some(ByteRange::StartingAt { start }),
            None => None,
        }
    } else {
        match (parse_number(header, 6, dash), parse_number(header, dash + 1, len)) {
            (Some(start), Some(last)) => if last < u64::MAX {
                Some(ByteRange::Between { start, end: last + 1 })
            } else {
                None
            },
            _ => None,
        }
    }
}

} // verus!
