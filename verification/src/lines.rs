//! The mathematical model of line structure: how a byte sequence splits into
//! newline-terminated segments, and how columns (characters) are counted.

use vstd::prelude::*;
use vstd::utf8::{decode_utf8, valid_utf8};

verus! {

/// End (exclusive) of the line segment that begins at `start`: one past the
/// first newline byte at or after `start`, or the end of the byte sequence.
pub open spec fn line_end(bytes: Seq<u8>, start: int) -> int
    decreases bytes.len() - start,
    when 0 <= start <= bytes.len()
{
    if start >= bytes.len() {
        bytes.len() as int
    } else if bytes[start] == 10u8 {
        start + 1
    } else {
        line_end(bytes, start + 1)
    }
}

pub proof fn lemma_line_end_bounds(bytes: Seq<u8>, start: int)
    requires
        0 <= start <= bytes.len(),
    ensures
        start <= line_end(bytes, start) <= bytes.len(),
        start < bytes.len() ==> start < line_end(bytes, start),
    decreases bytes.len() - start,
{
    if start < bytes.len() && bytes[start] != 10u8 {
        lemma_line_end_bounds(bytes, start + 1);
    }
}

/// Number of line segments from `start` to the end of the bytes; a trailing
/// unterminated run of bytes counts as one segment.
pub open spec fn count_lines_from(bytes: Seq<u8>, start: int) -> nat
    decreases bytes.len() - start,
    when 0 <= start <= bytes.len()
    via count_lines_from_dec
{
    if start >= bytes.len() {
        0
    } else {
        1 + count_lines_from(bytes, line_end(bytes, start))
    }
}

#[via_fn]
proof fn count_lines_from_dec(bytes: Seq<u8>, start: int) {
    if 0 <= start < bytes.len() {
        lemma_line_end_bounds(bytes, start);
    }
}

/// The whole line segment beginning at `start`, terminator included.
pub open spec fn seg_of(bytes: Seq<u8>, start: int) -> Seq<u8> {
    bytes.subrange(start, line_end(bytes, start))
}

/// A segment without its terminator, if it has one.
pub open spec fn content_of(seg: Seq<u8>) -> Seq<u8> {
    if seg.len() > 0 && seg.last() == 10u8 {
        seg.drop_last()
    } else {
        seg
    }
}

/// Column count of a line's content: one column per decoded character when
/// the content is valid UTF-8, and one per raw byte otherwise (the documented
/// degraded mode for undecodable lines).
pub open spec fn cols_of(content: Seq<u8>) -> nat {
    if valid_utf8(content) {
        decode_utf8(content).len()
    } else {
        content.len()
    }
}

/// The characters of the line beginning at `start`; an undecodable line has
/// no characters to show.
pub open spec fn line_chars_at(bytes: Seq<u8>, start: int) -> Seq<char> {
    let content = content_of(seg_of(bytes, start));
    if valid_utf8(content) {
        decode_utf8(content)
    } else {
        Seq::<char>::empty()
    }
}

/// The larger of two counts.
pub open spec fn nat_max(a: nat, b: nat) -> nat {
    if a >= b {
        a
    } else {
        b
    }
}

/// Largest column count among the segments from `start` onward.
pub open spec fn max_cols_from(bytes: Seq<u8>, start: int) -> nat
    decreases bytes.len() - start,
    when 0 <= start <= bytes.len()
    via max_cols_from_dec
{
    if start >= bytes.len() {
        0
    } else {
        nat_max(
            cols_of(content_of(seg_of(bytes, start))),
            max_cols_from(bytes, line_end(bytes, start)),
        )
    }
}

#[via_fn]
proof fn max_cols_from_dec(bytes: Seq<u8>, start: int) {
    if 0 <= start < bytes.len() {
        lemma_line_end_bounds(bytes, start);
    }
}

/// What a scan that saw no newline byte in `[start, j)` and stopped at `j`
/// has established about where the segment at `start` ends.
pub proof fn lemma_line_end_scan(bytes: Seq<u8>, start: int, j: int)
    requires
        0 <= start <= j <= bytes.len(),
        forall|t: int| start <= t < j ==> bytes[t] != 10u8,
        j < bytes.len() ==> bytes[j] == 10u8,
    ensures
        line_end(bytes, start) == if j < bytes.len() {
            j + 1
        } else {
            bytes.len() as int
        },
    decreases j - start,
{
    if start < j {
        lemma_line_end_scan(bytes, start + 1, j);
    }
}

/// The clamped character window `[col_start, col_end)` of a line's
/// characters: `col_end` is clamped to the character count and `col_start`
/// to the clamped end, so any request denotes a window.
pub open spec fn window(cs: Seq<char>, col_start: int, col_end: int) -> Seq<char> {
    let e = if col_end <= cs.len() {
        col_end
    } else {
        cs.len() as int
    };
    let s = if col_start <= e {
        col_start
    } else {
        e
    };
    cs.subrange(s, e)
}

/// An empty column range selects no characters, on any line.
pub proof fn lemma_window_empty(cs: Seq<char>, col: int)
    requires
        0 <= col,
    ensures
        window(cs, col, col) == Seq::<char>::empty(),
{
    assert(window(cs, col, col) =~= Seq::<char>::empty());
}

/// Clamping is idempotent: any `col_end` at or past the line's character
/// count selects the same window as the exact character count.
pub proof fn lemma_window_clamp(cs: Seq<char>, col_start: int, col_end: int)
    requires
        col_end >= cs.len(),
    ensures
        window(cs, col_start, col_end) == window(cs, col_start, cs.len() as int),
{
    assert(window(cs, col_start, col_end) =~= window(cs, col_start, cs.len() as int));
}

} // verus!
