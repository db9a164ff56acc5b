//! Positions in a source text as editors and terminals count them: lines
//! from zero, and within a line UTF-16 code units (for the language server)
//! or characters (for the command line). Offsets are UTF-8 byte offsets.

use vstd::prelude::*;
use crate::engine::{char_boundary, line_start, newlines_before};

verus! {

/// A position as the language server protocol counts it: a line and a
/// UTF-16 code unit within it, both from zero.
#[derive(Clone, Copy, Debug, PartialEq, Eq, Structural)]
pub struct Position {
    pub line: u32,
    pub character: u32,
}

impl Position {
    /// A position on `line` at code unit `character`.
    pub fn new(line: u32, character: u32) -> (p: Position)
        ensures
            p.line == line,
            p.character == character,
    {
        Position { line, character }
    }
}

/// Whether byte `i` begins a character: it is no UTF-8 continuation byte.
pub open spec fn starts_char(bytes: Seq<u8>, i: int) -> bool {
    !(0x80 <= bytes[i] && bytes[i] < 0xC0)
}

/// The UTF-16 code units of the character whose first byte is `b`: two for
/// a character of four bytes, one for a shorter one.
pub open spec fn unit_width(b: u8) -> nat {
    if b >= 0xF0 {
        2
    } else {
        1
    }
}

/// The UTF-16 code units that the characters starting in bytes
/// `from..to` take.
pub open spec fn utf16_units(bytes: Seq<u8>, from: int, to: int) -> nat
    decreases to - from,
{
    if to <= from {
        0
    } else {
        utf16_units(bytes, from, to - 1) + if starts_char(bytes, to - 1) {
            unit_width(bytes[to - 1])
        } else {
            0
        }
    }
}

/// The number of characters starting in bytes `from..to`.
pub open spec fn chars_between(bytes: Seq<u8>, from: int, to: int) -> nat
    decreases to - from,
{
    if to <= from {
        0
    } else {
        chars_between(bytes, from, to - 1) + if starts_char(bytes, to - 1) {
            1nat
        } else {
            0
        }
    }
}

/// The last character boundary at or before byte `k`.
pub open spec fn floor_boundary(bytes: Seq<u8>, k: int) -> int
    decreases k,
{
    if k <= 0 {
        0
    } else if char_boundary(bytes, k) {
        k
    } else {
        floor_boundary(bytes, k - 1)
    }
}

/// `n` saturated to the range of `u32`.
pub open spec fn saturate(n: int) -> u32 {
    if n > u32::MAX {
        u32::MAX
    } else {
        n as u32
    }
}

proof fn lemma_floor_boundary(bytes: Seq<u8>, k: int)
    requires
        0 <= k <= bytes.len(),
    ensures
        0 <= floor_boundary(bytes, k) <= k,
        char_boundary(bytes, floor_boundary(bytes, k)),
        forall|j: int| floor_boundary(bytes, k) < j <= k ==> !char_boundary(bytes, j),
    decreases k,
{
    if k > 0 && !char_boundary(bytes, k) {
        lemma_floor_boundary(bytes, k - 1);
    }
}

proof fn lemma_newlines_monotone(bytes: Seq<u8>, a: int, b: int)
    requires
        0 <= a <= b <= bytes.len(),
    ensures
        newlines_before(bytes, a) <= newlines_before(bytes, b),
        newlines_before(bytes, b) <= newlines_before(bytes, a) + (b - a),
    decreases b - a,
{
    if a < b {
        lemma_newlines_monotone(bytes, a, b - 1);
    }
}

proof fn lemma_line_start_bound(bytes: Seq<u8>, k: int)
    requires
        0 <= k <= bytes.len(),
    ensures
        0 <= line_start(bytes, k) <= k,
    decreases k,
{
    if k > 0 {
        lemma_line_start_bound(bytes, k - 1);
    }
}

proof fn lemma_chars_between_bound(bytes: Seq<u8>, from: int, to: int)
    requires
        from <= to,
    ensures
        chars_between(bytes, from, to) <= to - from,
    decreases to - from,
{
    if from < to {
        lemma_chars_between_bound(bytes, from, to - 1);
    }
}

/// The last character boundary of `source` at or before byte `offset`.
pub fn floor_char_boundary(source: &str, offset: usize) -> (r: usize)
    ensures
        r as int == floor_boundary(vstd::utf8::encode_utf8(source@), offset as int),
        r <= offset,
        char_boundary(vstd::utf8::encode_utf8(source@), r as int),
        forall|k: int| r < k <= offset ==> !char_boundary(vstd::utf8::encode_utf8(source@), k),
{
    let bytes = source.as_bytes();
    let ghost b = bytes@;
    let mut k: usize = if offset < bytes.len() { offset } else { bytes.len() };
    proof {
        assert forall|j: int| k < j <= offset implies !char_boundary(b, j) by {}
        if offset > k {
            lemma_floor_above_end(b, offset as int, k as int);
        }
    }
    while k > 0 && !(k == bytes.len() || !(0x80 <= bytes[k] && bytes[k] < 0xC0))
        invariant
            k <= b.len(),
            k <= offset,
            b == bytes@,
            floor_boundary(b, offset as int) == floor_boundary(b, k as int),
            forall|j: int| k < j <= offset ==> !char_boundary(b, j),
        decreases k,
    {
        k = k - 1;
    }
    k
}

proof fn lemma_floor_above_end(bytes: Seq<u8>, k: int, end: int)
    requires
        end == bytes.len(),
        end <= k,
    ensures
        floor_boundary(bytes, k) == floor_boundary(bytes, end),
    decreases k - end,
{
    if k > end {
        lemma_floor_above_end(bytes, k - 1, end);
    }
}

/// The language server position of byte `offset` of `source`: the offset
/// is first brought into the text and back to a character boundary; the
/// line is the number of line feeds before it and the character the UTF-16
/// code units between its line's start and it, each saturated to `u32`.
pub fn position_at(source: &str, offset: usize) -> (p: Position)
    ensures
        ({
            let bytes = vstd::utf8::encode_utf8(source@);
            let k = floor_boundary(bytes, if offset <= bytes.len() { offset as int } else { bytes.len() as int });
            &&& p.line == saturate(newlines_before(bytes, k) as int)
            &&& p.character == saturate(utf16_units(bytes, line_start(bytes, k), k) as int)
        }),
{
    let bytes = source.as_bytes();
    let ghost b = bytes@;
    let end = if offset < bytes.len() { offset } else { bytes.len() };
    let safe = floor_char_boundary(source, end);
    proof {
        lemma_floor_boundary(b, end as int);
    }
    let mut lines: usize = 0;
    let mut start: usize = 0;
    let mut units: u32 = 0;
    let mut i: usize = 0;
    while i < safe
        invariant
            b == bytes@,
            safe <= b.len(),
            i <= safe,
            start <= i,
            lines == newlines_before(b, i as int),
            start == line_start(b, i as int),
            units == saturate(utf16_units(b, start as int, i as int) as int),
        decreases safe - i,
    {
        proof {
            lemma_newlines_monotone(b, 0, i as int);
            lemma_line_start_bound(b, i as int);
        }
        if bytes[i] == 10 {
            lines = lines + 1;
            start = i + 1;
            units = 0;
        } else if !(0x80 <= bytes[i] && bytes[i] < 0xC0) {
            let width: u32 = if bytes[i] >= 0xF0 { 2 } else { 1 };
            units = if units > u32::MAX - width { u32::MAX } else { units + width };
        }
        i = i + 1;
    }
    let line: u32 = if lines > u32::MAX as usize { u32::MAX } else { lines as u32 };
    Position::new(line, units)
}

/// The byte offset of language server position `position` in `source`.
/// Past the last line it is the end of the text. On a line, it is the
/// first character whose UTF-16 end lies beyond `position.character`, or
/// the end of the line when there is none.
pub fn offset_at(source: &str, position: Position) -> (r: usize)
    ensures
        ({
            let bytes = vstd::utf8::encode_utf8(source@);
            let n = position.line as int;
            let c = position.character as int;
            if newlines_before(bytes, bytes.len() as int) < n {
                r == bytes.len()
            } else {
                &&& r <= bytes.len()
                &&& newlines_before(bytes, r as int) == n
                &&& (r == bytes.len() || bytes[r as int] == 10 || starts_char(bytes, r as int))
                &&& (r == bytes.len() || bytes[r as int] == 10 || utf16_units(bytes, line_start(bytes, r as int), r as int)
                    + unit_width(bytes[r as int]) > c)
                &&& forall|k: int|
                    line_start(bytes, r as int) <= k < r && #[trigger] starts_char(bytes, k) ==> utf16_units(
                        bytes,
                        line_start(bytes, r as int),
                        k,
                    ) + unit_width(bytes[k]) <= c
            }
        }),
{
    let bytes = source.as_bytes();
    let ghost b = bytes@;
    let len = bytes.len();
    let mut line_begin: usize = 0;
    if position.line > 0 {
        let mut seen: u32 = 0;
        let mut i: usize = 0;
        let mut found = false;
        while i < len
            invariant_except_break
                b == bytes@,
                len == b.len(),
                i <= len,
                seen == newlines_before(b, i as int),
                seen < position.line,
                !found,
            ensures
                b == bytes@,
                len == b.len(),
                found ==> line_begin <= len && newlines_before(b, line_begin as int) == position.line
                    && line_start(b, line_begin as int) == line_begin,
                !found ==> newlines_before(b, len as int) < position.line,
            decreases len - i,
        {
            if bytes[i] == 10 {
                seen = seen + 1;
                if seen == position.line {
                    line_begin = i + 1;
                    found = true;
                    break;
                }
            }
            i = i + 1;
        }
        if !found {
            return len;
        }
    }
    proof {
        lemma_newlines_monotone(b, line_begin as int, len as int);
    }
    let target = position.character as u64;
    let mut units: u64 = 0;
    let mut i: usize = line_begin;
    while i < len && bytes[i] != 10
        invariant
            b == bytes@,
            len == b.len(),
            line_begin <= i <= len,
            b == vstd::utf8::encode_utf8(source@),
            newlines_before(b, len as int) >= position.line,
            newlines_before(b, i as int) == position.line,
            line_start(b, i as int) == line_begin,
            units == utf16_units(b, line_begin as int, i as int),
            units <= target,
            target == position.character,
            forall|k: int|
                line_begin <= k < i && #[trigger] starts_char(b, k) ==> utf16_units(b, line_begin as int, k)
                    + unit_width(b[k]) <= target,
        decreases len - i,
    {
        if !(0x80 <= bytes[i] && bytes[i] < 0xC0) {
            let width: u64 = if bytes[i] >= 0xF0 { 2 } else { 1 };
            if units + width > target {
                return i;
            }
            units = units + width;
        }
        i = i + 1;
    }
    i
}

/// The line and character column of byte `offset` of `source`, both from
/// zero, the offset first brought into the text.
pub fn line_column(source: &str, offset: usize) -> (r: (usize, usize))
    requires
        char_boundary(
            vstd::utf8::encode_utf8(source@),
            if offset <= vstd::utf8::encode_utf8(source@).len() {
                offset as int
            } else {
                vstd::utf8::encode_utf8(source@).len() as int
            },
        ),
    ensures
        ({
            let bytes = vstd::utf8::encode_utf8(source@);
            let k = if offset <= bytes.len() { offset as int } else { bytes.len() as int };
            &&& r.0 == newlines_before(bytes, k)
            &&& r.1 == chars_between(bytes, line_start(bytes, k), k)
        }),
{
    let bytes = source.as_bytes();
    let ghost b = bytes@;
    let end = if offset < bytes.len() { offset } else { bytes.len() };
    let mut lines: usize = 0;
    let mut start: usize = 0;
    let mut column: usize = 0;
    let mut i: usize = 0;
    while i < end
        invariant
            b == bytes@,
            end <= b.len(),
            i <= end,
            start <= i,
            lines == newlines_before(b, i as int),
            start == line_start(b, i as int),
            column == chars_between(b, start as int, i as int),
        decreases end - i,
    {
        proof {
            lemma_newlines_monotone(b, 0, i as int);
            lemma_chars_between_bound(b, start as int, i as int);
        }
        if bytes[i] == 10 {
            lines = lines + 1;
            start = i + 1;
            column = 0;
        } else if !(0x80 <= bytes[i] && bytes[i] < 0xC0) {
            column = column + 1;
        }
        i = i + 1;
    }
    (lines, column)
}

} // verus!
