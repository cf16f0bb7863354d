//! Byte offsets to the positions of the Language Server Protocol: a
//! 0-based line, and a character offset in UTF-16 code units within the
//! line (the protocol's default encoding).

use vstd::prelude::*;

use crate::ast::Span;
use crate::lexer::chars::{byte_offset, lemma_byte_offset_monotone, utf8_len, utf8_width, utf8_width_of};
use crate::strings::chars_of;

verus! {

/// A 0-based line and a UTF-16 offset within it.
#[derive(Debug, Clone, Copy, PartialEq, Eq, Structural)]
pub struct Position {
    pub line: u32,
    pub character: u32,
}

/// From one position to another.
#[derive(Debug, Clone, Copy, PartialEq, Eq, Structural)]
pub struct Range {
    pub start: Position,
    pub end: Position,
}

/// The UTF-16 code units of a character: two outside the Basic
/// Multilingual Plane, else one.
pub open spec fn utf16_width(c: char) -> int {
    if (c as u32) < 0x10000 {
        1
    } else {
        2
    }
}

/// The line and UTF-16 character offset of the character at index `k`.
pub open spec fn position_at(cs: Seq<char>, k: int) -> (int, int)
    decreases k,
{
    if k <= 0 {
        (0, 0)
    } else {
        let (l, c) = position_at(cs, k - 1);
        if cs[k - 1] == '\n' {
            (l + 1, 0)
        } else {
            (l, c + utf16_width(cs[k - 1]))
        }
    }
}

/// Whether `k` is the index of the last character boundary at or before
/// byte `b` (the end of the text when `b` is past it).
pub open spec fn is_boundary_at_or_before(cs: Seq<char>, b: int, k: int) -> bool {
    &&& 0 <= k <= cs.len()
    &&& byte_offset(cs, k) <= b
    &&& (k == cs.len() || byte_offset(cs, k + 1) > b)
}

fn utf16_width_of(c: char) -> (r: u32)
    ensures
        r == utf16_width(c),
        r <= utf8_width(c),
{
    if (c as u32) < 0x10000 {
        1
    } else {
        2
    }
}

/// The position of byte `byte_offset` of `source`. An offset past the end
/// is moved back to the end, and one inside a character back to the start
/// of that character.
pub fn offset_to_position(source: &str, offset: usize) -> (r: Position)
    requires
        utf8_len(source@) <= u32::MAX,
    ensures
        forall|k: int| is_boundary_at_or_before(source@, offset as int, k)
            ==> (r.line as int, r.character as int) == position_at(source@, k),
{
    let cs = chars_of(source);
    let mut line: u32 = 0;
    let mut character: u32 = 0;
    let mut b: u64 = 0;
    let mut i: usize = 0;
    proof {
        lemma_byte_offset_monotone(cs@, 0, cs@.len() as int);
    }
    while i < cs.len() && b + utf8_width_of(cs[i]) <= offset as u64
        invariant
            i <= cs.len(),
            cs@ == source@,
            b == byte_offset(cs@, i as int),
            b <= offset,
            utf8_len(cs@) <= u32::MAX,
            (line as int, character as int) == position_at(cs@, i as int),
            line <= b,
            character <= b,
            b <= utf8_len(cs@),
        decreases cs.len() - i,
    {
        proof {
            lemma_byte_offset_monotone(cs@, i + 1, cs@.len() as int);
        }
        let c = cs[i];
        if c == '\n' {
            line = line + 1;
            character = 0;
        } else {
            character = character + utf16_width_of(c);
        }
        b = b + utf8_width_of(c);
        i = i + 1;
    }
    proof {
        assert forall|k: int| is_boundary_at_or_before(source@, offset as int, k) implies k == i by {
            if k < i {
                lemma_byte_offset_monotone(cs@, k + 1, i as int);
            } else if k > i {
                lemma_byte_offset_monotone(cs@, i + 1, k);
            }
        }
    }
    Position { line, character }
}

/// The range of `span` in `source`.
pub fn span_to_range(source: &str, span: Span) -> (r: Range)
    requires
        utf8_len(source@) <= u32::MAX,
    ensures
        forall|k: int| is_boundary_at_or_before(source@, span.start as int, k)
            ==> (r.start.line as int, r.start.character as int) == position_at(source@, k),
        forall|k: int| is_boundary_at_or_before(source@, span.end as int, k)
            ==> (r.end.line as int, r.end.character as int) == position_at(source@, k),
{
    let start = offset_to_position(source, span.start as usize);
    let end = offset_to_position(source, span.end as usize);
    Range { start, end }
}


/// The UTF-16 encoding of a character: its code point as one 16-bit unit
/// when it fits, else a surrogate pair (a high surrogate carrying the top
/// ten bits of `c - 0x10000`, a low surrogate the bottom ten).
pub open spec fn utf16_encode(c: char) -> Seq<u16> {
    let v = c as u32 as int;
    if v < 0x10000 {
        seq![v as u16]
    } else {
        seq![(0xD800 + (v - 0x10000) / 0x400) as u16, (0xDC00 + (v - 0x10000) % 0x400) as u16]
    }
}

/// The code point that a sequence of one or two UTF-16 units stands for.
pub open spec fn utf16_decode(units: Seq<u16>) -> int {
    if units.len() == 1 {
        units[0] as int
    } else {
        0x10000 + (units[0] - 0xD800) * 0x400 + (units[1] - 0xDC00)
    }
}

/// A character takes `utf16_width(c)` UTF-16 code units: exactly as many
/// as its encoding has, which decodes back to the character, a lone unit
/// being no surrogate and a pair being a high then a low surrogate. So a
/// character outside the Basic Multilingual Plane takes two units.
pub proof fn lemma_utf16_width_is_the_encoding_length(c: char)
    ensures
        utf16_encode(c).len() == utf16_width(c),
        utf16_decode(utf16_encode(c)) == c as u32,
        utf16_width(c) == 1 ==> !(0xD800 <= utf16_encode(c)[0] < 0xE000),
        utf16_width(c) == 2 ==> 0xD800 <= utf16_encode(c)[0] < 0xDC00 && 0xDC00 <= utf16_encode(c)[1] < 0xE000,
        1 <= utf16_width(c) <= 2,
{
    let v = c as u32 as int;
    assert(v <= 0x10FFFF);
    assert(!(0xD800 <= v < 0xE000));
    if v >= 0x10000 {
        let w = v - 0x10000;
        assert(0 <= w < 0x100000);
        assert(w == 0x400 * (w / 0x400) + w % 0x400);
        assert(0 <= w / 0x400 < 0x400);
        assert(0 <= w % 0x400 < 0x400);
    }
}


/// The UTF-16 encoding of a text, character by character.
pub open spec fn utf16_text(cs: Seq<char>) -> Seq<u16>
    decreases cs.len(),
{
    if cs.len() == 0 {
        Seq::empty()
    } else {
        utf16_text(cs.drop_last()) + utf16_encode(cs.last())
    }
}

/// The number of line breaks in a text.
pub open spec fn line_breaks(cs: Seq<char>) -> int
    decreases cs.len(),
{
    if cs.len() == 0 {
        0
    } else {
        line_breaks(cs.drop_last()) + if cs.last() == '\n' { 1int } else { 0 }
    }
}

/// The text after the last line break (all of it when there is none).
pub open spec fn last_line(cs: Seq<char>) -> Seq<char>
    decreases cs.len(),
{
    if cs.len() == 0 {
        Seq::empty()
    } else if cs.last() == '\n' {
        Seq::empty()
    } else {
        last_line(cs.drop_last()).push(cs.last())
    }
}

/// The position of the character at index `k` is the number of line breaks
/// before it, and the length in UTF-16 code units of the part of its line
/// before it.
pub proof fn lemma_position_counts_lines_and_utf16_units(cs: Seq<char>, k: int)
    requires
        0 <= k <= cs.len(),
    ensures
        position_at(cs, k) == (line_breaks(cs.take(k)), utf16_text(last_line(cs.take(k))).len() as int),
    decreases k,
{
    if k > 0 {
        lemma_position_counts_lines_and_utf16_units(cs, k - 1);
        let t = cs.take(k);
        assert(t.drop_last() =~= cs.take(k - 1));
        assert(t.last() == cs[k - 1]);
        if cs[k - 1] != '\n' {
            let l = last_line(cs.take(k - 1));
            assert(last_line(t) == l.push(cs[k - 1]));
            assert(l.push(cs[k - 1]).drop_last() =~= l);
            lemma_utf16_width_is_the_encoding_length(cs[k - 1]);
        }
    } else {
        assert(cs.take(0) =~= Seq::<char>::empty());
    }
}

} // verus!
