//! Character classes of the lexer.

use vstd::prelude::*;

verus! {

/// `char::is_whitespace`: the characters with the Unicode `White_Space`
/// property.
pub open spec fn is_ws(c: char) -> bool {
    ('\t' <= c && c <= '\r') || c == ' ' || c == '\u{85}' || c == '\u{a0}' || c == '\u{1680}'
        || ('\u{2000}' <= c && c <= '\u{200a}') || c == '\u{2028}' || c == '\u{2029}'
        || c == '\u{202f}' || c == '\u{205f}' || c == '\u{3000}'
}

pub open spec fn is_digit(c: char) -> bool {
    '0' <= c && c <= '9'
}

pub open spec fn is_alpha(c: char) -> bool {
    ('a' <= c && c <= 'z') || ('A' <= c && c <= 'Z')
}

pub open spec fn is_alnum(c: char) -> bool {
    is_alpha(c) || is_digit(c)
}

pub open spec fn is_hex(c: char) -> bool {
    is_digit(c) || ('a' <= c && c <= 'f') || ('A' <= c && c <= 'F')
}

/// A blank that separates a directive's name from its arguments: white
/// space other than a line break.
pub open spec fn is_blank(c: char) -> bool {
    is_ws(c) && c != '\n' && c != '\r'
}

/// The classes of characters whose runs the lexer reads.
#[derive(Clone, Copy, PartialEq, Eq, Structural)]
pub enum CharClass {
    Digit,
    Alnum,
    Hex,
    Blank,
}

pub open spec fn class_pred(k: CharClass) -> spec_fn(char) -> bool {
    match k {
        CharClass::Digit => |c: char| is_digit(c),
        CharClass::Alnum => |c: char| is_alnum(c),
        CharClass::Hex => |c: char| is_hex(c),
        CharClass::Blank => |c: char| is_blank(c),
    }
}

/// Whether `c` is of class `k`.
pub fn in_class(k: CharClass, c: char) -> (r: bool)
    ensures
        r == class_pred(k)(c),
{
    match k {
        CharClass::Digit => is_digit_char(c),
        CharClass::Alnum => is_alnum_char(c),
        CharClass::Hex => is_hex_char(c),
        CharClass::Blank => is_blank_char(c),
    }
}

/// The number of bytes of `c` in UTF-8.
pub open spec fn utf8_width(c: char) -> nat {
    if (c as u32) < 0x80 {
        1
    } else if (c as u32) < 0x800 {
        2
    } else if (c as u32) < 0x10000 {
        3
    } else {
        4
    }
}

/// The byte offset, in UTF-8, of the `i`-th character of `cs`.
pub open spec fn byte_offset(cs: Seq<char>, i: int) -> nat
    decreases i,
{
    if i <= 0 || cs.len() == 0 {
        0
    } else if i > cs.len() {
        byte_offset(cs, cs.len() as int)
    } else {
        byte_offset(cs, i - 1) + utf8_width(cs[i - 1])
    }
}

/// The number of bytes of `cs` in UTF-8.
pub open spec fn utf8_len(cs: Seq<char>) -> nat {
    byte_offset(cs, cs.len() as int)
}

/// Byte offsets grow with the character index.
pub proof fn lemma_byte_offset_monotone(cs: Seq<char>, i: int, j: int)
    requires
        0 <= i <= j <= cs.len(),
    ensures
        byte_offset(cs, i) <= byte_offset(cs, j),
        i < j ==> byte_offset(cs, i) < byte_offset(cs, j),
    decreases j - i,
{
    if i < j {
        lemma_byte_offset_monotone(cs, i, j - 1);
    }
}

pub fn is_ws_char(c: char) -> (r: bool)
    ensures
        r == is_ws(c),
{
    ('\t' <= c && c <= '\r') || c == ' ' || c == '\u{85}' || c == '\u{a0}' || c == '\u{1680}'
        || ('\u{2000}' <= c && c <= '\u{200a}') || c == '\u{2028}' || c == '\u{2029}'
        || c == '\u{202f}' || c == '\u{205f}' || c == '\u{3000}'
}

pub fn is_digit_char(c: char) -> (r: bool)
    ensures
        r == is_digit(c),
{
    '0' <= c && c <= '9'
}

pub fn is_alpha_char(c: char) -> (r: bool)
    ensures
        r == is_alpha(c),
{
    ('a' <= c && c <= 'z') || ('A' <= c && c <= 'Z')
}

pub fn is_alnum_char(c: char) -> (r: bool)
    ensures
        r == is_alnum(c),
{
    is_alpha_char(c) || is_digit_char(c)
}

pub fn is_hex_char(c: char) -> (r: bool)
    ensures
        r == is_hex(c),
{
    is_digit_char(c) || ('a' <= c && c <= 'f') || ('A' <= c && c <= 'F')
}

pub fn is_blank_char(c: char) -> (r: bool)
    ensures
        r == is_blank(c),
{
    is_ws_char(c) && c != '\n' && c != '\r'
}

/// The number of bytes of `c` in UTF-8.
pub fn utf8_width_of(c: char) -> (r: u64)
    ensures
        r == utf8_width(c),
{
    let v = c as u32;
    if v < 0x80 {
        1
    } else if v < 0x800 {
        2
    } else if v < 0x10000 {
        3
    } else {
        4
    }
}

} // verus!
