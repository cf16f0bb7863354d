//! What the lexer produces, stated over the characters of the source.
//!
//! Positions here are character indices; a token's span holds the byte
//! offsets (UTF-8) of its first character and of the character after it.

use vstd::prelude::*;

use crate::lexer::chars::{class_pred, is_alpha, is_digit, is_ws, CharClass};
use crate::lexer::token::{keyword_tag, KindModel, TokenTag};

verus! {

/// A diagnostic of the lexer: an error over the characters
/// `start..end`.
pub struct DiagSpec {
    pub start: int,
    pub end: int,
    pub message: Seq<char>,
}

/// A token over the characters `start..end`.
pub struct TokSpec {
    pub kind: KindModel,
    pub start: int,
    pub end: int,
}

/// What scanning one token gives: the token, if any (an unexpected
/// character gives none), the position after it, and its diagnostics.
pub struct Scan {
    pub kind: Option<KindModel>,
    pub end: int,
    pub diags: Seq<DiagSpec>,
}

pub open spec fn diag(start: int, end: int, message: Seq<char>) -> DiagSpec {
    DiagSpec { start, end, message }
}

/// The end of the run of characters satisfying `p` that starts at `i`.
pub open spec fn run_end(cs: Seq<char>, i: int, p: spec_fn(char) -> bool) -> int
    decreases cs.len() - i,
{
    if 0 <= i < cs.len() && p(cs[i]) {
        run_end(cs, i + 1, p)
    } else {
        i
    }
}

pub proof fn lemma_run_end(cs: Seq<char>, i: int, p: spec_fn(char) -> bool)
    requires
        0 <= i <= cs.len(),
    ensures
        i <= run_end(cs, i, p) <= cs.len(),
        forall|k: int| i <= k < run_end(cs, i, p) ==> p(#[trigger] cs[k]),
        run_end(cs, i, p) < cs.len() ==> !p(cs[run_end(cs, i, p)]),
    decreases cs.len() - i,
{
    if i < cs.len() && p(cs[i]) {
        lemma_run_end(cs, i + 1, p);
    }
}

/// The index of the first `c` at or after `i`, or the length.
pub open spec fn find_char(cs: Seq<char>, i: int, c: char) -> int
    decreases cs.len() - i,
{
    if i < 0 || i >= cs.len() {
        cs.len() as int
    } else if cs[i] == c {
        i
    } else {
        find_char(cs, i + 1, c)
    }
}

pub proof fn lemma_find_char(cs: Seq<char>, i: int, c: char)
    requires
        0 <= i <= cs.len(),
    ensures
        i <= find_char(cs, i, c) <= cs.len(),
        find_char(cs, i, c) < cs.len() ==> cs[find_char(cs, i, c)] == c,
        forall|k: int| i <= k < find_char(cs, i, c) ==> cs[k] != c,
    decreases cs.len() - i,
{
    if i < cs.len() && cs[i] != c {
        lemma_find_char(cs, i + 1, c);
    }
}

/// The index of the first `*)` at or after `i`, or the length.
pub open spec fn find_close(cs: Seq<char>, i: int) -> int
    decreases cs.len() - i,
{
    if i < 0 || i >= cs.len() {
        cs.len() as int
    } else if i + 1 < cs.len() && cs[i] == '*' && cs[i + 1] == ')' {
        i
    } else {
        find_close(cs, i + 1)
    }
}

pub proof fn lemma_find_close(cs: Seq<char>, i: int)
    requires
        0 <= i <= cs.len(),
    ensures
        i <= find_close(cs, i) <= cs.len(),
        find_close(cs, i) < cs.len() ==> find_close(cs, i) + 1 < cs.len() && cs[find_close(cs, i)]
            == '*' && cs[find_close(cs, i) + 1] == ')',
    decreases cs.len() - i,
{
    if i < cs.len() && !(i + 1 < cs.len() && cs[i] == '*' && cs[i + 1] == ')') {
        lemma_find_close(cs, i + 1);
    }
}

/// The end of a `{ ... }` comment that opens at `i`: after the first `}`,
/// or the end of the source when there is none.
pub open spec fn brace_end(cs: Seq<char>, i: int) -> int {
    let f = find_char(cs, i + 1, '}');
    if f < cs.len() {
        f + 1
    } else {
        cs.len() as int
    }
}

/// The end of a `(* ... *)` comment that opens at `i`.
pub open spec fn paren_end(cs: Seq<char>, i: int) -> int {
    let f = find_close(cs, i + 2);
    if f < cs.len() {
        f + 2
    } else {
        cs.len() as int
    }
}

/// `(*` opens a comment unless a `$` follows: `(*$` opens a compiler
/// directive.
pub open spec fn opens_paren_comment(cs: Seq<char>, i: int) -> bool {
    &&& 0 <= i
    &&& i + 1 < cs.len()
    &&& cs[i] == '('
    &&& cs[i + 1] == '*'
    &&& !(i + 2 < cs.len() && cs[i + 2] == '$')
}

pub proof fn lemma_comment_ends(cs: Seq<char>, i: int)
    requires
        0 <= i < cs.len(),
    ensures
        cs[i] == '{' ==> i < brace_end(cs, i) <= cs.len(),
        opens_paren_comment(cs, i) ==> i < paren_end(cs, i) <= cs.len(),
{
    lemma_find_char(cs, i + 1, '}');
    if i + 2 <= cs.len() {
        lemma_find_close(cs, i + 2);
    }
}

/// The position after the white space and comments that start at `i`.
pub open spec fn trivia_end(cs: Seq<char>, i: int) -> int
    decreases cs.len() - i,
{
    if i < 0 || i >= cs.len() {
        i
    } else if is_ws(cs[i]) {
        trivia_end(cs, i + 1)
    } else if cs[i] == '{' {
        proof {
            lemma_comment_ends(cs, i);
        }
        trivia_end(cs, brace_end(cs, i))
    } else if opens_paren_comment(cs, i) {
        proof {
            lemma_comment_ends(cs, i);
        }
        trivia_end(cs, paren_end(cs, i))
    } else {
        i
    }
}

/// The diagnostics of the white space and comments that start at `i`: an
/// error for a comment that the source leaves open.
pub open spec fn trivia_diags(cs: Seq<char>, i: int) -> Seq<DiagSpec>
    decreases cs.len() - i,
{
    if i < 0 || i >= cs.len() {
        Seq::empty()
    } else if is_ws(cs[i]) {
        trivia_diags(cs, i + 1)
    } else if cs[i] == '{' {
        proof {
            lemma_comment_ends(cs, i);
        }
        (if find_char(cs, i + 1, '}') < cs.len() {
            Seq::empty()
        } else {
            seq![diag(i, cs.len() as int, "unterminated comment (missing closing '}')"@)]
        }) + trivia_diags(cs, brace_end(cs, i))
    } else if opens_paren_comment(cs, i) {
        proof {
            lemma_comment_ends(cs, i);
        }
        (if find_close(cs, i + 2) < cs.len() {
            Seq::empty()
        } else {
            seq![diag(i, cs.len() as int, "unterminated comment (missing closing '*)')"@)]
        }) + trivia_diags(cs, paren_end(cs, i))
    } else {
        Seq::empty()
    }
}

pub proof fn lemma_trivia_end(cs: Seq<char>, i: int)
    requires
        0 <= i <= cs.len(),
    ensures
        i <= trivia_end(cs, i) <= cs.len(),
        trivia_end(cs, i) < cs.len() ==> {
            let j = trivia_end(cs, i);
            &&& !is_ws(cs[j])
            &&& cs[j] != '{'
            &&& !opens_paren_comment(cs, j)
        },
    decreases cs.len() - i,
{
    if i < cs.len() {
        lemma_comment_ends(cs, i);
        if is_ws(cs[i]) {
            lemma_trivia_end(cs, i + 1);
        } else if cs[i] == '{' {
            lemma_trivia_end(cs, brace_end(cs, i));
        } else if opens_paren_comment(cs, i) {
            lemma_trivia_end(cs, paren_end(cs, i));
        }
    }
}

/// The value of a run of decimal digits.
pub open spec fn decimal_value(s: Seq<char>) -> nat
    decreases s.len(),
{
    if s.len() == 0 {
        0
    } else {
        decimal_value(s.drop_last()) * 10 + ((s.last() as u32) - ('0' as u32)) as nat
    }
}

/// The value of a hexadecimal digit.
pub open spec fn hex_digit_value(c: char) -> nat {
    if is_digit(c) {
        ((c as u32) - ('0' as u32)) as nat
    } else if 'a' <= c && c <= 'f' {
        ((c as u32) - ('a' as u32) + 10) as nat
    } else {
        ((c as u32) - ('A' as u32) + 10) as nat
    }
}

/// The value of a run of hexadecimal digits.
pub open spec fn hex_value(s: Seq<char>) -> nat
    decreases s.len(),
{
    if s.len() == 0 {
        0
    } else {
        hex_value(s.drop_last()) * 16 + hex_digit_value(s.last())
    }
}

/// An identifier or a reserved word at `i`: a letter, then letters and
/// digits.
pub open spec fn ident_scan(cs: Seq<char>, i: int) -> Scan {
    let e = run_end(cs, i + 1, class_pred(CharClass::Alnum));
    let text = cs.subrange(i, e);
    Scan {
        kind: Some(
            match keyword_tag(text) {
                Some(t) => KindModel::bare(t),
                None => KindModel { tag: TokenTag::Identifier, text, args: Seq::empty(), value: 0 },
            },
        ),
        end: e,
        diags: Seq::empty(),
    }
}

/// The end of the digits of a number that starts at `i`.
pub open spec fn int_part_end(cs: Seq<char>, i: int) -> int {
    run_end(cs, i, class_pred(CharClass::Digit))
}

/// Whether a fraction follows the integer part ending at `e1`: a `.` and
/// a digit (so that `1..10` stays a range).
pub open spec fn has_fraction(cs: Seq<char>, e1: int) -> bool {
    e1 + 1 < cs.len() && cs[e1] == '.' && is_digit(cs[e1 + 1])
}

pub open spec fn fraction_end(cs: Seq<char>, e1: int) -> int {
    if has_fraction(cs, e1) {
        run_end(cs, e1 + 1, class_pred(CharClass::Digit))
    } else {
        e1
    }
}

/// Where the exponent's digits would start after `e2`: past the `e` and
/// an optional sign.
pub open spec fn exponent_digits_start(cs: Seq<char>, e2: int) -> int {
    if e2 + 1 < cs.len() && (cs[e2 + 1] == '+' || cs[e2 + 1] == '-') {
        e2 + 2
    } else {
        e2 + 1
    }
}

/// Whether an exponent follows at `e2`: `e` or `E`, an optional sign and
/// at least one digit.
pub open spec fn has_exponent(cs: Seq<char>, e2: int) -> bool {
    let la = exponent_digits_start(cs, e2);
    &&& 0 <= e2 < cs.len()
    &&& (cs[e2] == 'e' || cs[e2] == 'E')
    &&& la < cs.len()
    &&& is_digit(cs[la])
}

pub open spec fn number_end(cs: Seq<char>, i: int) -> int {
    let e2 = fraction_end(cs, int_part_end(cs, i));
    if has_exponent(cs, e2) {
        run_end(cs, exponent_digits_start(cs, e2), class_pred(CharClass::Digit))
    } else {
        e2
    }
}

/// A number at `i`: a real literal when a fraction or an exponent
/// follows the digits, else an integer literal, which is zero, with an
/// error, when it exceeds `i64::MAX`.
pub open spec fn number_scan(cs: Seq<char>, i: int) -> Scan {
    let e1 = int_part_end(cs, i);
    let e2 = fraction_end(cs, e1);
    let e = number_end(cs, i);
    let text = cs.subrange(i, e);
    if has_fraction(cs, e1) || has_exponent(cs, e2) {
        Scan {
            kind: Some(KindModel { tag: TokenTag::RealLiteral, text, args: Seq::empty(), value: 0 }),
            end: e,
            diags: Seq::empty(),
        }
    } else if decimal_value(text) <= i64::MAX {
        Scan {
            kind: Some(
                KindModel {
                    tag: TokenTag::IntegerLiteral,
                    text: Seq::empty(),
                    args: Seq::empty(),
                    value: decimal_value(text) as i64,
                },
            ),
            end: e,
            diags: Seq::empty(),
        }
    } else {
        Scan {
            kind: Some(KindModel::bare(TokenTag::IntegerLiteral)),
            end: e,
            diags: seq![diag(i, e, "integer literal '"@ + text + "' out of range"@)],
        }
    }
}

/// A hexadecimal literal at `i` (UCSD): `$` and hexadecimal digits. No
/// digits, or a value over `i64::MAX`, gives zero and an error.
pub open spec fn hex_scan(cs: Seq<char>, i: int) -> Scan {
    let e = run_end(cs, i + 1, class_pred(CharClass::Hex));
    let digits = cs.subrange(i + 1, e);
    if e == i + 1 {
        Scan {
            kind: Some(KindModel::bare(TokenTag::HexIntegerLiteral)),
            end: e,
            diags: seq![diag(i, e, "empty hexadecimal literal after '$'"@)],
        }
    } else if hex_value(digits) <= i64::MAX {
        Scan {
            kind: Some(
                KindModel {
                    tag: TokenTag::HexIntegerLiteral,
                    text: Seq::empty(),
                    args: Seq::empty(),
                    value: hex_value(digits) as i64,
                },
            ),
            end: e,
            diags: Seq::empty(),
        }
    } else {
        Scan {
            kind: Some(KindModel::bare(TokenTag::HexIntegerLiteral)),
            end: e,
            diags: seq![diag(i, e, "hexadecimal literal '$"@ + digits + "' out of range"@)],
        }
    }
}

/// The rest of a string literal from `j`, with `acc` read so far: its
/// end, its value with `''` read as one quote, and whether a closing
/// quote was found.
pub open spec fn string_body(cs: Seq<char>, j: int, acc: Seq<char>) -> (int, Seq<char>, bool)
    decreases cs.len() - j,
{
    if j < 0 || j >= cs.len() {
        (cs.len() as int, acc, false)
    } else if cs[j] == '\'' {
        if j + 1 < cs.len() && cs[j + 1] == '\'' {
            string_body(cs, j + 2, acc.push('\''))
        } else {
            (j + 1, acc, true)
        }
    } else {
        string_body(cs, j + 1, acc.push(cs[j]))
    }
}

pub proof fn lemma_string_body(cs: Seq<char>, j: int, acc: Seq<char>)
    requires
        0 <= j <= cs.len(),
    ensures
        j <= string_body(cs, j, acc).0 <= cs.len(),
    decreases cs.len() - j,
{
    if j < cs.len() {
        if cs[j] == '\'' {
            if j + 1 < cs.len() && cs[j + 1] == '\'' {
                lemma_string_body(cs, j + 2, acc.push('\''));
            }
        } else {
            lemma_string_body(cs, j + 1, acc.push(cs[j]));
        }
    }
}

/// A string literal at `i`; one the source leaves open runs to the end,
/// with an error.
pub open spec fn string_scan(cs: Seq<char>, i: int) -> Scan {
    let (e, v, closed) = string_body(cs, i + 1, Seq::empty());
    Scan {
        kind: Some(KindModel { tag: TokenTag::StringLiteral, text: v, args: Seq::empty(), value: 0 }),
        end: e,
        diags: if closed {
            Seq::empty()
        } else {
            seq![diag(i, e, "unterminated string literal (missing closing '\\'')"@)]
        },
    }
}

/// A text without its trailing white space (`str::trim_end`).
pub open spec fn trim_end(s: Seq<char>) -> Seq<char>
    decreases s.len(),
{
    if s.len() > 0 && is_ws(s.last()) {
        trim_end(s.drop_last())
    } else {
        s
    }
}

/// A compiler directive whose `(*$` opens at `i`.
pub open spec fn directive_scan(cs: Seq<char>, i: int) -> Scan {
    let ns = i + 3;
    let ne = run_end(cs, ns, class_pred(CharClass::Alnum));
    let a = run_end(cs, ne, class_pred(CharClass::Blank));
    let f = find_close(cs, a);
    let name = cs.subrange(ns, ne);
    if f < cs.len() {
        Scan {
            kind: Some(
                KindModel {
                    tag: TokenTag::CompilerDirective,
                    text: name,
                    args: trim_end(cs.subrange(a, f)),
                    value: 0,
                },
            ),
            end: f + 2,
            diags: Seq::empty(),
        }
    } else {
        Scan {
            kind: Some(
                KindModel {
                    tag: TokenTag::CompilerDirective,
                    text: name,
                    args: trim_end(cs.subrange(a, cs.len() as int)),
                    value: 0,
                },
            ),
            end: cs.len() as int,
            diags: seq![
                diag(i, cs.len() as int, "unterminated compiler directive (missing closing '*)')"@),
            ],
        }
    }
}

pub open spec fn one(t: TokenTag, i: int) -> Scan {
    Scan { kind: Some(KindModel::bare(t)), end: i + 1, diags: Seq::empty() }
}

pub open spec fn two(t: TokenTag, i: int) -> Scan {
    Scan { kind: Some(KindModel::bare(t)), end: i + 2, diags: Seq::empty() }
}

/// A symbol at `i`, the longest that matches; `(*` here opens a compiler
/// directive. Any other character is an error and gives no token.
pub open spec fn symbol_scan(cs: Seq<char>, i: int) -> Scan {
    let c = cs[i];
    let next = if i + 1 < cs.len() {
        Some(cs[i + 1])
    } else {
        None
    };
    if c == ':' {
        if next == Some('=') {
            two(TokenTag::Assign, i)
        } else {
            one(TokenTag::Colon, i)
        }
    } else if c == '<' {
        if next == Some('=') {
            two(TokenTag::Le, i)
        } else if next == Some('>') {
            two(TokenTag::Ne, i)
        } else {
            one(TokenTag::Lt, i)
        }
    } else if c == '>' {
        if next == Some('=') {
            two(TokenTag::Ge, i)
        } else {
            one(TokenTag::Gt, i)
        }
    } else if c == '.' {
        if next == Some('.') {
            two(TokenTag::DotDot, i)
        } else {
            one(TokenTag::Dot, i)
        }
    } else if c == '(' {
        if next == Some('*') {
            directive_scan(cs, i)
        } else {
            one(TokenTag::LParen, i)
        }
    } else if c == ')' {
        one(TokenTag::RParen, i)
    } else if c == '[' {
        one(TokenTag::LBracket, i)
    } else if c == ']' {
        one(TokenTag::RBracket, i)
    } else if c == ',' {
        one(TokenTag::Comma, i)
    } else if c == ';' {
        one(TokenTag::Semicolon, i)
    } else if c == '^' {
        one(TokenTag::Caret, i)
    } else if c == '+' {
        one(TokenTag::Plus, i)
    } else if c == '-' {
        one(TokenTag::Minus, i)
    } else if c == '*' {
        one(TokenTag::Star, i)
    } else if c == '/' {
        one(TokenTag::Slash, i)
    } else if c == '=' {
        one(TokenTag::Eq, i)
    } else {
        Scan {
            kind: None,
            end: i + 1,
            diags: seq![diag(i, i + 1, "unexpected character '"@ + seq![c] + "'"@)],
        }
    }
}

/// The token that starts at `i` (past any white space and comments).
pub open spec fn scan(cs: Seq<char>, i: int) -> Scan {
    let c = cs[i];
    if is_alpha(c) {
        ident_scan(cs, i)
    } else if is_digit(c) {
        number_scan(cs, i)
    } else if c == '$' {
        hex_scan(cs, i)
    } else if c == '\'' {
        string_scan(cs, i)
    } else {
        symbol_scan(cs, i)
    }
}

pub proof fn lemma_scan_advances(cs: Seq<char>, i: int)
    requires
        0 <= i < cs.len(),
        !opens_paren_comment(cs, i),
    ensures
        i < scan(cs, i).end <= cs.len(),
{
    let c = cs[i];
    if is_alpha(c) {
        lemma_run_end(cs, i + 1, class_pred(CharClass::Alnum));
    } else if is_digit(c) {
        let e1 = int_part_end(cs, i);
        lemma_run_end(cs, i, class_pred(CharClass::Digit));
        if has_fraction(cs, e1) {
            lemma_run_end(cs, e1 + 1, class_pred(CharClass::Digit));
        }
        let e2 = fraction_end(cs, e1);
        if has_exponent(cs, e2) {
            lemma_run_end(cs, exponent_digits_start(cs, e2), class_pred(CharClass::Digit));
        }
    } else if c == '$' {
        lemma_run_end(cs, i + 1, class_pred(CharClass::Hex));
    } else if c == '\'' {
        lemma_string_body(cs, i + 1, Seq::empty());
    } else if c == '(' && i + 1 < cs.len() && cs[i + 1] == '*' {
        lemma_run_end(cs, i + 3, class_pred(CharClass::Alnum));
        let ne = run_end(cs, i + 3, class_pred(CharClass::Alnum));
        lemma_run_end(cs, ne, class_pred(CharClass::Blank));
        lemma_find_close(cs, run_end(cs, ne, class_pred(CharClass::Blank)));
    }
}

/// The tokens and diagnostics of the source from `i` on. The last token is
/// always `Eof`, at the end of the source.
pub open spec fn lex_from(cs: Seq<char>, i: int) -> (Seq<TokSpec>, Seq<DiagSpec>)
    decreases cs.len() - i,
{
    if i < 0 || i > cs.len() {
        (Seq::empty(), Seq::empty())
    } else {
        proof {
            lemma_trivia_end(cs, i);
        }
        let j = trivia_end(cs, i);
        let td = trivia_diags(cs, i);
        if j >= cs.len() {
            (seq![TokSpec { kind: KindModel::bare(TokenTag::Eof), start: j, end: j }], td)
        } else {
            proof {
                lemma_scan_advances(cs, j);
            }
            let s = scan(cs, j);
            let rest = lex_from(cs, s.end);
            (
                match s.kind {
                    Some(k) => seq![TokSpec { kind: k, start: j, end: s.end }] + rest.0,
                    None => rest.0,
                },
                td + s.diags + rest.1,
            )
        }
    }
}

} // verus!
