//! The lexer proper: a hand-written scanner over the characters of the
//! source.
//!
//! It never gives up: an illegal character or an unterminated string or
//! comment is recorded as a diagnostic and scanning goes on, so that a
//! language server always has tokens to work with.

use vstd::prelude::*;

use crate::ast::{Diagnostic, Severity, Span};
use crate::lexer::chars::{
    byte_offset, in_class, is_hex, is_alpha, is_alpha_char, is_digit, is_digit_char, is_ws, is_ws_char,
    lemma_byte_offset_monotone, utf8_len, utf8_width_of, CharClass, class_pred,
};
use crate::lexer::spec::{
    brace_end, diag, find_char, find_close, lemma_comment_ends, lemma_find_char,
    lemma_find_close, lemma_run_end, lemma_trivia_end, opens_paren_comment, paren_end, run_end,
    trivia_diags, trivia_end, DiagSpec, decimal_value, ident_scan, number_scan, hex_scan,
    string_scan, string_body, directive_scan, symbol_scan, scan, Scan, fraction_end, number_end,
    exponent_digits_start, lex_from, lemma_scan_advances, TokSpec, hex_digit_value, hex_value, trim_end,
};
use crate::lexer::token::{lookup_keyword, KindModel, Token, TokenKind, TokenTag};
use crate::strings::{chars_of, push_str, string_push};

verus! {

/// A diagnostic of the lexer agrees with its statement: the same byte
/// range, an error, the same message and no code.
pub open spec fn diag_agrees(d: Diagnostic, cs: Seq<char>, s: DiagSpec) -> bool {
    &&& d.span.start == byte_offset(cs, s.start)
    &&& d.span.end == byte_offset(cs, s.end)
    &&& d.severity == Severity::Error
    &&& d.message@ == s.message
    &&& d.code is None
}

/// `new` is `old` followed by diagnostics that agree with `x`.
pub open spec fn extends(new: Seq<Diagnostic>, old: Seq<Diagnostic>, cs: Seq<char>, x: Seq<DiagSpec>) -> bool {
    &&& new.len() == old.len() + x.len()
    &&& forall|k: int| 0 <= k < old.len() ==> new[k] == old[k]
    &&& forall|k: int| old.len() <= k < new.len() ==> diag_agrees(#[trigger] new[k], cs, x[k - old.len()])
}

pub proof fn lemma_extends_refl(a: Seq<Diagnostic>, cs: Seq<char>)
    ensures
        extends(a, a, cs, Seq::empty()),
{
}

pub proof fn lemma_extends_trans(
    a: Seq<Diagnostic>,
    b: Seq<Diagnostic>,
    c: Seq<Diagnostic>,
    cs: Seq<char>,
    x: Seq<DiagSpec>,
    y: Seq<DiagSpec>,
)
    requires
        extends(b, a, cs, x),
        extends(c, b, cs, y),
    ensures
        extends(c, a, cs, x + y),
{
    assert forall|k: int| a.len() <= k < c.len() implies diag_agrees(#[trigger] c[k], cs, (x + y)[k - a.len()]) by {
        if k < b.len() {
            assert(c[k] == b[k]);
        }
    }
}

/// A token agrees with its statement: the same kind, and the byte
/// offsets of its first character and of the character after it.
pub open spec fn token_agrees(t: Token, cs: Seq<char>, s: TokSpec) -> bool {
    &&& t.kind.model() == s.kind
    &&& t.span.start == byte_offset(cs, s.start)
    &&& t.span.end == byte_offset(cs, s.end)
}

pub open spec fn tokens_agree(ts: Seq<Token>, cs: Seq<char>, ss: Seq<TokSpec>) -> bool {
    &&& ts.len() == ss.len()
    &&& forall|k: int| 0 <= k < ts.len() ==> token_agrees(#[trigger] ts[k], cs, ss[k])
}

/// The lexer over one source text.
pub struct Lexer {
    chars: Vec<char>,
    /// The current character index.
    pos: usize,
    /// The byte offset of the current character.
    byte: u64,
    diagnostics: Vec<Diagnostic>,
}

impl Lexer {
    /// The characters of the source.
    pub closed spec fn text(&self) -> Seq<char> {
        self.chars@
    }

    /// The index of the next character to read.
    pub closed spec fn position(&self) -> int {
        self.pos as int
    }

    /// The diagnostics gathered so far.
    pub closed spec fn diags(&self) -> Seq<Diagnostic> {
        self.diagnostics@
    }

    pub closed spec fn wf(&self) -> bool {
        &&& self.pos <= self.chars.len()
        &&& self.byte == byte_offset(self.chars@, self.pos as int)
        &&& utf8_len(self.chars@) <= u32::MAX
    }

    /// A lexer at the start of `source`. Spans are `u32` byte offsets, so
    /// the source must fit in `u32::MAX` bytes.
    pub fn new(source: &str) -> (l: Lexer)
        requires
            utf8_len(source@) <= u32::MAX,
        ensures
            l.wf(),
            l.text() == source@,
            l.position() == 0,
            l.diags().len() == 0,
    {
        Lexer { chars: chars_of(source), pos: 0, byte: 0, diagnostics: Vec::new() }
    }

    /// The byte offset of the current position.
    fn here(&self) -> (r: u32)
        requires
            self.wf(),
        ensures
            r == byte_offset(self.chars@, self.pos as int),
    {
        proof {
            lemma_byte_offset_monotone(self.chars@, self.pos as int, self.chars.len() as int);
        }
        self.byte as u32
    }

    /// The character `n` places ahead, if there is one.
    fn peek_at(&self, n: usize) -> (r: Option<char>)
        requires
            self.wf(),
        ensures
            self.pos + n < self.chars.len() ==> r == Some(self.chars@[self.pos + n]),
            self.pos + n >= self.chars.len() ==> r is None,
    {
        if n < self.chars.len() - self.pos {
            Some(self.chars[self.pos + n])
        } else {
            None
        }
    }

    /// Whether the character `n` places ahead is `c`.
    fn at_is(&self, n: usize, c: char) -> (r: bool)
        requires
            self.wf(),
        ensures
            r == (self.pos + n < self.chars.len() && self.chars@[self.pos + n] == c),
    {
        match self.peek_at(n) {
            Some(d) => d == c,
            None => false,
        }
    }

    /// Moves past the current character.
    fn bump(&mut self)
        requires
            old(self).wf(),
            old(self).pos < old(self).chars.len(),
        ensures
            final(self).wf(),
            final(self).chars == old(self).chars,
            final(self).diagnostics == old(self).diagnostics,
            final(self).pos == old(self).pos + 1,
    {
        proof {
            lemma_byte_offset_monotone(self.chars@, self.pos + 1, self.chars.len() as int);
        }
        let w = utf8_width_of(self.chars[self.pos]);
        self.byte = self.byte + w;
        self.pos = self.pos + 1;
    }

    /// Records an error from the character `si`, at byte `start`, to the
    /// current position.
    fn error(&mut self, start: u32, Ghost(si): Ghost<int>, message: String)
        requires
            old(self).wf(),
            0 <= si <= old(self).pos,
            start == byte_offset(old(self).chars@, si),
        ensures
            final(self).wf(),
            final(self).chars == old(self).chars,
            final(self).pos == old(self).pos,
            extends(final(self).diagnostics@, old(self).diagnostics@, old(self).chars@,
                seq![diag(si, old(self).pos as int, message@)]),
    {
        let end = self.here();
        let ghost before = self.diagnostics@;
        let d = Diagnostic { span: Span { start, end }, severity: Severity::Error, message, code: None };
        self.diagnostics.push(d);
        proof {
            assert(diag_agrees(self.diagnostics@[before.len() as int], self.chars@, diag(si, self.pos as int, d.message@)));
        }
    }

    /// Moves past the run of characters of class `k`.
    fn skip_class(&mut self, k: CharClass)
        requires
            old(self).wf(),
        ensures
            final(self).wf(),
            final(self).chars == old(self).chars,
            final(self).diagnostics == old(self).diagnostics,
            final(self).pos == run_end(old(self).chars@, old(self).pos as int, class_pred(k)),
    {
        let ghost start = self.pos as int;
        while self.pos < self.chars.len() && in_class(k, self.chars[self.pos])
            invariant
                self.wf(),
                self.chars == old(self).chars,
                self.diagnostics == old(self).diagnostics,
                run_end(self.chars@, start, class_pred(k)) == run_end(self.chars@, self.pos as int, class_pred(k)),
            decreases self.chars.len() - self.pos,
        {
            self.bump();
        }
    }

    /// Skips a `{ ... }` comment, which does not nest: the first `}` ends
    /// it.
    fn scan_brace_comment(&mut self)
        requires
            old(self).wf(),
            old(self).pos < old(self).chars.len(),
            old(self).chars@[old(self).pos as int] == '{',
        ensures
            final(self).wf(),
            final(self).chars == old(self).chars,
            final(self).pos == brace_end(old(self).chars@, old(self).pos as int),
            extends(final(self).diagnostics@, old(self).diagnostics@, old(self).chars@,
                if find_char(old(self).chars@, old(self).pos + 1, '}') < old(self).chars.len() {
                    Seq::empty()
                } else {
                    seq![diag(old(self).pos as int, old(self).chars.len() as int, "unterminated comment (missing closing '}')"@)]
                }),
    {
        let ghost cs = self.chars@;
        let ghost i = self.pos as int;
        let start = self.here();
        self.bump();
        loop
            invariant
                self.wf(),
                self.chars == old(self).chars,
                self.diagnostics == old(self).diagnostics,
                cs == old(self).chars@,
                i == old(self).pos,
                start == byte_offset(cs, i),
                i < self.pos,
                find_char(cs, i + 1, '}') == find_char(cs, self.pos as int, '}'),
            decreases self.chars.len() - self.pos,
        {
            if self.pos >= self.chars.len() {
                self.error(start, Ghost(i), "unterminated comment (missing closing '}')".to_owned());
                proof {
                    lemma_extends_refl(old(self).diagnostics@, cs);
                }
                return;
            }
            if self.chars[self.pos] == '}' {
                self.bump();
                return;
            }
            self.bump();
        }
    }

    /// Skips a `(* ... *)` comment; the caller has seen that it is not a
    /// compiler directive.
    fn scan_paren_comment(&mut self)
        requires
            old(self).wf(),
            opens_paren_comment(old(self).chars@, old(self).pos as int),
        ensures
            final(self).wf(),
            final(self).chars == old(self).chars,
            final(self).pos == paren_end(old(self).chars@, old(self).pos as int),
            extends(final(self).diagnostics@, old(self).diagnostics@, old(self).chars@,
                if find_close(old(self).chars@, old(self).pos + 2) < old(self).chars.len() {
                    Seq::empty()
                } else {
                    seq![diag(old(self).pos as int, old(self).chars.len() as int, "unterminated comment (missing closing '*)')"@)]
                }),
    {
        let ghost cs = self.chars@;
        let ghost i = self.pos as int;
        let start = self.here();
        self.bump();
        self.bump();
        loop
            invariant
                self.wf(),
                self.chars == old(self).chars,
                self.diagnostics == old(self).diagnostics,
                cs == old(self).chars@,
                i == old(self).pos,
                start == byte_offset(cs, i),
                i + 2 <= self.pos,
                find_close(cs, i + 2) == find_close(cs, self.pos as int),
            decreases self.chars.len() - self.pos,
        {
            if self.at_is(0, '*') && self.at_is(1, ')') {
                self.bump();
                self.bump();
                return;
            }
            if self.pos >= self.chars.len() {
                self.error(start, Ghost(i), "unterminated comment (missing closing '*)')".to_owned());
                return;
            }
            self.bump();
        }
    }

    /// Skips white space and comments, stopping before a compiler
    /// directive.
    fn skip_whitespace_and_comments(&mut self)
        requires
            old(self).wf(),
        ensures
            final(self).wf(),
            final(self).chars == old(self).chars,
            final(self).pos == trivia_end(old(self).chars@, old(self).pos as int),
            extends(final(self).diagnostics@, old(self).diagnostics@, old(self).chars@,
                trivia_diags(old(self).chars@, old(self).pos as int)),
    {
        let ghost cs = self.chars@;
        let ghost i0 = self.pos as int;
        let ghost mut done: Seq<DiagSpec> = Seq::empty();
        proof {
            lemma_extends_refl(self.diagnostics@, cs);
        }
        loop
            invariant
                self.wf(),
                self.chars == old(self).chars,
                cs == self.chars@,
                i0 == old(self).pos,
                i0 <= self.pos,
                trivia_end(cs, i0) == trivia_end(cs, self.pos as int),
                trivia_diags(cs, i0) == done + trivia_diags(cs, self.pos as int),
                extends(self.diagnostics@, old(self).diagnostics@, cs, done),
            decreases self.chars.len() - self.pos,
        {
            if self.pos >= self.chars.len() {
                proof {
                    assert(done + trivia_diags(cs, self.pos as int) =~= done);
                }
                return;
            }
            let c = self.chars[self.pos];
            let ghost p = self.pos as int;
            let ghost before = self.diagnostics@;
            proof {
                lemma_comment_ends(cs, p);
            }
            if is_ws_char(c) {
                self.bump();
            } else if c == '{' {
                self.scan_brace_comment();
                proof {
                    let x = if find_char(cs, p + 1, '}') < cs.len() {
                        Seq::empty()
                    } else {
                        seq![diag(p, cs.len() as int, "unterminated comment (missing closing '}')"@)]
                    };
                    lemma_extends_trans(old(self).diagnostics@, before, self.diagnostics@, cs, done, x);
                    assert(done + trivia_diags(cs, p) =~= (done + x) + trivia_diags(cs, self.pos as int));
                    done = done + x;
                }
            } else if c == '(' && self.at_is(1, '*') && !self.at_is(2, '$') {
                self.scan_paren_comment();
                proof {
                    let x = if find_close(cs, p + 2) < cs.len() {
                        Seq::empty()
                    } else {
                        seq![diag(p, cs.len() as int, "unterminated comment (missing closing '*)')"@)]
                    };
                    lemma_extends_trans(old(self).diagnostics@, before, self.diagnostics@, cs, done, x);
                    assert(done + trivia_diags(cs, p) =~= (done + x) + trivia_diags(cs, self.pos as int));
                    done = done + x;
                }
            } else {
                proof {
                    assert(done + trivia_diags(cs, self.pos as int) =~= done);
                }
                return;
            }
        }
    }

    /// What a scanner leaves: the lexer still well formed over the same
    /// source, just past the token `s` states, with its diagnostics added;
    /// `r` is the token's kind as `s` states it.
    pub closed spec fn scanned(self, old: Lexer, r: Option<TokenKind>, s: Scan) -> bool {
        &&& self.wf()
        &&& self.chars == old.chars
        &&& self.pos == s.end
        &&& match r {
            Some(k) => s.kind == Some(k.model()),
            None => s.kind is None,
        }
        &&& extends(self.diagnostics@, old.diagnostics@, old.chars@, s.diags)
    }

    /// Whether the character `n` places ahead is a decimal digit.
    fn digit_at(&self, n: usize) -> (r: bool)
        requires
            self.wf(),
        ensures
            r == (self.pos + n < self.chars.len() && is_digit(self.chars@[self.pos + n])),
    {
        match self.peek_at(n) {
            Some(d) => is_digit_char(d),
            None => false,
        }
    }

    fn scan_identifier_or_keyword(&mut self) -> (r: Option<TokenKind>)
        requires
            old(self).wf(),
            old(self).pos < old(self).chars.len(),
            is_alpha(old(self).chars@[old(self).pos as int]),
        ensures
            final(self).scanned(*old(self), r, ident_scan(old(self).chars@, old(self).pos as int)),
    {
        let ghost cs = self.chars@;
        let start = self.pos;
        proof {
            lemma_extends_refl(self.diagnostics@, cs);
            lemma_run_end(cs, start + 1, class_pred(CharClass::Alnum));
        }
        self.bump();
        self.skip_class(CharClass::Alnum);
        let text = subvec(&self.chars, start, self.pos);
        match lookup_keyword(&text) {
            Some(kw) => Some(kw),
            None => Some(TokenKind::Identifier(string_of(&text))),
        }
    }

    fn scan_number(&mut self) -> (r: Option<TokenKind>)
        requires
            old(self).wf(),
            old(self).pos < old(self).chars.len(),
            is_digit(old(self).chars@[old(self).pos as int]),
        ensures
            final(self).scanned(*old(self), r, number_scan(old(self).chars@, old(self).pos as int)),
    {
        let ghost cs = self.chars@;
        let start = self.pos;
        let start_byte = self.here();
        proof {
            lemma_extends_refl(self.diagnostics@, cs);
            lemma_run_end(cs, start as int, class_pred(CharClass::Digit));
        }
        self.skip_class(CharClass::Digit);
        let ghost e1 = self.pos as int;
        let mut is_real = false;
        if self.at_is(0, '.') && self.digit_at(1) {
            is_real = true;
            proof {
                lemma_run_end(cs, e1 + 1, class_pred(CharClass::Digit));
            }
            self.bump();
            self.skip_class(CharClass::Digit);
        }
        let ghost e2 = self.pos as int;
        assert(e2 == fraction_end(cs, e1));
        if self.at_is(0, 'e') || self.at_is(0, 'E') {
            let la: usize = if self.at_is(1, '+') || self.at_is(1, '-') {
                2
            } else {
                1
            };
            if self.digit_at(la) {
                is_real = true;
                proof {
                    lemma_run_end(cs, exponent_digits_start(cs, e2), class_pred(CharClass::Digit));
                }
                self.bump();
                if self.at_is(0, '+') || self.at_is(0, '-') {
                    self.bump();
                }
                self.skip_class(CharClass::Digit);
            }
        }
        assert(self.pos == number_end(cs, start as int));
        let text = subvec(&self.chars, start, self.pos);
        if is_real {
            return Some(TokenKind::RealLiteral(string_of(&text)));
        }
        match parse_decimal(&text) {
            Some(v) => Some(TokenKind::IntegerLiteral(v)),
            None => {
                let t = string_of(&text);
                let mut m = "integer literal '".to_owned();
                push_str(&mut m, t.as_str());
                push_str(&mut m, "' out of range");
                self.error(start_byte, Ghost(start as int), m);
                Some(TokenKind::IntegerLiteral(0))
            },
        }
    }

    /// UCSD extension: a `$FF` hexadecimal literal.
    fn scan_hex_literal(&mut self) -> (r: Option<TokenKind>)
        requires
            old(self).wf(),
            old(self).pos < old(self).chars.len(),
            old(self).chars@[old(self).pos as int] == '$',
        ensures
            final(self).scanned(*old(self), r, hex_scan(old(self).chars@, old(self).pos as int)),
    {
        let ghost cs = self.chars@;
        let start = self.pos;
        let start_byte = self.here();
        proof {
            lemma_extends_refl(self.diagnostics@, cs);
            lemma_run_end(cs, start + 1, class_pred(CharClass::Hex));
        }
        self.bump();
        let digits_start = self.pos;
        self.skip_class(CharClass::Hex);
        let digits = subvec(&self.chars, digits_start, self.pos);
        if digits.len() == 0 {
            self.error(start_byte, Ghost(start as int), "empty hexadecimal literal after '$'".to_owned());
            return Some(TokenKind::HexIntegerLiteral(0));
        }
        match parse_hex(&digits) {
            Some(v) => Some(TokenKind::HexIntegerLiteral(v)),
            None => {
                let t = string_of(&digits);
                let mut m = "hexadecimal literal '$".to_owned();
                push_str(&mut m, t.as_str());
                push_str(&mut m, "' out of range");
                self.error(start_byte, Ghost(start as int), m);
                Some(TokenKind::HexIntegerLiteral(0))
            },
        }
    }

    /// A `'...'` string literal, in which `''` stands for one quote.
    fn scan_string_literal(&mut self) -> (r: Option<TokenKind>)
        requires
            old(self).wf(),
            old(self).pos < old(self).chars.len(),
            old(self).chars@[old(self).pos as int] == '\'',
        ensures
            final(self).scanned(*old(self), r, string_scan(old(self).chars@, old(self).pos as int)),
    {
        let ghost cs = self.chars@;
        let start = self.pos;
        let start_byte = self.here();
        proof {
            lemma_extends_refl(self.diagnostics@, cs);
        }
        self.bump();
        let mut value = String::new();
        loop
            invariant
                self.wf(),
                self.chars == old(self).chars,
                self.diagnostics == old(self).diagnostics,
                cs == old(self).chars@,
                start == old(self).pos,
                start_byte == byte_offset(cs, start as int),
                start < self.pos,
                string_body(cs, start + 1, Seq::empty()) == string_body(cs, self.pos as int, value@),
                extends(self.diagnostics@, old(self).diagnostics@, cs, Seq::empty()),
            decreases self.chars.len() - self.pos,
        {
            if self.pos >= self.chars.len() {
                self.error(
                    start_byte,
                    Ghost(start as int),
                    "unterminated string literal (missing closing '\\'')".to_owned(),
                );
                return Some(TokenKind::StringLiteral(value));
            }
            let c = self.chars[self.pos];
            if c == '\'' {
                self.bump();
                if self.at_is(0, '\'') {
                    self.bump();
                    string_push(&mut value, '\'');
                } else {
                    return Some(TokenKind::StringLiteral(value));
                }
            } else {
                self.bump();
                string_push(&mut value, c);
            }
        }
    }

    /// A `(*$name args*)` compiler directive; the `(` that opens it, at
    /// `start`, has been read.
    fn scan_compiler_directive(&mut self, start: usize, start_byte: u32) -> (r: Option<TokenKind>)
        requires
            old(self).wf(),
            old(self).pos == start + 1,
            start + 2 < old(self).chars.len(),
            old(self).chars@[start as int] == '(',
            old(self).chars@[start + 1] == '*',
            old(self).chars@[start + 2] == '$',
            start_byte == byte_offset(old(self).chars@, start as int),
        ensures
            final(self).scanned(*old(self), r, directive_scan(old(self).chars@, start as int)),
    {
        let ghost cs = self.chars@;
        proof {
            lemma_extends_refl(self.diagnostics@, cs);
            lemma_run_end(cs, start + 3, class_pred(CharClass::Alnum));
            let ne = run_end(cs, start + 3, class_pred(CharClass::Alnum));
            lemma_run_end(cs, ne, class_pred(CharClass::Blank));
        }
        self.bump();
        self.bump();
        let name_start = self.pos;
        self.skip_class(CharClass::Alnum);
        let name = string_of(&subvec(&self.chars, name_start, self.pos));
        self.skip_class(CharClass::Blank);
        let args_start = self.pos;
        loop
            invariant
                self.wf(),
                self.chars == old(self).chars,
                self.diagnostics == old(self).diagnostics,
                cs == old(self).chars@,
                start_byte == byte_offset(cs, start as int),
                start < args_start <= self.pos,
                args_start == run_end(cs, run_end(cs, start + 3, class_pred(CharClass::Alnum)), class_pred(CharClass::Blank)),
                name@ == cs.subrange(start + 3, run_end(cs, start + 3, class_pred(CharClass::Alnum))),
                find_close(cs, args_start as int) == find_close(cs, self.pos as int),
                extends(self.diagnostics@, old(self).diagnostics@, cs, Seq::empty()),
            decreases self.chars.len() - self.pos,
        {
            if self.at_is(0, '*') && self.at_is(1, ')') {
                let args = trim_end_chars(subvec(&self.chars, args_start, self.pos));
                self.bump();
                self.bump();
                return Some(TokenKind::CompilerDirective { name, args: string_of(&args) });
            }
            if self.pos >= self.chars.len() {
                self.error(
                    start_byte,
                    Ghost(start as int),
                    "unterminated compiler directive (missing closing '*)')".to_owned(),
                );
                let args = trim_end_chars(subvec(&self.chars, args_start, self.pos));
                return Some(TokenKind::CompilerDirective { name, args: string_of(&args) });
            }
            self.bump();
        }
    }

    fn scan_symbol(&mut self) -> (r: Option<TokenKind>)
        requires
            old(self).wf(),
            old(self).pos < old(self).chars.len(),
            !opens_paren_comment(old(self).chars@, old(self).pos as int),
        ensures
            final(self).scanned(*old(self), r, symbol_scan(old(self).chars@, old(self).pos as int)),
    {
        let ghost cs = self.chars@;
        let start = self.pos;
        let start_byte = self.here();
        proof {
            lemma_extends_refl(self.diagnostics@, cs);
        }
        let c = self.chars[self.pos];
        self.bump();
        if c == ':' {
            if self.at_is(0, '=') {
                self.bump();
                Some(TokenKind::Assign)
            } else {
                Some(TokenKind::Colon)
            }
        } else if c == '<' {
            if self.at_is(0, '=') {
                self.bump();
                Some(TokenKind::Le)
            } else if self.at_is(0, '>') {
                self.bump();
                Some(TokenKind::Ne)
            } else {
                Some(TokenKind::Lt)
            }
        } else if c == '>' {
            if self.at_is(0, '=') {
                self.bump();
                Some(TokenKind::Ge)
            } else {
                Some(TokenKind::Gt)
            }
        } else if c == '.' {
            if self.at_is(0, '.') {
                self.bump();
                Some(TokenKind::DotDot)
            } else {
                Some(TokenKind::Dot)
            }
        } else if c == '(' {
            if self.at_is(0, '*') {
                self.scan_compiler_directive(start, start_byte)
            } else {
                Some(TokenKind::LParen)
            }
        } else if c == ')' {
            Some(TokenKind::RParen)
        } else if c == '[' {
            Some(TokenKind::LBracket)
        } else if c == ']' {
            Some(TokenKind::RBracket)
        } else if c == ',' {
            Some(TokenKind::Comma)
        } else if c == ';' {
            Some(TokenKind::Semicolon)
        } else if c == '^' {
            Some(TokenKind::Caret)
        } else if c == '+' {
            Some(TokenKind::Plus)
        } else if c == '-' {
            Some(TokenKind::Minus)
        } else if c == '*' {
            Some(TokenKind::Star)
        } else if c == '/' {
            Some(TokenKind::Slash)
        } else if c == '=' {
            Some(TokenKind::Eq)
        } else {
            let mut m = "unexpected character '".to_owned();
            string_push(&mut m, c);
            push_str(&mut m, "'");
            proof {
                assert(m@ =~= "unexpected character '"@ + seq![c] + "'"@);
            }
            self.error(start_byte, Ghost(start as int), m);
            None
        }
    }

    /// The token at the current position, which is past white space and
    /// comments.
    fn scan_token(&mut self) -> (r: Option<TokenKind>)
        requires
            old(self).wf(),
            old(self).pos < old(self).chars.len(),
            !opens_paren_comment(old(self).chars@, old(self).pos as int),
        ensures
            final(self).scanned(*old(self), r, scan(old(self).chars@, old(self).pos as int)),
    {
        let c = self.chars[self.pos];
        if is_alpha_char(c) {
            self.scan_identifier_or_keyword()
        } else if is_digit_char(c) {
            self.scan_number()
        } else if c == '$' {
            self.scan_hex_literal()
        } else if c == '\'' {
            self.scan_string_literal()
        } else {
            self.scan_symbol()
        }
    }

    /// Tokenizes the source from the current position to its end. Errors
    /// do not stop it: each is recorded as a diagnostic and scanning goes
    /// on. Returns the tokens, the last of which is `Eof`, and all the
    /// diagnostics gathered, which the lexer no longer holds.
    pub fn tokenize(&mut self) -> (r: (Vec<Token>, Vec<Diagnostic>))
        requires
            old(self).wf(),
        ensures
            final(self).wf(),
            final(self).text() == old(self).text(),
            final(self).diags().len() == 0,
            tokens_agree(r.0@, old(self).text(), lex_from(old(self).text(), old(self).position()).0),
            extends(r.1@, old(self).diags(), old(self).text(), lex_from(old(self).text(), old(self).position()).1),
    {
        let ghost cs = self.chars@;
        let ghost p0 = self.pos as int;
        let mut tokens: Vec<Token> = Vec::new();
        let ghost mut ts: Seq<TokSpec> = Seq::empty();
        let ghost mut ds: Seq<DiagSpec> = Seq::empty();
        proof {
            lemma_extends_refl(self.diagnostics@, cs);
            assert(lex_from(cs, p0).0 =~= ts + lex_from(cs, p0).0);
            assert(lex_from(cs, p0).1 =~= ds + lex_from(cs, p0).1);
        }
        loop
            invariant
                self.wf(),
                self.chars == old(self).chars,
                cs == self.chars@,
                p0 == old(self).pos,
                p0 <= self.pos,
                lex_from(cs, p0).0 == ts + lex_from(cs, self.pos as int).0,
                lex_from(cs, p0).1 == ds + lex_from(cs, self.pos as int).1,
                tokens_agree(tokens@, cs, ts),
                extends(self.diagnostics@, old(self).diagnostics@, cs, ds),
            decreases self.chars.len() - self.pos,
        {
            let ghost p = self.pos as int;
            let ghost before = self.diagnostics@;
            self.skip_whitespace_and_comments();
            proof {
                lemma_trivia_end(cs, p);
                lemma_extends_trans(old(self).diagnostics@, before, self.diagnostics@, cs, ds, trivia_diags(cs, p));
            }
            let ghost j = self.pos as int;
            let ghost after_trivia = self.diagnostics@;
            let start = self.here();
            if self.pos >= self.chars.len() {
                tokens.push(Token::new(TokenKind::Eof, Span::new(start, start)));
                proof {
                    let e = TokSpec { kind: KindModel::bare(TokenTag::Eof), start: j, end: j };
                    assert(token_agrees(tokens@.last(), cs, e));
                    assert(tokens_agree(tokens@, cs, ts.push(e)));
                    assert(lex_from(cs, p0).0 =~= ts.push(e));
                    assert(lex_from(cs, p0).1 =~= ds + trivia_diags(cs, p));
                }
                let mut out: Vec<Diagnostic> = Vec::new();
                std::mem::swap(&mut out, &mut self.diagnostics);
                return (tokens, out);
            }
            proof {
                lemma_scan_advances(cs, j);
            }
            let kind = self.scan_token();
            let ghost sc = scan(cs, j);
            proof {
                lemma_extends_trans(old(self).diagnostics@, after_trivia, self.diagnostics@, cs, ds + trivia_diags(cs, p), sc.diags);
                assert(lex_from(cs, p0).1 =~= (ds + trivia_diags(cs, p) + sc.diags) + lex_from(cs, self.pos as int).1);
            }
            match kind {
                Some(k) => {
                    let end = self.here();
                    tokens.push(Token::new(k, Span::new(start, end)));
                    proof {
                        let t = TokSpec { kind: sc.kind.unwrap(), start: j, end: sc.end };
                        assert(token_agrees(tokens@.last(), cs, t));
                        assert(tokens_agree(tokens@, cs, ts.push(t)));
                        assert(lex_from(cs, p0).0 =~= ts.push(t) + lex_from(cs, self.pos as int).0);
                        ts = ts.push(t);
                    }
                },
                None => {},
            }
            proof {
                ds = ds + trivia_diags(cs, p) + sc.diags;
            }
        }
    }
}

/// The characters `a..b` of `v`.
fn subvec(v: &Vec<char>, a: usize, b: usize) -> (r: Vec<char>)
    requires
        a <= b <= v.len(),
    ensures
        r@ == v@.subrange(a as int, b as int),
{
    let mut r: Vec<char> = Vec::new();
    let mut k = a;
    while k < b
        invariant
            a <= k <= b <= v.len(),
            r@ == v@.subrange(a as int, k as int),
        decreases b - k,
    {
        r.push(v[k]);
        k = k + 1;
        proof {
            assert(r@ =~= v@.subrange(a as int, k as int));
        }
    }
    r
}

/// A string of the characters of `v`.
fn string_of(v: &Vec<char>) -> (r: String)
    ensures
        r@ == v@,
{
    let mut s = String::new();
    let mut k: usize = 0;
    while k < v.len()
        invariant
            k <= v.len(),
            s@ == v@.take(k as int),
        decreases v.len() - k,
    {
        string_push(&mut s, v[k]);
        k = k + 1;
        proof {
            assert(s@ =~= v@.take(k as int));
        }
    }
    proof {
        assert(v@.take(k as int) =~= v@);
    }
    s
}

/// `v` without its trailing white space.
fn trim_end_chars(v: Vec<char>) -> (r: Vec<char>)
    ensures
        r@ == trim_end(v@),
{
    let mut v = v;
    let ghost v0 = v@;
    while v.len() > 0 && is_ws_char(v[v.len() - 1])
        invariant
            trim_end(v0) == trim_end(v@),
        decreases v.len(),
    {
        proof {
            assert(v@.drop_last() =~= v@.take(v.len() - 1));
        }
        v.pop();
    }
    v
}

/// The value of a run of decimal digits, if it is at most `i64::MAX`.
fn parse_decimal(text: &Vec<char>) -> (r: Option<i64>)
    requires
        forall|k: int| 0 <= k < text.len() ==> is_digit(#[trigger] text@[k]),
    ensures
        decimal_value(text@) <= i64::MAX ==> r == Some(decimal_value(text@) as i64),
        decimal_value(text@) > i64::MAX ==> r is None,
{
    let mut acc: i64 = 0;
    let mut overflow = false;
    let mut k: usize = 0;
    while k < text.len()
        invariant
            k <= text.len(),
            forall|j: int| 0 <= j < text.len() ==> is_digit(#[trigger] text@[j]),
            !overflow ==> acc == decimal_value(text@.take(k as int)),
            overflow ==> decimal_value(text@.take(k as int)) > i64::MAX,
            acc >= 0,
        decreases text.len() - k,
    {
        let ghost prev = text@.take(k as int);
        let d = (text[k] as u32 - '0' as u32) as i64;
        proof {
            assert(text@.take(k + 1).drop_last() =~= prev);
            assert(text@.take(k + 1).last() == text@[k as int]);
        }
        if !overflow {
            if acc <= (i64::MAX - d) / 10 {
                proof {
                    assert(acc * 10 + d <= i64::MAX) by (nonlinear_arith)
                        requires
                            acc <= (i64::MAX - d) / 10,
                            0 <= d < 10,
                    ;
                }
                acc = acc * 10 + d;
            } else {
                proof {
                    assert(acc * 10 + d > i64::MAX) by (nonlinear_arith)
                        requires
                            acc > (i64::MAX - d) / 10,
                            0 <= d < 10,
                    ;
                }
                overflow = true;
            }
        } else {
            proof {
                assert(decimal_value(prev) * 10 + d >= decimal_value(prev)) by (nonlinear_arith)
                    requires
                        0 <= d,
                ;
            }
        }
        k = k + 1;
    }
    proof {
        assert(text@.take(k as int) =~= text@);
    }
    if overflow {
        None
    } else {
        Some(acc)
    }
}

/// The value of a hexadecimal digit.
fn hex_digit(c: char) -> (r: i64)
    requires
        is_hex(c),
    ensures
        r == hex_digit_value(c),
        0 <= r < 16,
{
    if is_digit_char(c) {
        (c as u32 - '0' as u32) as i64
    } else if 'a' <= c && c <= 'f' {
        (c as u32 - 'a' as u32 + 10) as i64
    } else {
        (c as u32 - 'A' as u32 + 10) as i64
    }
}

/// The value of a run of hexadecimal digits, if it is at most
/// `i64::MAX`.
fn parse_hex(text: &Vec<char>) -> (r: Option<i64>)
    requires
        forall|k: int| 0 <= k < text.len() ==> is_hex(#[trigger] text@[k]),
    ensures
        hex_value(text@) <= i64::MAX ==> r == Some(hex_value(text@) as i64),
        hex_value(text@) > i64::MAX ==> r is None,
{
    let mut acc: i64 = 0;
    let mut overflow = false;
    let mut k: usize = 0;
    while k < text.len()
        invariant
            k <= text.len(),
            forall|j: int| 0 <= j < text.len() ==> is_hex(#[trigger] text@[j]),
            !overflow ==> acc == hex_value(text@.take(k as int)),
            overflow ==> hex_value(text@.take(k as int)) > i64::MAX,
            acc >= 0,
        decreases text.len() - k,
    {
        let ghost prev = text@.take(k as int);
        let d = hex_digit(text[k]);
        proof {
            assert(text@.take(k + 1).drop_last() =~= prev);
            assert(text@.take(k + 1).last() == text@[k as int]);
        }
        if !overflow {
            if acc <= (i64::MAX - d) / 16 {
                proof {
                    assert(acc * 16 + d <= i64::MAX) by (nonlinear_arith)
                        requires
                            acc <= (i64::MAX - d) / 16,
                            0 <= d < 16,
                    ;
                }
                acc = acc * 16 + d;
            } else {
                proof {
                    assert(acc * 16 + d > i64::MAX) by (nonlinear_arith)
                        requires
                            acc > (i64::MAX - d) / 16,
                            0 <= d < 16,
                    ;
                }
                overflow = true;
            }
        } else {
            proof {
                assert(hex_value(prev) * 16 + d >= hex_value(prev)) by (nonlinear_arith)
                    requires
                        0 <= d,
                ;
            }
        }
        k = k + 1;
    }
    proof {
        assert(text@.take(k as int) =~= text@);
    }
    if overflow {
        None
    } else {
        Some(acc)
    }
}

} // verus!
