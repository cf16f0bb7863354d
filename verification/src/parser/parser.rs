//! The recursive-descent parser.
//!
//! It never gives up on a syntax error: it reports a diagnostic, skips to
//! a point where parsing can go on (the next `;`, or before `END`, `ELSE`,
//! `UNTIL` or the end of input) and carries on, so that one run reports
//! as many errors as it can. Expression, type and declaration parsers
//! return a placeholder node on error, so that their callers need not
//! handle a missing node.

use vstd::prelude::*;

use crate::ast::{
    BinOp, Block, CaseBranch, CompilationUnit, ConstDecl, Diagnostic, Expr, FieldDecl,
    ForDirection, FuncDecl, FuncSignature, Identifier, ImplementationSection, InterfaceSection,
    Literal, ParamDecl, ProcDecl, ProcSignature, Program, Severity, Span, Statement, TypeDecl,
    TypeExpr, Unit, UnOp, VarDecl,
};
use crate::lexer::token::{lower_text, Token, TokenKind, TokenTag};
use crate::parser::describe::describe;
use crate::parser::grammar::{
    arg_list_s, call_args_s, chain_s, close_index, expect_s, expect_span_s, expected_diag, expr_s,
    identifier_s, index_list_s, join, next_pos, primary_s, relop_of, simple_rest_s, simple_s, span_at,
    sync_pos, tag_at, term_rest_s, term_s, unary_s, Parsed,
};
use crate::parser::model::{
    diags_extend, expr_model, exprs_model, ident_model, lemma_diags_extend_none,
    lemma_diags_extend_trans, lemma_model_span, DiagModel, ExprModel,
};
use crate::strings::push_str;

mod statements;
mod types;
mod declarations;
mod program;

verus! {

/// The parser over a list of tokens.
pub struct Parser {
    tokens: Vec<Token>,
    pos: usize,
    diagnostics: Vec<Diagnostic>,
}

/// Whether a list of tokens can be parsed: it ends with `Eof` (as the
/// lexer's output always does), or is empty.
pub open spec fn parseable(tokens: Seq<Token>) -> bool {
    tokens.len() == 0 || tokens.last().kind.spec_tag() == TokenTag::Eof
}

impl Parser {
    /// The tokens, ending with `Eof`, and the current position in them.
    pub closed spec fn wf(&self) -> bool {
        &&& self.tokens@.len() >= 1
        &&& self.pos < self.tokens@.len()
        &&& self.tokens@.last().kind.spec_tag() == TokenTag::Eof
    }

    /// The index of the current token.
    pub closed spec fn position(&self) -> int {
        self.pos as int
    }

    /// The tokens being parsed.
    pub closed spec fn token_list(&self) -> Seq<Token> {
        self.tokens@
    }

    /// The diagnostics gathered so far.
    pub closed spec fn diags(&self) -> Seq<Diagnostic> {
        self.diagnostics@
    }

    /// The tokens left, the current one included.
    pub closed spec fn remaining(&self) -> int {
        self.tokens@.len() - self.pos
    }

    /// The kind of the current token.
    pub closed spec fn cur(&self) -> TokenTag {
        self.tokens@[self.pos as int].kind.spec_tag()
    }

    /// From `old` to `self` the parser only moved forward: the same tokens,
    /// a position no earlier, and the diagnostics of `old` followed by any
    /// new ones.
    pub closed spec fn steps(&self, old: Parser) -> bool {
        &&& self.wf()
        &&& self.tokens == old.tokens
        &&& old.pos <= self.pos
        &&& old.diagnostics@.len() <= self.diagnostics@.len()
        &&& forall|i: int| 0 <= i < old.diagnostics@.len() ==> #[trigger] self.diagnostics@[i] == old.diagnostics@[i]
    }

    /// From `old` the parser moved as `r` says: forward to `r.pos`, the
    /// tokens unchanged, adding the diagnostics `r.diags`.
    pub open spec fn moved<T>(&self, old: Parser, r: Parsed<T>) -> bool {
        &&& self.steps(old)
        &&& self.position() == r.pos
        &&& diags_extend(self.diags(), old.diags(), r.diags)
    }

    /// A parser at the first of `tokens`. An empty list gets an `Eof`.
    pub fn new(tokens: Vec<Token>) -> (p: Parser)
        requires
            parseable(tokens@),
        ensures
            p.wf(),
            p.position() == 0,
            p.diags().len() == 0,
            tokens@.len() > 0 ==> p.token_list() == tokens@,
            tokens@.len() == 0 ==> p.token_list().len() == 1,
            tokens@.len() > 0 ==> p.cur() == tokens@[0].kind.spec_tag(),
            tokens@.len() == 0 ==> p.cur() == TokenTag::Eof,
    {
        let mut tokens = tokens;
        if tokens.len() == 0 {
            tokens.push(Token::new(TokenKind::Eof, Span::new(0, 0)));
        }
        Parser { tokens, pos: 0, diagnostics: Vec::new() }
    }

    fn peek(&self) -> (r: &TokenKind)
        requires
            self.wf(),
        ensures
            *r == self.tokens@[self.pos as int].kind,
    {
        &self.tokens[self.pos].kind
    }

    fn peek_tag(&self) -> (r: TokenTag)
        requires
            self.wf(),
        ensures
            r == self.cur(),
    {
        self.tokens[self.pos].kind.tag()
    }

    fn peek_span(&self) -> (r: Span)
        requires
            self.wf(),
        ensures
            r == self.tokens@[self.pos as int].span,
    {
        self.tokens[self.pos].span
    }

    /// The span of the token before the current one (of the first token
    /// at the start).
    fn previous_span(&self) -> (r: Span)
        requires
            self.wf(),
        ensures
            r == self.tokens@[if self.pos == 0 { 0 } else { self.pos - 1 }].span,
    {
        if self.pos == 0 {
            self.tokens[0].span
        } else {
            self.tokens[self.pos - 1].span
        }
    }

    fn is_eof(&self) -> (r: bool)
        requires
            self.wf(),
        ensures
            r == (self.cur() == TokenTag::Eof),
    {
        self.peek_tag() == TokenTag::Eof
    }

    /// Moves to the next token; at the last token (`Eof`) stays there.
    fn advance(&mut self)
        requires
            old(self).wf(),
        ensures
            final(self).steps(*old(self)),
            final(self).diagnostics == old(self).diagnostics,
            old(self).cur() != TokenTag::Eof ==> final(self).pos == old(self).pos + 1,
            final(self).pos <= old(self).pos + 1,
            final(self).pos == next_pos(old(self).token_list(), old(self).position()),
    {
        if self.pos < self.tokens.len() - 1 {
            self.pos = self.pos + 1;
        }
    }

    /// Whether the current token is of kind `tag` (its contents aside).
    fn check(&self, tag: TokenTag) -> (r: bool)
        requires
            self.wf(),
        ensures
            r == (self.cur() == tag),
    {
        self.peek_tag() == tag
    }

    /// Moves past the current token if it is of kind `tag`.
    fn eat(&mut self, tag: TokenTag) -> (r: bool)
        requires
            old(self).wf(),
        ensures
            final(self).steps(*old(self)),
            final(self).diagnostics == old(self).diagnostics,
            r == (old(self).cur() == tag),
            r && tag != TokenTag::Eof ==> final(self).pos == old(self).pos + 1,
            !r ==> final(self).pos == old(self).pos,
            r ==> final(self).pos == next_pos(old(self).token_list(), old(self).position()),
    {
        if self.check(tag) {
            self.advance();
            true
        } else {
            false
        }
    }

    fn error(&mut self, span: Span, message: String)
        requires
            old(self).wf(),
        ensures
            final(self).steps(*old(self)),
            final(self).pos == old(self).pos,
            final(self).diagnostics@.len() == old(self).diagnostics@.len() + 1,
            final(self).diagnostics@.last().span == span,
            diags_extend(final(self).diagnostics@, old(self).diagnostics@, seq![DiagModel { span, message: message@ }]),
    {
        self.diagnostics.push(Diagnostic::new(span, Severity::Error, message));
    }

    /// `"expected {what}, found {current}"` at the current token.
    fn error_expected(&mut self, what: &str)
        requires
            old(self).wf(),
        ensures
            final(self).steps(*old(self)),
            final(self).pos == old(self).pos,
            final(self).diagnostics@.len() == old(self).diagnostics@.len() + 1,
            diags_extend(
                final(self).diagnostics@,
                old(self).diagnostics@,
                seq![expected_diag(old(self).token_list(), old(self).position(), what@)],
            ),
    {
        let span = self.peek_span();
        let mut m = "expected ".to_owned();
        push_str(&mut m, what);
        push_str(&mut m, ", found ");
        let found = describe(self.peek());
        push_str(&mut m, found.as_str());
        self.error(span, m);
    }

    /// Moves past a token of kind `tag`, or reports that `what` was
    /// expected.
    fn expect(&mut self, tag: TokenTag, what: &str) -> (r: bool)
        requires
            old(self).wf(),
        ensures
            final(self).steps(*old(self)),
            r == (old(self).cur() == tag),
            r ==> final(self).diagnostics == old(self).diagnostics,
            !r ==> final(self).diagnostics@.len() == old(self).diagnostics@.len() + 1,
            r && tag != TokenTag::Eof ==> final(self).pos == old(self).pos + 1,
            !r ==> final(self).pos == old(self).pos,
            final(self).moved(*old(self), expect_s(old(self).token_list(), old(self).position(), tag, what@)),
    {
        if self.eat(tag) {
            true
        } else {
            self.error_expected(what);
            false
        }
    }

    /// As `expect`; returns the span of the token moved past, or of the
    /// current token when it is not of kind `tag`.
    fn expect_and_span(&mut self, tag: TokenTag, what: &str) -> (r: Span)
        requires
            old(self).wf(),
        ensures
            final(self).steps(*old(self)),
            old(self).cur() == tag && tag != TokenTag::Eof ==> final(self).pos == old(self).pos + 1
                && r == old(self).tokens@[old(self).pos as int].span,
            old(self).cur() != tag ==> final(self).pos == old(self).pos && r == old(self).tokens@[old(self).pos as int].span,
            final(self).moved(*old(self), expect_span_s(old(self).token_list(), old(self).position(), tag, what@)),
            r == expect_span_s(old(self).token_list(), old(self).position(), tag, what@).value,
    {
        if self.expect(tag, what) {
            self.previous_span()
        } else {
            self.peek_span()
        }
    }

    /// Recovery from a syntax error: skips to the next `;` (moving past
    /// it), or to just before `END`, `ELSE`, `UNTIL` or the end of input.
    fn synchronize_to_statement_boundary(&mut self)
        requires
            old(self).wf(),
        ensures
            final(self).steps(*old(self)),
            final(self).diagnostics == old(self).diagnostics,
            ({
                let t = final(self).cur();
                t == TokenTag::End || t == TokenTag::Else || t == TokenTag::Until || t == TokenTag::Eof
                    || (final(self).pos > 0 && final(self).tokens@[final(self).pos - 1].kind.spec_tag() == TokenTag::Semicolon
                        && final(self).pos > old(self).pos)
            }),
            ({
                let t = old(self).cur();
                !(t == TokenTag::End || t == TokenTag::Else || t == TokenTag::Until || t == TokenTag::Eof)
                    ==> final(self).pos > old(self).pos
            }),
            final(self).position() == sync_pos(old(self).token_list(), old(self).position()),
    {
        loop
            invariant
                self.steps(*old(self)),
                self.diagnostics == old(self).diagnostics,
                sync_pos(self.tokens@, self.pos as int) == sync_pos(old(self).tokens@, old(self).pos as int),
                ({
                    let t = old(self).cur();
                    !(t == TokenTag::End || t == TokenTag::Else || t == TokenTag::Until || t == TokenTag::Eof)
                        ==> self.pos > old(self).pos || self.pos == old(self).pos
                }),
                self.pos == old(self).pos ==> self.cur() == old(self).cur(),
            decreases self.tokens@.len() - self.pos,
        {
            let t = self.peek_tag();
            if t == TokenTag::Semicolon {
                self.advance();
                return;
            }
            if t == TokenTag::End || t == TokenTag::Else || t == TokenTag::Until || t == TokenTag::Eof {
                return;
            }
            self.advance();
        }
    }

    /// An identifier; anything else is an error, and an empty name at the
    /// current token stands in.
    fn parse_identifier(&mut self, what: &str) -> (r: Identifier)
        requires
            old(self).wf(),
        ensures
            final(self).steps(*old(self)),
            old(self).cur() == TokenTag::Identifier ==> final(self).pos == old(self).pos + 1
                && final(self).diagnostics == old(self).diagnostics
                && r.name@ == old(self).tokens@[old(self).pos as int].kind.spec_text()
                && r.span == old(self).tokens@[old(self).pos as int].span,
            old(self).cur() != TokenTag::Identifier ==> final(self).pos == old(self).pos
                && final(self).diagnostics@.len() == old(self).diagnostics@.len() + 1
                && r.name@.len() == 0 && r.span == old(self).tokens@[old(self).pos as int].span,
            final(self).moved(*old(self), identifier_s(old(self).token_list(), old(self).position(), what@)),
            ident_model(r) == identifier_s(old(self).token_list(), old(self).position(), what@).value,
    {
        let span = self.peek_span();
        match self.peek() {
            TokenKind::Identifier(name) => {
                let name = name.clone();
                self.advance();
                Identifier::new(name, span)
            },
            _ => {
                self.error_expected(what);
                Identifier::new(String::new(), span)
            },
        }
    }
}

impl Parser {
    /// Two moves in a row.
    pub proof fn lemma_moved_chain<A, B>(a: Parser, b: Parser, c: Parser, r1: Parsed<A>, r2: Parsed<B>)
        requires
            b.moved(a, r1),
            c.moved(b, r2),
        ensures
            c.steps(a),
            c.position() == r2.pos,
            diags_extend(c.diags(), a.diags(), r1.diags + r2.diags),
    {
        lemma_diags_extend_trans(a.diags(), b.diags(), c.diags(), r1.diags, r2.diags);
    }

    /// The relational operator at the current token, if any.
    fn peek_relop(&self) -> (r: Option<BinOp>)
        requires
            self.wf(),
        ensures
            r is Some <==> is_relop(self.cur()),
            r == relop_of(self.cur()),
    {
        match self.peek_tag() {
            TokenTag::Eq => Some(BinOp::Eq),
            TokenTag::Ne => Some(BinOp::NotEq),
            TokenTag::Lt => Some(BinOp::Lt),
            TokenTag::Gt => Some(BinOp::Gt),
            TokenTag::Le => Some(BinOp::LtEq),
            TokenTag::Ge => Some(BinOp::GtEq),
            _ => None,
        }
    }

    /// An expression (ISO 7185, 6.7.1): a simple expression, or two joined
    /// by one relational operator. Relational operators do not chain; a
    /// second one is reported.
    pub fn parse_expr(&mut self) -> (e: Expr)
        requires
            old(self).wf(),
        ensures
            final(self).moved(*old(self), expr_s(old(self).token_list(), old(self).position())),
            expr_model(e) == expr_s(old(self).token_list(), old(self).position()).value,
        decreases old(self).remaining(), 7nat,
    {
        let ghost ts = self.tokens@;
        let ghost p = self.pos as int;
        let ghost s0 = *self;
        let lhs = self.parse_simple_expr();
        let ghost s1 = *self;
        let ghost l = simple_s(ts, p);
        let op = match self.peek_relop() {
            Some(op) => op,
            None => {
                proof {
                    assert(expr_s(ts, p) == l) by {
                        reveal_with_fuel(expr_s, 1);
                        reveal_with_fuel(simple_s, 1);
                    }
                }
                return lhs;
            },
        };
        self.advance();
        let ghost s2 = *self;
        let rhs = self.parse_simple_expr();
        let ghost s3 = *self;
        let ghost r = simple_s(ts, s2.pos as int);
        proof {
            lemma_model_span(lhs);
            lemma_model_span(rhs);
            lemma_diags_extend_trans(s0.diagnostics@, s1.diagnostics@, s2.diagnostics@, l.diags, Seq::empty());
            assert(l.diags + Seq::<DiagModel>::empty() =~= l.diags);
            lemma_diags_extend_trans(s0.diagnostics@, s2.diagnostics@, s3.diagnostics@, l.diags, r.diags);
        }
        let span = Span::new(lhs.span().start, rhs.span().end);
        let expr = Expr::BinaryOp { op, lhs: Box::new(lhs), rhs: Box::new(rhs), span };
        let ghost chained: Seq<DiagModel> = if relop_of(tag_at(ts, r.pos)) is Some {
            seq![
                DiagModel {
                    span: span_at(ts, r.pos),
                    message: "relational operators cannot be chained (e.g. 'a < b < c'); use parentheses to group comparisons"@,
                },
            ]
        } else {
            Seq::empty()
        };
        if self.peek_relop().is_some() {
            let extra_span = self.peek_span();
            self.error(
                extra_span,
                "relational operators cannot be chained (e.g. 'a < b < c'); use parentheses to group comparisons".to_owned(),
            );
        }
        proof {
            lemma_diags_extend_trans(s0.diagnostics@, s3.diagnostics@, self.diagnostics@, l.diags + r.diags, chained);
            assert(expr_s(ts, p) == Parsed { value: join(l.value, op, r.value), pos: r.pos, diags: l.diags + r.diags + chained }) by {
                reveal_with_fuel(expr_s, 1);
                reveal_with_fuel(simple_s, 1);
            }
        }
        expr
    }

    /// Terms joined by `+`, `-` and `OR`, left to right.
    fn parse_simple_expr(&mut self) -> (e: Expr)
        requires
            old(self).wf(),
        ensures
            final(self).moved(*old(self), simple_s(old(self).token_list(), old(self).position())),
            expr_model(e) == simple_s(old(self).token_list(), old(self).position()).value,
        decreases old(self).remaining(), 6nat,
    {
        let ghost ts = self.tokens@;
        let ghost p = self.pos as int;
        let ghost s0 = *self;
        let mut lhs = self.parse_term();
        let ghost t = term_s(ts, p);
        let ghost s1 = *self;
        let ghost total = simple_rest_s(ts, t.value, t.pos);
        proof {
            assert(simple_s(ts, p) == Parsed { value: total.value, pos: total.pos, diags: t.diags + total.diags }) by {
                reveal_with_fuel(simple_s, 1);
                reveal_with_fuel(term_s, 1);
                reveal_with_fuel(simple_rest_s, 1);
            }
            lemma_diags_extend_none(s1.diagnostics@);
        }
        let ghost mut acc: Seq<DiagModel> = Seq::empty();
        loop
            invariant_except_break
                simple_rest_s(ts, expr_model(lhs), self.pos as int).value == total.value,
                simple_rest_s(ts, expr_model(lhs), self.pos as int).pos == total.pos,
                acc + simple_rest_s(ts, expr_model(lhs), self.pos as int).diags == total.diags,
            invariant
                self.steps(s1),
                self.steps(*old(self)),
                ts == self.tokens@,
                diags_extend(self.diagnostics@, s1.diagnostics@, acc),
            ensures
                self.steps(s1),
                diags_extend(self.diagnostics@, s1.diagnostics@, acc),
                expr_model(lhs) == total.value,
                self.pos == total.pos,
                acc == total.diags,
            decreases self.remaining(),
        {
            let ghost sa = *self;
            let ghost lm = expr_model(lhs);
            let op = match self.peek_tag() {
                TokenTag::Plus => BinOp::Add,
                TokenTag::Minus => BinOp::Sub,
                TokenTag::Or => BinOp::Or,
                _ => {
                    proof {
                        assert(simple_rest_s(ts, lm, sa.pos as int) == Parsed { value: lm, pos: sa.pos as int, diags: Seq::<DiagModel>::empty() }) by {
                            reveal_with_fuel(simple_rest_s, 1);
                            reveal_with_fuel(term_s, 1);
                        }
                        assert(acc + Seq::<DiagModel>::empty() =~= acc);
                    }
                    break;
                },
            };
            self.advance();
            let ghost sb = *self;
            let rhs = self.parse_term();
            let ghost u = term_s(ts, sb.pos as int);
            let ghost next = simple_rest_s(ts, join(lm, op, u.value), u.pos);
            proof {
                assert(simple_rest_s(ts, lm, sa.pos as int) == Parsed { value: next.value, pos: next.pos, diags: u.diags + next.diags }) by {
                    reveal_with_fuel(simple_rest_s, 1);
                    reveal_with_fuel(term_s, 1);
                }
                lemma_diags_extend_trans(s1.diagnostics@, sb.diagnostics@, self.diagnostics@, acc, u.diags);
                assert(acc + (u.diags + next.diags) =~= (acc + u.diags) + next.diags);
                acc = acc + u.diags;
                lemma_model_span(lhs);
                lemma_model_span(rhs);
            }
            let span = Span::new(lhs.span().start, rhs.span().end);
            lhs = Expr::BinaryOp { op, lhs: Box::new(lhs), rhs: Box::new(rhs), span };
        }
        proof {
            lemma_diags_extend_trans(s0.diagnostics@, s1.diagnostics@, self.diagnostics@, t.diags, acc);
        }
        lhs
    }

    /// Factors joined by `*`, `/`, `DIV`, `MOD` and `AND`, left to right:
    /// `AND` binds tighter than `OR`.
    fn parse_term(&mut self) -> (e: Expr)
        requires
            old(self).wf(),
        ensures
            final(self).moved(*old(self), term_s(old(self).token_list(), old(self).position())),
            expr_model(e) == term_s(old(self).token_list(), old(self).position()).value,
        decreases old(self).remaining(), 5nat,
    {
        let ghost ts = self.tokens@;
        let ghost p = self.pos as int;
        let ghost s0 = *self;
        let mut lhs = self.parse_unary();
        let ghost t = unary_s(ts, p);
        let ghost s1 = *self;
        let ghost total = term_rest_s(ts, t.value, t.pos);
        proof {
            assert(term_s(ts, p) == Parsed { value: total.value, pos: total.pos, diags: t.diags + total.diags }) by {
                reveal_with_fuel(term_s, 1);
                reveal_with_fuel(unary_s, 1);
                reveal_with_fuel(term_rest_s, 1);
            }
            lemma_diags_extend_none(s1.diagnostics@);
        }
        let ghost mut acc: Seq<DiagModel> = Seq::empty();
        loop
            invariant_except_break
                term_rest_s(ts, expr_model(lhs), self.pos as int).value == total.value,
                term_rest_s(ts, expr_model(lhs), self.pos as int).pos == total.pos,
                acc + term_rest_s(ts, expr_model(lhs), self.pos as int).diags == total.diags,
            invariant
                self.steps(s1),
                self.steps(*old(self)),
                ts == self.tokens@,
                diags_extend(self.diagnostics@, s1.diagnostics@, acc),
            ensures
                self.steps(s1),
                diags_extend(self.diagnostics@, s1.diagnostics@, acc),
                expr_model(lhs) == total.value,
                self.pos == total.pos,
                acc == total.diags,
            decreases self.remaining(),
        {
            let ghost sa = *self;
            let ghost lm = expr_model(lhs);
            let op = match self.peek_tag() {
                TokenTag::Star => BinOp::Mul,
                TokenTag::Slash => BinOp::Div,
                TokenTag::Div => BinOp::IntDiv,
                TokenTag::Mod => BinOp::Mod,
                TokenTag::And => BinOp::And,
                _ => {
                    proof {
                        assert(term_rest_s(ts, lm, sa.pos as int) == Parsed { value: lm, pos: sa.pos as int, diags: Seq::<DiagModel>::empty() }) by {
                            reveal_with_fuel(term_rest_s, 1);
                            reveal_with_fuel(unary_s, 1);
                        }
                        assert(acc + Seq::<DiagModel>::empty() =~= acc);
                    }
                    break;
                },
            };
            self.advance();
            let ghost sb = *self;
            let rhs = self.parse_unary();
            let ghost u = unary_s(ts, sb.pos as int);
            let ghost next = term_rest_s(ts, join(lm, op, u.value), u.pos);
            proof {
                assert(term_rest_s(ts, lm, sa.pos as int) == Parsed { value: next.value, pos: next.pos, diags: u.diags + next.diags }) by {
                    reveal_with_fuel(term_rest_s, 1);
                    reveal_with_fuel(unary_s, 1);
                }
                lemma_diags_extend_trans(s1.diagnostics@, sb.diagnostics@, self.diagnostics@, acc, u.diags);
                assert(acc + (u.diags + next.diags) =~= (acc + u.diags) + next.diags);
                acc = acc + u.diags;
                lemma_model_span(lhs);
                lemma_model_span(rhs);
            }
            let span = Span::new(lhs.span().start, rhs.span().end);
            lhs = Expr::BinaryOp { op, lhs: Box::new(lhs), rhs: Box::new(rhs), span };
        }
        proof {
            lemma_diags_extend_trans(s0.diagnostics@, s1.diagnostics@, self.diagnostics@, t.diags, acc);
        }
        lhs
    }

    /// `NOT` and the signs, which may repeat; a unary `+` makes no node.
    fn parse_unary(&mut self) -> (e: Expr)
        requires
            old(self).wf(),
        ensures
            final(self).moved(*old(self), unary_s(old(self).token_list(), old(self).position())),
            expr_model(e) == unary_s(old(self).token_list(), old(self).position()).value,
        decreases old(self).remaining(), 4nat,
    {
        let ghost ts = self.tokens@;
        let ghost p = self.pos as int;
        let ghost s0 = *self;
        let t = self.peek_tag();
        if t == TokenTag::Not || t == TokenTag::Minus || t == TokenTag::Plus {
            let start = self.peek_span();
            self.advance();
            let ghost s1 = *self;
            let operand = self.parse_unary();
            let ghost o = unary_s(ts, s1.pos as int);
            proof {
                lemma_model_span(operand);
                lemma_diags_extend_trans(s0.diagnostics@, s1.diagnostics@, self.diagnostics@, Seq::empty(), o.diags);
                assert(Seq::<DiagModel>::empty() + o.diags =~= o.diags);
                reveal_with_fuel(unary_s, 1);
                reveal_with_fuel(primary_s, 1);
                reveal_with_fuel(chain_s, 1);
            }
            if t == TokenTag::Plus {
                operand
            } else {
                let span = Span::new(start.start, operand.span().end);
                let op = if t == TokenTag::Not {
                    UnOp::Not
                } else {
                    UnOp::Neg
                };
                Expr::UnaryOp { op, operand: Box::new(operand), span }
            }
        } else {
            let expr = self.parse_primary();
            let ghost s1 = *self;
            let ghost e = primary_s(ts, p);
            let r = self.parse_postfix_chain(expr);
            proof {
                lemma_diags_extend_trans(s0.diagnostics@, s1.diagnostics@, self.diagnostics@, e.diags, chain_s(ts, e.value, s1.pos as int).diags);
                reveal_with_fuel(unary_s, 1);
                reveal_with_fuel(primary_s, 1);
                reveal_with_fuel(chain_s, 1);
            }
            r
        }
    }

    /// As many postfix operators as follow: indexing `[i]` (`[i, j]` is
    /// `[i][j]`), field access `.f` and dereference `^`, in any order.
    pub fn parse_postfix_chain(&mut self, expr: Expr) -> (e: Expr)
        requires
            old(self).wf(),
        ensures
            final(self).moved(*old(self), chain_s(old(self).token_list(), expr_model(expr), old(self).position())),
            expr_model(e) == chain_s(old(self).token_list(), expr_model(expr), old(self).position()).value,
        decreases old(self).remaining(), 1nat,
    {
        let ghost ts = self.tokens@;
        let ghost s0 = *self;
        let ghost total = chain_s(ts, expr_model(expr), s0.pos as int);
        let ghost mut acc: Seq<DiagModel> = Seq::empty();
        let mut expr = expr;
        proof {
            lemma_diags_extend_none(s0.diagnostics@);
        }
        loop
            invariant_except_break
                chain_s(ts, expr_model(expr), self.pos as int).value == total.value,
                chain_s(ts, expr_model(expr), self.pos as int).pos == total.pos,
                acc + chain_s(ts, expr_model(expr), self.pos as int).diags == total.diags,
            invariant
                self.steps(s0),
                s0 == *old(self),
                ts == self.tokens@,
                diags_extend(self.diagnostics@, s0.diagnostics@, acc),
            ensures
                self.steps(s0),
                diags_extend(self.diagnostics@, s0.diagnostics@, acc),
                expr_model(expr) == total.value,
                self.pos == total.pos,
                acc == total.diags,
            decreases self.remaining(),
        {
            let ghost sa = *self;
            let ghost em = expr_model(expr);
            match self.peek_tag() {
                TokenTag::LBracket => {
                    self.advance();
                    let ghost sb = *self;
                    let ghost ix = index_list_s(ts, em, sb.pos as int);
                    let ghost mut iacc: Seq<DiagModel> = Seq::empty();
                    proof {
                        lemma_diags_extend_none(sb.diagnostics@);
                    }
                    loop
                        invariant_except_break
                            index_list_s(ts, expr_model(expr), self.pos as int).value == ix.value,
                            index_list_s(ts, expr_model(expr), self.pos as int).pos == ix.pos,
                            iacc + index_list_s(ts, expr_model(expr), self.pos as int).diags == ix.diags,
                        invariant
                            self.steps(sb),
                            self.steps(*old(self)),
                            sb.pos > sa.pos,
                            sa.pos >= old(self).pos,
                            self.pos > old(self).pos,
                            ts == self.tokens@,
                            diags_extend(self.diagnostics@, sb.diagnostics@, iacc),
                        ensures
                            self.steps(sb),
                            self.pos > old(self).pos,
                            diags_extend(self.diagnostics@, sb.diagnostics@, iacc),
                            expr_model(expr) == ix.value,
                            self.pos == ix.pos,
                            iacc == ix.diags,
                        decreases self.remaining(),
                    {
                        let ghost sc = *self;
                        let ghost im = expr_model(expr);
                        let index = self.parse_expr();
                        let ghost i = expr_s(ts, sc.pos as int);
                        proof {
                            lemma_model_span(expr);
                            lemma_model_span(index);
                            lemma_diags_extend_trans(sb.diagnostics@, sc.diagnostics@, self.diagnostics@, iacc, i.diags);
                        }
                        let span = Span::new(expr.span().start, index.span().end);
                        expr = Expr::IndexAccess { array: Box::new(expr), index: Box::new(index), span };
                        if self.check(TokenTag::Comma) {
                            self.advance();
                            proof {
                                let rest = index_list_s(ts, expr_model(expr), self.pos as int);
                                assert(index_list_s(ts, im, sc.pos as int) == Parsed { value: rest.value, pos: rest.pos, diags: i.diags + rest.diags }) by {
                                    reveal_with_fuel(index_list_s, 1);
                                    reveal_with_fuel(expr_s, 1);
                                }
                                assert(iacc + (i.diags + rest.diags) =~= (iacc + i.diags) + rest.diags);
                                iacc = iacc + i.diags;
                            }
                        } else {
                            proof {
                                assert(index_list_s(ts, im, sc.pos as int) == Parsed { value: expr_model(expr), pos: i.pos, diags: i.diags }) by {
                                    reveal_with_fuel(index_list_s, 1);
                                    reveal_with_fuel(expr_s, 1);
                                }
                                iacc = iacc + i.diags;
                            }
                            break;
                        }
                    }
                    let ghost sd = *self;
                    let close = self.expect_and_span(TokenTag::RBracket, "']'");
                    let ghost cl = expect_span_s(ts, sd.pos as int, TokenTag::RBracket, "']'"@);
                    proof {
                        lemma_diags_extend_trans(s0.diagnostics@, sa.diagnostics@, sb.diagnostics@, acc, Seq::empty());
                        assert(acc + Seq::<DiagModel>::empty() =~= acc);
                        lemma_diags_extend_trans(s0.diagnostics@, sb.diagnostics@, sd.diagnostics@, acc, ix.diags);
                        lemma_diags_extend_trans(s0.diagnostics@, sd.diagnostics@, self.diagnostics@, acc + ix.diags, cl.diags);
                    }
                    expr = match expr {
                        Expr::IndexAccess { array, index, span } => {
                            let end = if close.end > span.end {
                                close.end
                            } else {
                                span.end
                            };
                            Expr::IndexAccess { array, index, span: Span::new(span.start, end) }
                        },
                        other => other,
                    };
                    proof {
                        let rest = chain_s(ts, expr_model(expr), self.pos as int);
                        assert(expr_model(expr) == close_index(ix.value, cl.value.end));
                        assert(chain_s(ts, em, sa.pos as int) == Parsed { value: rest.value, pos: rest.pos, diags: ix.diags + cl.diags + rest.diags }) by {
                            reveal_with_fuel(chain_s, 1);
                            reveal_with_fuel(index_list_s, 1);
                        }
                        assert(acc + (ix.diags + cl.diags + rest.diags) =~= (acc + ix.diags + cl.diags) + rest.diags);
                        acc = acc + ix.diags + cl.diags;
                    }
                },
                TokenTag::Dot => {
                    self.advance();
                    let ghost sb = *self;
                    let field = self.parse_identifier("field name");
                    let ghost f = identifier_s(ts, sb.pos as int, "field name"@);
                    proof {
                        lemma_model_span(expr);
                        lemma_diags_extend_trans(s0.diagnostics@, sa.diagnostics@, sb.diagnostics@, acc, Seq::empty());
                        assert(acc + Seq::<DiagModel>::empty() =~= acc);
                        lemma_diags_extend_trans(s0.diagnostics@, sb.diagnostics@, self.diagnostics@, acc, f.diags);
                    }
                    let span = Span::new(expr.span().start, field.span.end);
                    expr = Expr::FieldAccess { record: Box::new(expr), field, span };
                    proof {
                        let rest = chain_s(ts, expr_model(expr), self.pos as int);
                        assert(chain_s(ts, em, sa.pos as int) == Parsed { value: rest.value, pos: rest.pos, diags: f.diags + rest.diags }) by {
                            reveal_with_fuel(chain_s, 1);
                            reveal_with_fuel(index_list_s, 1);
                        }
                        assert(acc + (f.diags + rest.diags) =~= (acc + f.diags) + rest.diags);
                        acc = acc + f.diags;
                    }
                },
                TokenTag::Caret => {
                    let caret_span = self.peek_span();
                    self.advance();
                    proof {
                        lemma_model_span(expr);
                    }
                    let span = Span::new(expr.span().start, caret_span.end);
                    expr = Expr::Deref { pointer: Box::new(expr), span };
                    proof {
                        assert(chain_s(ts, em, sa.pos as int) == chain_s(ts, expr_model(expr), self.pos as int)) by {
                            reveal_with_fuel(chain_s, 1);
                            reveal_with_fuel(index_list_s, 1);
                        }
                    }
                },
                _ => {
                    proof {
                        assert(chain_s(ts, em, sa.pos as int) == Parsed { value: em, pos: sa.pos as int, diags: Seq::<DiagModel>::empty() }) by {
                            reveal_with_fuel(chain_s, 1);
                            reveal_with_fuel(index_list_s, 1);
                        }
                        assert(acc + Seq::<DiagModel>::empty() =~= acc);
                    }
                    break;
                },
            }
        }
        expr
    }

    /// A literal, a name, a function call `f(args)`, or `(expr)`. Anything
    /// else is an error; the token is skipped unless it can end an
    /// expression, and `0` stands in.
    fn parse_primary(&mut self) -> (e: Expr)
        requires
            old(self).wf(),
        ensures
            final(self).moved(*old(self), primary_s(old(self).token_list(), old(self).position())),
            expr_model(e) == primary_s(old(self).token_list(), old(self).position()).value,
        decreases old(self).remaining(), 2nat,
    {
        let ghost ts = self.tokens@;
        let ghost p = self.pos as int;
        let ghost s0 = *self;
        proof {
            lemma_diags_extend_none(s0.diagnostics@);
            reveal_with_fuel(primary_s, 1);
            reveal_with_fuel(call_args_s, 1);
            reveal_with_fuel(expr_s, 1);
        }
        let span = self.peek_span();
        match self.peek() {
            TokenKind::IntegerLiteral(v) => {
                let v = *v;
                self.advance();
                Expr::IntLiteral(v, span)
            },
            TokenKind::Nil => {
                self.advance();
                Expr::NilLiteral(span)
            },
            TokenKind::HexIntegerLiteral(v) => {
                let v = *v;
                self.advance();
                Expr::HexIntLiteral(v, span)
            },
            TokenKind::RealLiteral(text) => {
                let text = text.clone();
                self.advance();
                Expr::RealLiteral(text, span)
            },
            TokenKind::StringLiteral(text) => {
                let text = text.clone();
                self.advance();
                Expr::StringLiteral(text, span)
            },
            TokenKind::Identifier(name) => {
                let name = name.clone();
                self.advance();
                if is_word(&name, "true") {
                    Expr::BoolLiteral(true, span)
                } else if is_word(&name, "false") {
                    Expr::BoolLiteral(false, span)
                } else if self.check(TokenTag::LParen) {
                    self.advance();
                    let ghost s1 = *self;
                    let args = self.parse_call_args();
                    let ghost s2 = *self;
                    let ghost a = call_args_s(ts, s1.pos as int);
                    let close = self.expect_and_span(TokenTag::RParen, "')'");
                    let end = if close.end > span.end {
                        close.end
                    } else {
                        span.end
                    };
                    proof {
                        lemma_diags_extend_trans(s0.diagnostics@, s1.diagnostics@, s2.diagnostics@, Seq::empty(), a.diags);
                        assert(Seq::<DiagModel>::empty() + a.diags =~= a.diags);
                        lemma_diags_extend_trans(s0.diagnostics@, s2.diagnostics@, self.diagnostics@, a.diags, expect_span_s(ts, s2.pos as int, TokenTag::RParen, "')'"@).diags);
                    }
                    Expr::FuncCall { name: Identifier::new(name, span), args, span: Span::new(span.start, end) }
                } else {
                    Expr::Identifier(Identifier::new(name, span))
                }
            },
            TokenKind::LParen => {
                self.advance();
                let ghost s1 = *self;
                let inner = self.parse_expr();
                let ghost s2 = *self;
                let ghost i = expr_s(ts, s1.pos as int);
                let close = self.expect_and_span(TokenTag::RParen, "')'");
                proof {
                    lemma_diags_extend_trans(s0.diagnostics@, s1.diagnostics@, s2.diagnostics@, Seq::empty(), i.diags);
                    assert(Seq::<DiagModel>::empty() + i.diags =~= i.diags);
                    lemma_diags_extend_trans(s0.diagnostics@, s2.diagnostics@, self.diagnostics@, i.diags, expect_span_s(ts, s2.pos as int, TokenTag::RParen, "')'"@).diags);
                }
                Expr::Paren(Box::new(inner), Span::new(span.start, close.end))
            },
            _ => {
                let t = self.peek_tag();
                self.error_expected("expression");
                if !(t == TokenTag::Semicolon || t == TokenTag::End || t == TokenTag::Then || t == TokenTag::Do
                    || t == TokenTag::Else || t == TokenTag::RParen || t == TokenTag::Comma || t == TokenTag::Eof) {
                    self.advance();
                }
                Expr::IntLiteral(0, span)
            },
        }
    }

    /// The arguments of a call, up to (not past) the closing `)`.
    fn parse_call_args(&mut self) -> (args: Vec<Expr>)
        requires
            old(self).wf(),
        ensures
            final(self).moved(*old(self), call_args_s(old(self).token_list(), old(self).position())),
            exprs_model(args@) == call_args_s(old(self).token_list(), old(self).position()).value,
        decreases old(self).remaining(), 8nat,
    {
        let ghost ts = self.tokens@;
        let ghost s0 = *self;
        let mut args: Vec<Expr> = Vec::new();
        proof {
            lemma_diags_extend_none(s0.diagnostics@);
            reveal_with_fuel(call_args_s, 1);
            reveal_with_fuel(arg_list_s, 1);
        }
        if !self.check(TokenTag::RParen) {
            let ghost total = arg_list_s(ts, s0.pos as int);
            let ghost mut acc: Seq<DiagModel> = Seq::empty();
            proof {
                assert(exprs_model(args@) =~= Seq::<ExprModel>::empty());
                assert(Seq::<ExprModel>::empty() + total.value =~= total.value);
                assert(Seq::<DiagModel>::empty() + total.diags =~= total.diags);
            }
            loop
                invariant_except_break
                    exprs_model(args@) + arg_list_s(ts, self.pos as int).value == total.value,
                    arg_list_s(ts, self.pos as int).pos == total.pos,
                    acc + arg_list_s(ts, self.pos as int).diags == total.diags,
                invariant
                    self.steps(s0),
                    self.steps(*old(self)),
                    ts == self.tokens@,
                    diags_extend(self.diagnostics@, s0.diagnostics@, acc),
                ensures
                    self.steps(s0),
                    diags_extend(self.diagnostics@, s0.diagnostics@, acc),
                    exprs_model(args@) == total.value,
                    self.pos == total.pos,
                    acc == total.diags,
                decreases self.remaining(),
            {
                let ghost sa = *self;
                let e = self.parse_expr();
                let ghost a = expr_s(ts, sa.pos as int);
                proof {
                    lemma_diags_extend_trans(s0.diagnostics@, sa.diagnostics@, self.diagnostics@, acc, a.diags);
                }
                let ghost before = args@;
                args.push(e);
                proof {
                    assert(args@.drop_last() =~= before);
                    assert(exprs_model(args@) == exprs_model(before).push(expr_model(e)));
                }
                if self.check(TokenTag::Comma) {
                    self.advance();
                    proof {
                        let rest = arg_list_s(ts, self.pos as int);
                        assert(arg_list_s(ts, sa.pos as int) == Parsed { value: seq![a.value] + rest.value, pos: rest.pos, diags: a.diags + rest.diags }) by {
                            reveal_with_fuel(arg_list_s, 1);
                            reveal_with_fuel(expr_s, 1);
                        }
                        assert(exprs_model(before) + (seq![a.value] + rest.value) =~= exprs_model(args@) + rest.value);
                        assert(acc + (a.diags + rest.diags) =~= (acc + a.diags) + rest.diags);
                        acc = acc + a.diags;
                    }
                } else {
                    proof {
                        assert(arg_list_s(ts, sa.pos as int) == Parsed { value: seq![a.value], pos: a.pos, diags: a.diags }) by {
                            reveal_with_fuel(arg_list_s, 1);
                            reveal_with_fuel(expr_s, 1);
                        }
                        assert(exprs_model(before) + seq![a.value] =~= exprs_model(args@));
                        acc = acc + a.diags;
                    }
                    break;
                }
            }
        }
        args
    }
}

/// The relational operators.

pub open spec fn is_relop(t: TokenTag) -> bool {
    t == TokenTag::Eq || t == TokenTag::Ne || t == TokenTag::Lt || t == TokenTag::Gt || t == TokenTag::Le
        || t == TokenTag::Ge
}

/// Whether `name`, read without regard to ASCII case, is `word`.
pub(crate) fn is_word(name: &String, word: &str) -> (r: bool)
    ensures
        r == (lower_text(name@) == word@),
{
    let chars = crate::strings::chars_of(name.as_str());
    crate::lexer::token::eq_ignore_ascii_case(&chars, word)
}

} // verus!
