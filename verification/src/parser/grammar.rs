//! What the parser makes of a list of tokens, stated as functions from a
//! position in the tokens to the tree read there, the position after it
//! and the diagnostics reported on the way.
//!
//! Each of these functions reads only forward. Where one goes on from a
//! position given back by another, it first checks that the position did
//! not move back; that never happens, and the check only keeps the
//! definitions well founded.

use vstd::prelude::*;

use crate::ast::{BinOp, Span, UnOp};
use crate::lexer::token::{lower_text, Token, TokenKind, TokenTag};
use crate::parser::describe::describe_text;
use crate::ast::ForDirection;
use crate::parser::model::{
    BlockModel, BranchModel, DiagModel, ExprModel, FieldModel, IdentModel, LitModel, StmtModel, TypeModel,
};

verus! {

/// A tree read from the tokens, the position after it and the new
/// diagnostics.
pub struct Parsed<T> {
    pub value: T,
    pub pos: int,
    pub diags: Seq<DiagModel>,
}

pub open spec fn tag_at(ts: Seq<Token>, p: int) -> TokenTag {
    ts[p].kind.spec_tag()
}

pub open spec fn span_at(ts: Seq<Token>, p: int) -> Span {
    ts[p].span
}

/// The position after `p`; the last token (`Eof`) is never passed.
pub open spec fn next_pos(ts: Seq<Token>, p: int) -> int {
    if p < ts.len() - 1 {
        p + 1
    } else {
        p
    }
}

/// `"expected {what}, found {the token at p}"`, at the token at `p`.
pub open spec fn expected_diag(ts: Seq<Token>, p: int, what: Seq<char>) -> DiagModel {
    DiagModel {
        span: span_at(ts, p),
        message: "expected "@ + what + ", found "@ + describe_text(ts[p].kind.model()),
    }
}

/// Moving past a token of kind `tag`, or reporting that `what` was
/// expected and staying.
pub open spec fn expect_s(ts: Seq<Token>, p: int, tag: TokenTag, what: Seq<char>) -> Parsed<bool> {
    if tag_at(ts, p) == tag {
        Parsed { value: true, pos: next_pos(ts, p), diags: Seq::empty() }
    } else {
        Parsed { value: false, pos: p, diags: seq![expected_diag(ts, p, what)] }
    }
}

/// As `expect_s`, giving the span of the token moved past, or of the
/// current token when it is not of kind `tag`.
pub open spec fn expect_span_s(ts: Seq<Token>, p: int, tag: TokenTag, what: Seq<char>) -> Parsed<Span> {
    let r = expect_s(ts, p, tag, what);
    let at = if r.value && r.pos > 0 {
        r.pos - 1
    } else if r.value {
        0
    } else {
        p
    };
    Parsed { value: span_at(ts, at), pos: r.pos, diags: r.diags }
}

/// An identifier, or an error and an empty name at the current token.
pub open spec fn identifier_s(ts: Seq<Token>, p: int, what: Seq<char>) -> Parsed<IdentModel> {
    if tag_at(ts, p) == TokenTag::Identifier {
        Parsed {
            value: IdentModel { name: ts[p].kind.spec_text(), span: span_at(ts, p) },
            pos: next_pos(ts, p),
            diags: Seq::empty(),
        }
    } else {
        Parsed {
            value: IdentModel { name: Seq::empty(), span: span_at(ts, p) },
            pos: p,
            diags: seq![expected_diag(ts, p, what)],
        }
    }
}

/// The relational operator of a token kind.
pub open spec fn relop_of(t: TokenTag) -> Option<BinOp> {
    match t {
        TokenTag::Eq => Some(BinOp::Eq),
        TokenTag::Ne => Some(BinOp::NotEq),
        TokenTag::Lt => Some(BinOp::Lt),
        TokenTag::Gt => Some(BinOp::Gt),
        TokenTag::Le => Some(BinOp::LtEq),
        TokenTag::Ge => Some(BinOp::GtEq),
        _ => None,
    }
}

/// The adding operator of a token kind.
pub open spec fn addop_of(t: TokenTag) -> Option<BinOp> {
    match t {
        TokenTag::Plus => Some(BinOp::Add),
        TokenTag::Minus => Some(BinOp::Sub),
        TokenTag::Or => Some(BinOp::Or),
        _ => None,
    }
}

/// The multiplying operator of a token kind.
pub open spec fn mulop_of(t: TokenTag) -> Option<BinOp> {
    match t {
        TokenTag::Star => Some(BinOp::Mul),
        TokenTag::Slash => Some(BinOp::Div),
        TokenTag::Div => Some(BinOp::IntDiv),
        TokenTag::Mod => Some(BinOp::Mod),
        TokenTag::And => Some(BinOp::And),
        _ => None,
    }
}

pub open spec fn join(lhs: ExprModel, op: BinOp, rhs: ExprModel) -> ExprModel {
    ExprModel::Binary {
        op,
        lhs: Box::new(lhs),
        rhs: Box::new(rhs),
        span: Span { start: lhs.span().start, end: rhs.span().end },
    }
}

/// What stands in for an expression that could not be read.
pub open spec fn placeholder(span: Span) -> ExprModel {
    ExprModel::IntLit(0, span)
}

/// The tokens at which a missing expression is not skipped.
pub open spec fn ends_expression(t: TokenTag) -> bool {
    ||| t == TokenTag::Semicolon
    ||| t == TokenTag::End
    ||| t == TokenTag::Then
    ||| t == TokenTag::Do
    ||| t == TokenTag::Else
    ||| t == TokenTag::RParen
    ||| t == TokenTag::Comma
    ||| t == TokenTag::Eof
}

pub open spec fn max_u32(a: u32, b: u32) -> u32 {
    if a > b {
        a
    } else {
        b
    }
}

/// Whether `p` is a position in the tokens.
pub open spec fn within(ts: Seq<Token>, p: int) -> bool {
    0 <= p < ts.len()
}

/// An expression: a simple expression, or two joined by one relational
/// operator; a second relational operator is reported.
#[verifier::opaque]
pub open spec fn expr_s(ts: Seq<Token>, p: int) -> Parsed<ExprModel>
    decreases ts.len() - p, 10nat,
{
    if !within(ts, p) {
        Parsed { value: placeholder(Span { start: 0, end: 0 }), pos: p, diags: Seq::empty() }
    } else {
        let l = simple_s(ts, p);
        let q = next_pos(ts, l.pos);
        let op = relop_of(tag_at(ts, l.pos));
        if op is Some && p <= l.pos && p <= q < ts.len() {
                let r = simple_s(ts, q);
                let chained = if relop_of(tag_at(ts, r.pos)) is Some {
                    seq![
                        DiagModel {
                            span: span_at(ts, r.pos),
                            message: "relational operators cannot be chained (e.g. 'a < b < c'); use parentheses to group comparisons"@,
                        },
                    ]
                } else {
                    Seq::empty()
                };
                Parsed { value: join(l.value, op->0, r.value), pos: r.pos, diags: l.diags + r.diags + chained }
        } else {
            l
        }
    }
}

/// Terms joined by `+`, `-` and `OR`, left to right.
#[verifier::opaque]
pub open spec fn simple_s(ts: Seq<Token>, p: int) -> Parsed<ExprModel>
    decreases ts.len() - p, 9nat,
{
    if !within(ts, p) {
        Parsed { value: placeholder(Span { start: 0, end: 0 }), pos: p, diags: Seq::empty() }
    } else {
        let t = term_s(ts, p);
        if p <= t.pos < ts.len() {
            let rest = simple_rest_s(ts, t.value, t.pos);
            Parsed { value: rest.value, pos: rest.pos, diags: t.diags + rest.diags }
        } else {
            t
        }
    }
}

/// The rest of a simple expression after `lhs`, at `p`.
#[verifier::opaque]
pub open spec fn simple_rest_s(ts: Seq<Token>, lhs: ExprModel, p: int) -> Parsed<ExprModel>
    decreases ts.len() - p, 8nat,
{
    let q = next_pos(ts, p);
    if !within(ts, p) {
        Parsed { value: lhs, pos: p, diags: Seq::empty() }
    } else {
        match addop_of(tag_at(ts, p)) {
            Some(op) if p < q < ts.len() => {
                let t = term_s(ts, q);
                if q <= t.pos < ts.len() {
                    let rest = simple_rest_s(ts, join(lhs, op, t.value), t.pos);
                    Parsed { value: rest.value, pos: rest.pos, diags: t.diags + rest.diags }
                } else {
                    Parsed { value: lhs, pos: p, diags: Seq::empty() }
                }
            },
            _ => Parsed { value: lhs, pos: p, diags: Seq::empty() },
        }
    }
}

/// Factors joined by `*`, `/`, `DIV`, `MOD` and `AND`, left to right.
#[verifier::opaque]
pub open spec fn term_s(ts: Seq<Token>, p: int) -> Parsed<ExprModel>
    decreases ts.len() - p, 7nat,
{
    if !within(ts, p) {
        Parsed { value: placeholder(Span { start: 0, end: 0 }), pos: p, diags: Seq::empty() }
    } else {
        let u = unary_s(ts, p);
        if p <= u.pos < ts.len() {
            let rest = term_rest_s(ts, u.value, u.pos);
            Parsed { value: rest.value, pos: rest.pos, diags: u.diags + rest.diags }
        } else {
            u
        }
    }
}

/// The rest of a term after `lhs`, at `p`.
#[verifier::opaque]
pub open spec fn term_rest_s(ts: Seq<Token>, lhs: ExprModel, p: int) -> Parsed<ExprModel>
    decreases ts.len() - p, 6nat,
{
    let q = next_pos(ts, p);
    if !within(ts, p) {
        Parsed { value: lhs, pos: p, diags: Seq::empty() }
    } else {
        match mulop_of(tag_at(ts, p)) {
            Some(op) if p < q < ts.len() => {
                let u = unary_s(ts, q);
                if q <= u.pos < ts.len() {
                    let rest = term_rest_s(ts, join(lhs, op, u.value), u.pos);
                    Parsed { value: rest.value, pos: rest.pos, diags: u.diags + rest.diags }
                } else {
                    Parsed { value: lhs, pos: p, diags: Seq::empty() }
                }
            },
            _ => Parsed { value: lhs, pos: p, diags: Seq::empty() },
        }
    }
}

/// `NOT` and the signs, which may repeat; a `+` makes no node.
#[verifier::opaque]
pub open spec fn unary_s(ts: Seq<Token>, p: int) -> Parsed<ExprModel>
    decreases ts.len() - p, 5nat,
{
    let t = tag_at(ts, p);
    let q = next_pos(ts, p);
    if !within(ts, p) {
        Parsed { value: placeholder(Span { start: 0, end: 0 }), pos: p, diags: Seq::empty() }
    } else if (t == TokenTag::Not || t == TokenTag::Minus || t == TokenTag::Plus) && p < q < ts.len() {
        let o = unary_s(ts, q);
        if t == TokenTag::Plus {
            o
        } else {
            Parsed {
                value: ExprModel::Unary {
                    op: if t == TokenTag::Not {
                        UnOp::Not
                    } else {
                        UnOp::Neg
                    },
                    operand: Box::new(o.value),
                    span: Span { start: span_at(ts, p).start, end: o.value.span().end },
                },
                pos: o.pos,
                diags: o.diags,
            }
        }
    } else {
        let e = primary_s(ts, p);
        if p <= e.pos < ts.len() {
            let c = chain_s(ts, e.value, e.pos);
            Parsed { value: c.value, pos: c.pos, diags: e.diags + c.diags }
        } else {
            e
        }
    }
}

/// The expression after `[`: the index expressions up to the `]`.
pub open spec fn close_index(e: ExprModel, close_end: u32) -> ExprModel {
    match e {
        ExprModel::Index { array, index, span } => ExprModel::Index {
            array,
            index,
            span: Span { start: span.start, end: max_u32(close_end, span.end) },
        },
        other => other,
    }
}

/// The postfix operators after `e`, at `p`: `[i, ...]`, `.f` and `^`.
#[verifier::opaque]
pub open spec fn chain_s(ts: Seq<Token>, e: ExprModel, p: int) -> Parsed<ExprModel>
    decreases ts.len() - p, 4nat,
{
    let t = tag_at(ts, p);
    let q = next_pos(ts, p);
    let stay = Parsed { value: e, pos: p, diags: Seq::empty() };
    if !(within(ts, p) && p < q < ts.len()) {
        stay
    } else if t == TokenTag::LBracket {
        let ix = index_list_s(ts, e, q);
        let close = expect_span_s(ts, ix.pos, TokenTag::RBracket, "']'"@);
        if q <= ix.pos && p < close.pos < ts.len() {
            let rest = chain_s(ts, close_index(ix.value, close.value.end), close.pos);
            Parsed { value: rest.value, pos: rest.pos, diags: ix.diags + close.diags + rest.diags }
        } else {
            stay
        }
    } else if t == TokenTag::Dot {
        let f = identifier_s(ts, q, "field name"@);
        let accessed = ExprModel::Field {
            record: Box::new(e),
            field: f.value,
            span: Span { start: e.span().start, end: f.value.span.end },
        };
        if p < f.pos < ts.len() {
            let rest = chain_s(ts, accessed, f.pos);
            Parsed { value: rest.value, pos: rest.pos, diags: f.diags + rest.diags }
        } else {
            stay
        }
    } else if t == TokenTag::Caret {
        chain_s(ts, ExprModel::Deref { pointer: Box::new(e), span: Span { start: e.span().start, end: span_at(ts, p).end } }, q)
    } else {
        stay
    }
}

/// The indices `i, j, ...` of one `[...]`, each indexing the result so
/// far.
#[verifier::opaque]
pub open spec fn index_list_s(ts: Seq<Token>, e: ExprModel, p: int) -> Parsed<ExprModel>
    decreases ts.len() - p, 11nat,
{
    if !within(ts, p) {
        Parsed { value: e, pos: p, diags: Seq::empty() }
    } else {
        let i = expr_s(ts, p);
        let indexed = ExprModel::Index {
            array: Box::new(e),
            index: Box::new(i.value),
            span: Span { start: e.span().start, end: i.value.span().end },
        };
        let q = next_pos(ts, i.pos);
        if p <= i.pos && tag_at(ts, i.pos) == TokenTag::Comma && p < q < ts.len() {
            let rest = index_list_s(ts, indexed, q);
            Parsed { value: rest.value, pos: rest.pos, diags: i.diags + rest.diags }
        } else {
            Parsed { value: indexed, pos: i.pos, diags: i.diags }
        }
    }
}

/// A literal, a name, a call `f(args)`, or `(expr)`; anything else is
/// reported, skipped unless it can end an expression, and `0` stands in.
#[verifier::opaque]
pub open spec fn primary_s(ts: Seq<Token>, p: int) -> Parsed<ExprModel>
    decreases ts.len() - p, 3nat,
{
    let span = span_at(ts, p);
    let q = next_pos(ts, p);
    let r = next_pos(ts, q);
    let t = tag_at(ts, p);
    if !within(ts, p) {
        Parsed { value: placeholder(Span { start: 0, end: 0 }), pos: p, diags: Seq::empty() }
    } else {
        match ts[p].kind {
            TokenKind::IntegerLiteral(v) => Parsed { value: ExprModel::IntLit(v, span), pos: q, diags: Seq::empty() },
            TokenKind::Nil => Parsed { value: ExprModel::NilLit(span), pos: q, diags: Seq::empty() },
            TokenKind::HexIntegerLiteral(v) => Parsed { value: ExprModel::HexIntLit(v, span), pos: q, diags: Seq::empty() },
            TokenKind::RealLiteral(text) => Parsed { value: ExprModel::RealLit(text@, span), pos: q, diags: Seq::empty() },
            TokenKind::StringLiteral(text) => Parsed { value: ExprModel::StrLit(text@, span), pos: q, diags: Seq::empty() },
            TokenKind::Identifier(name) => if lower_text(name@) == "true"@ {
                Parsed { value: ExprModel::BoolLit(true, span), pos: q, diags: Seq::empty() }
            } else if lower_text(name@) == "false"@ {
                Parsed { value: ExprModel::BoolLit(false, span), pos: q, diags: Seq::empty() }
            } else if tag_at(ts, q) == TokenTag::LParen && p < r < ts.len() {
                let args = call_args_s(ts, r);
                let close = expect_span_s(ts, args.pos, TokenTag::RParen, "')'"@);
                Parsed {
                    value: ExprModel::Call {
                        name: IdentModel { name: name@, span },
                        args: args.value,
                        span: Span { start: span.start, end: max_u32(close.value.end, span.end) },
                    },
                    pos: close.pos,
                    diags: args.diags + close.diags,
                }
            } else {
                Parsed { value: ExprModel::Ident(IdentModel { name: name@, span }), pos: q, diags: Seq::empty() }
            },
            TokenKind::LParen => if p < q < ts.len() {
                let inner = expr_s(ts, q);
                let close = expect_span_s(ts, inner.pos, TokenTag::RParen, "')'"@);
                Parsed {
                    value: ExprModel::Paren(Box::new(inner.value), Span { start: span.start, end: close.value.end }),
                    pos: close.pos,
                    diags: inner.diags + close.diags,
                }
            } else {
                Parsed { value: placeholder(span), pos: p, diags: Seq::empty() }
            },
            _ => Parsed {
                value: placeholder(span),
                pos: if ends_expression(t) {
                    p
                } else {
                    q
                },
                diags: seq![expected_diag(ts, p, "expression"@)],
            },
        }
    }
}

/// The arguments of a call, up to (not past) the `)`.
#[verifier::opaque]
pub open spec fn call_args_s(ts: Seq<Token>, p: int) -> Parsed<Seq<ExprModel>>
    decreases ts.len() - p, 12nat,
{
    if !within(ts, p) || tag_at(ts, p) == TokenTag::RParen {
        Parsed { value: Seq::empty(), pos: p, diags: Seq::empty() }
    } else {
        arg_list_s(ts, p)
    }
}

/// Expressions separated by commas.
#[verifier::opaque]
pub open spec fn arg_list_s(ts: Seq<Token>, p: int) -> Parsed<Seq<ExprModel>>
    decreases ts.len() - p, 11nat,
{
    if !within(ts, p) {
        Parsed { value: Seq::empty(), pos: p, diags: Seq::empty() }
    } else {
        let a = expr_s(ts, p);
        let q = next_pos(ts, a.pos);
        if p <= a.pos && tag_at(ts, a.pos) == TokenTag::Comma && p < q < ts.len() {
            let rest = arg_list_s(ts, q);
            Parsed { value: seq![a.value] + rest.value, pos: rest.pos, diags: a.diags + rest.diags }
        } else {
            Parsed { value: seq![a.value], pos: a.pos, diags: a.diags }
        }
    }
}

} // verus!

verus! {

/// The span of the token before `q` (of the first token at the start).
pub open spec fn prev_span(ts: Seq<Token>, q: int) -> Span {
    span_at(ts, if q == 0 { 0 } else { q - 1 })
}

/// `-v` where it fits in `i64`; `i64::MIN` stays.
pub open spec fn negated(v: i64) -> i64 {
    if v == i64::MIN {
        v
    } else {
        (-v) as i64
    }
}

/// The text of a real literal with its sign flipped.
pub open spec fn negated_text(t: Seq<char>) -> Seq<char> {
    if t.len() > 0 && t[0] == '-' {
        t.drop_first()
    } else {
        seq!['-'] + t
    }
}

/// The right side of a `CONST` declaration, a `CASE` label or an array
/// bound: an optional sign, then a number, string or boolean literal.
pub open spec fn const_literal_s(ts: Seq<Token>, p: int) -> Parsed<LitModel> {
    let start = span_at(ts, p);
    let sign = tag_at(ts, p);
    let negate = sign == TokenTag::Minus;
    let p1 = if sign == TokenTag::Minus || sign == TokenTag::Plus {
        next_pos(ts, p)
    } else {
        p
    };
    let q = next_pos(ts, p1);
    let sp = Span { start: start.start, end: prev_span(ts, q).end };
    match ts[p1].kind {
        TokenKind::IntegerLiteral(v) => Parsed {
            value: LitModel::Int(if negate { negated(v) } else { v }, sp),
            pos: q,
            diags: Seq::empty(),
        },
        TokenKind::HexIntegerLiteral(v) => Parsed {
            value: LitModel::Int(if negate { negated(v) } else { v }, sp),
            pos: q,
            diags: Seq::empty(),
        },
        TokenKind::RealLiteral(t) => Parsed {
            value: LitModel::Real(if negate { negated_text(t@) } else { t@ }, sp),
            pos: q,
            diags: Seq::empty(),
        },
        TokenKind::StringLiteral(t) => Parsed {
            value: LitModel::Str(t@, sp),
            pos: q,
            diags: if negate {
                seq![DiagModel { span: start, message: "unary '-' cannot be applied to a string literal"@ }]
            } else {
                Seq::empty()
            },
        },
        TokenKind::Identifier(name) => if lower_text(name@) == "true"@ || lower_text(name@) == "false"@ {
            Parsed {
                value: LitModel::Bool(lower_text(name@) == "true"@, sp),
                pos: q,
                diags: if negate {
                    seq![DiagModel { span: start, message: "unary '-' cannot be applied to a boolean literal"@ }]
                } else {
                    Seq::empty()
                },
            }
        } else {
            Parsed {
                value: LitModel::Int(0, start),
                pos: q,
                diags: seq![
                    DiagModel {
                        span: start,
                        message: "expected a literal value for CONST declaration, found identifier '"@ + name@
                            + "' (references to other constants are not supported yet)"@,
                    },
                ],
            }
        },
        _ => Parsed {
            value: LitModel::Int(0, start),
            pos: if tag_at(ts, p1) == TokenTag::Semicolon || tag_at(ts, p1) == TokenTag::Eof {
                p1
            } else {
                q
            },
            diags: seq![
                DiagModel { span: start, message: "expected a literal value, found "@ + describe_text(ts[p1].kind.model()) },
            ],
        },
    }
}

/// Identifiers separated by commas: `a, b, c`.
pub open spec fn ident_list_s(ts: Seq<Token>, p: int, what: Seq<char>) -> Parsed<Seq<IdentModel>> {
    let first = identifier_s(ts, p, what);
    let rest = ident_rest_s(ts, first.pos, what);
    Parsed { value: seq![first.value] + rest.value, pos: rest.pos, diags: first.diags + rest.diags }
}

/// The names after the first of a list, each after a comma.
pub open spec fn ident_rest_s(ts: Seq<Token>, p: int, what: Seq<char>) -> Parsed<Seq<IdentModel>>
    decreases ts.len() - p,
{
    let q = next_pos(ts, p);
    if within(ts, p) && tag_at(ts, p) == TokenTag::Comma && p < q < ts.len() {
        let i = identifier_s(ts, q, what);
        if q <= i.pos < ts.len() {
            let rest = ident_rest_s(ts, i.pos, what);
            Parsed { value: seq![i.value] + rest.value, pos: rest.pos, diags: i.diags + rest.diags }
        } else {
            Parsed { value: Seq::empty(), pos: p, diags: Seq::empty() }
        }
    } else {
        Parsed { value: Seq::empty(), pos: p, diags: Seq::empty() }
    }
}

/// One index range `low..high` of an array type.
pub open spec fn subrange_s(ts: Seq<Token>, p: int) -> Parsed<TypeModel> {
    let low = const_literal_s(ts, p);
    let dd = expect_s(ts, low.pos, TokenTag::DotDot, "'..'"@);
    let high = const_literal_s(ts, dd.pos);
    Parsed {
        value: TypeModel::Subrange {
            low: low.value,
            high: high.value,
            span: Span { start: low.value.span().start, end: high.value.span().end },
        },
        pos: high.pos,
        diags: low.diags + dd.diags + high.diags,
    }
}

/// The index ranges after the first, each after a comma.
pub open spec fn subrange_rest_s(ts: Seq<Token>, p: int) -> Parsed<Seq<TypeModel>>
    decreases ts.len() - p,
{
    let q = next_pos(ts, p);
    if within(ts, p) && tag_at(ts, p) == TokenTag::Comma && p < q < ts.len() {
        let s = subrange_s(ts, q);
        if q <= s.pos < ts.len() {
            let rest = subrange_rest_s(ts, s.pos);
            Parsed { value: seq![s.value] + rest.value, pos: rest.pos, diags: s.diags + rest.diags }
        } else {
            Parsed { value: Seq::empty(), pos: p, diags: Seq::empty() }
        }
    } else {
        Parsed { value: Seq::empty(), pos: p, diags: Seq::empty() }
    }
}

/// Arrays over the index ranges, the last innermost, around `element`.
pub open spec fn nest_arrays(indices: Seq<TypeModel>, element: TypeModel, packed: bool, span: Span) -> TypeModel
    decreases indices.len(),
{
    if indices.len() == 0 {
        element
    } else {
        nest_arrays(
            indices.drop_last(),
            TypeModel::Array { index_type: Box::new(indices.last()), element_type: Box::new(element), packed, span },
            packed,
            span,
        )
    }
}

pub open spec fn is_type_name(name: Seq<char>, word: Seq<char>) -> bool {
    lower_text(name) == word
}

/// A type: `INTEGER`, `REAL`, `BOOLEAN`, `CHAR` (in any case),
/// `STRING[n]`, `[PACKED] ARRAY`, `[PACKED] RECORD`, `^T`, or a type
/// name. Anything else is reported and `INTEGER` stands in; `PACKED`
/// before any other type is reported.
#[verifier::opaque]
pub open spec fn type_s(ts: Seq<Token>, p: int) -> Parsed<TypeModel>
    decreases ts.len() - p, 2nat,
{
    let packed = tag_at(ts, p) == TokenTag::Packed;
    let p1 = if packed {
        next_pos(ts, p)
    } else {
        p
    };
    let packed_span = span_at(ts, p);
    let span = span_at(ts, p1);
    let t = tag_at(ts, p1);
    let start = if packed {
        packed_span
    } else {
        span
    };
    let q = next_pos(ts, p1);
    if !(within(ts, p) && p <= p1 < ts.len()) {
        Parsed { value: TypeModel::Integer(span), pos: p, diags: Seq::empty() }
    } else {
        let ty = if t == TokenTag::Array {
            array_s(ts, p1, start, packed)
        } else if t == TokenTag::Record {
            record_s(ts, p1, start, packed)
        } else if t == TokenTag::Caret {
            pointer_s(ts, p1, span)
        } else if t == TokenTag::Identifier {
            let name = ts[p1].kind.spec_text();
            if is_type_name(name, "integer"@) {
                Parsed { value: TypeModel::Integer(span), pos: q, diags: Seq::empty() }
            } else if is_type_name(name, "real"@) {
                Parsed { value: TypeModel::Real(span), pos: q, diags: Seq::empty() }
            } else if is_type_name(name, "boolean"@) {
                Parsed { value: TypeModel::Boolean(span), pos: q, diags: Seq::empty() }
            } else if is_type_name(name, "char"@) {
                Parsed { value: TypeModel::Char(span), pos: q, diags: Seq::empty() }
            } else if is_type_name(name, "string"@) {
                string_n_s(ts, q, span)
            } else {
                Parsed { value: TypeModel::Named(IdentModel { name, span }), pos: q, diags: Seq::empty() }
            }
        } else {
            Parsed {
                value: TypeModel::Integer(span),
                pos: if t == TokenTag::Semicolon || t == TokenTag::Eof {
                    p1
                } else {
                    q
                },
                diags: seq![
                    expected_diag(ts, p1, "a type (INTEGER/REAL/BOOLEAN/CHAR/STRING[n]/ARRAY/RECORD/^type/a type name)"@),
                ],
            }
        };
        let misplaced = packed && !(ty.value is Array || ty.value is Record);
        Parsed {
            value: ty.value,
            pos: ty.pos,
            diags: ty.diags + if misplaced {
                seq![DiagModel { span: packed_span, message: "'PACKED' can only be applied to ARRAY or RECORD types"@ }]
            } else {
                Seq::empty()
            },
        }
    }
}

/// `ARRAY [ranges] OF element`, at the `ARRAY`.
#[verifier::opaque]
pub open spec fn array_s(ts: Seq<Token>, p: int, start: Span, packed: bool) -> Parsed<TypeModel>
    decreases ts.len() - p, 1nat,
{
    let lb = expect_s(ts, next_pos(ts, p), TokenTag::LBracket, "'['"@);
    let first = subrange_s(ts, lb.pos);
    let rest = subrange_rest_s(ts, first.pos);
    let rb = expect_s(ts, rest.pos, TokenTag::RBracket, "']'"@);
    let of = expect_s(ts, rb.pos, TokenTag::Of, "'OF'"@);
    if within(ts, p) && p < of.pos < ts.len() {
        let element = type_s(ts, of.pos);
        let end = max_u32(element.value.span().end, start.end);
        Parsed {
            value: nest_arrays(seq![first.value] + rest.value, element.value, packed, Span { start: start.start, end }),
            pos: element.pos,
            diags: lb.diags + first.diags + rest.diags + rb.diags + of.diags + element.diags,
        }
    } else {
        Parsed { value: TypeModel::Integer(start), pos: p, diags: Seq::empty() }
    }
}

/// `RECORD fields END`, at the `RECORD`.
#[verifier::opaque]
pub open spec fn record_s(ts: Seq<Token>, p: int, start: Span, packed: bool) -> Parsed<TypeModel>
    decreases ts.len() - p, 1nat,
{
    let q = next_pos(ts, p);
    if within(ts, p) && p < q < ts.len() {
        let fl = fields_s(ts, q);
        let close = expect_span_s(ts, fl.pos, TokenTag::End, "'END'"@);
        Parsed {
            value: TypeModel::Record {
                fields: fl.value,
                packed,
                span: Span { start: start.start, end: max_u32(close.value.end, start.end) },
            },
            pos: close.pos,
            diags: fl.diags + close.diags,
        }
    } else {
        Parsed { value: TypeModel::Integer(start), pos: p, diags: Seq::empty() }
    }
}

/// The field groups `a, b: T` of a record, separated by `;`, up to (not
/// past) its `END`.
#[verifier::opaque]
pub open spec fn fields_s(ts: Seq<Token>, p: int) -> Parsed<Seq<FieldModel>>
    decreases ts.len() - p, 3nat,
{
    if within(ts, p) && tag_at(ts, p) == TokenTag::Identifier {
        let start = span_at(ts, p);
        let names = ident_list_s(ts, p, "field name"@);
        let colon = expect_s(ts, names.pos, TokenTag::Colon, "':'"@);
        if p <= colon.pos < ts.len() {
            let ty = type_s(ts, colon.pos);
            let field = FieldModel {
                names: names.value,
                ty: ty.value,
                span: Span { start: start.start, end: ty.value.span().end },
            };
            let q = next_pos(ts, ty.pos);
            let here = names.diags + colon.diags + ty.diags;
            if tag_at(ts, ty.pos) == TokenTag::Semicolon && p < q < ts.len() {
                let rest = fields_s(ts, q);
                Parsed { value: seq![field] + rest.value, pos: rest.pos, diags: here + rest.diags }
            } else {
                Parsed { value: seq![field], pos: ty.pos, diags: here }
            }
        } else {
            Parsed { value: Seq::empty(), pos: p, diags: Seq::empty() }
        }
    } else {
        Parsed { value: Seq::empty(), pos: p, diags: Seq::empty() }
    }
}

/// `^T`, at the `^`.
#[verifier::opaque]
pub open spec fn pointer_s(ts: Seq<Token>, p: int, caret: Span) -> Parsed<TypeModel>
    decreases ts.len() - p, 1nat,
{
    let q = next_pos(ts, p);
    if within(ts, p) && p < q < ts.len() {
        let inner = type_s(ts, q);
        Parsed {
            value: TypeModel::Pointer(
                Box::new(inner.value),
                Span { start: caret.start, end: max_u32(inner.value.span().end, caret.end) },
            ),
            pos: inner.pos,
            diags: inner.diags,
        }
    } else {
        Parsed { value: TypeModel::Integer(caret), pos: p, diags: Seq::empty() }
    }
}

/// The length `n` of `STRING[n]`, at `q`: a positive integer, or an error
/// and 80 (moving past the token unless it is `]`, `;` or the end).
pub open spec fn string_len_s(ts: Seq<Token>, q: int) -> Parsed<usize> {
    let t = tag_at(ts, q);
    match ts[q].kind {
        TokenKind::IntegerLiteral(v) if v > 0 => Parsed { value: v as usize, pos: next_pos(ts, q), diags: Seq::empty() },
        _ => Parsed {
            value: 80,
            pos: if t == TokenTag::RBracket || t == TokenTag::Semicolon || t == TokenTag::Eof {
                q
            } else {
                next_pos(ts, q)
            },
            diags: seq![
                DiagModel {
                    span: span_at(ts, q),
                    message: "expected a positive integer length for STRING[n], found "@ + describe_text(ts[q].kind.model()),
                },
            ],
        },
    }
}

/// The `[n]` after `STRING`, whose span is `type_start`; 80 without it.
pub open spec fn string_n_s(ts: Seq<Token>, p: int, type_start: Span) -> Parsed<TypeModel> {
    if tag_at(ts, p) != TokenTag::LBracket {
        Parsed { value: TypeModel::StringN(80, type_start), pos: p, diags: Seq::empty() }
    } else {
        let len = string_len_s(ts, next_pos(ts, p));
        let close = expect_span_s(ts, len.pos, TokenTag::RBracket, "']'"@);
        Parsed {
            value: TypeModel::StringN(
                len.value,
                Span { start: type_start.start, end: max_u32(close.value.end, type_start.end) },
            ),
            pos: close.pos,
            diags: len.diags + close.diags,
        }
    }
}

} // verus!

verus! {

/// The tokens before which error recovery stops.
pub open spec fn is_boundary(t: TokenTag) -> bool {
    t == TokenTag::End || t == TokenTag::Else || t == TokenTag::Until || t == TokenTag::Eof
}

/// Where recovery from a syntax error goes on: past the next `;`, or at
/// the next `END`, `ELSE`, `UNTIL` or the end of input.
pub open spec fn sync_pos(ts: Seq<Token>, p: int) -> int
    decreases ts.len() - p,
{
    let q = next_pos(ts, p);
    if !within(ts, p) {
        p
    } else if tag_at(ts, p) == TokenTag::Semicolon {
        q
    } else if is_boundary(tag_at(ts, p)) || !(p < q < ts.len()) {
        p
    } else {
        sync_pos(ts, q)
    }
}

/// The position after a run of `;`.
pub open spec fn skip_semicolons(ts: Seq<Token>, p: int) -> int
    decreases ts.len() - p,
{
    let q = next_pos(ts, p);
    if within(ts, p) && tag_at(ts, p) == TokenTag::Semicolon && p < q < ts.len() {
        skip_semicolons(ts, q)
    } else {
        p
    }
}

/// The empty statement, at the start of `span`.
pub open spec fn empty_stmt(span: Span) -> StmtModel {
    StmtModel::Compound(BlockModel { statements: Seq::empty(), span: Span { start: span.start, end: span.start } })
}

/// An assignment `designator := expr`, or a procedure call `name(args)`
/// or `name`, at an identifier.
pub open spec fn assign_or_call_s(ts: Seq<Token>, p: int) -> Parsed<Option<StmtModel>> {
    let name = identifier_s(ts, p, "identifier"@);
    let n = name.value;
    if tag_at(ts, name.pos) == TokenTag::LParen {
        let args = call_args_s(ts, next_pos(ts, name.pos));
        let close = expect_span_s(ts, args.pos, TokenTag::RParen, "')'"@);
        Parsed {
            value: Some(
                StmtModel::ProcCall {
                    name: n,
                    args: args.value,
                    span: Span { start: n.span.start, end: max_u32(close.value.end, n.span.end) },
                },
            ),
            pos: close.pos,
            diags: name.diags + args.diags + close.diags,
        }
    } else {
        let d = chain_s(ts, ExprModel::Ident(n), name.pos);
        if tag_at(ts, d.pos) == TokenTag::Assign {
            let v = expr_s(ts, next_pos(ts, d.pos));
            Parsed {
                value: Some(
                    StmtModel::Assignment {
                        target: d.value,
                        value: v.value,
                        span: Span { start: d.value.span().start, end: v.value.span().end },
                    },
                ),
                pos: v.pos,
                diags: name.diags + d.diags + v.diags,
            }
        } else if d.value is Ident {
            Parsed {
                value: Some(StmtModel::ProcCall { name: n, args: Seq::empty(), span: n.span }),
                pos: d.pos,
                diags: name.diags + d.diags,
            }
        } else {
            Parsed {
                value: None,
                pos: d.pos,
                diags: name.diags + d.diags + seq![expected_diag(ts, d.pos, "':=' after array/record/pointer designator"@)],
            }
        }
    }
}

/// One statement; at `;`, `END`, `ELSE` or `UNTIL` the empty statement,
/// consuming nothing. `None` where no supported statement begins (the
/// token is reported, and skipped for `WITH`, `GOTO` and `LABEL`).
#[verifier::opaque]
pub open spec fn stmt_s(ts: Seq<Token>, p: int) -> Parsed<Option<StmtModel>>
    decreases ts.len() - p, 13nat,
{
    let t = tag_at(ts, p);
    let span = span_at(ts, p);
    if !within(ts, p) {
        Parsed { value: None, pos: p, diags: Seq::empty() }
    } else if t == TokenTag::Begin {
        let b = compound_s(ts, p);
        Parsed { value: Some(StmtModel::Compound(b.value)), pos: b.pos, diags: b.diags }
    } else if t == TokenTag::If {
        let s = if_s(ts, p);
        Parsed { value: Some(s.value), pos: s.pos, diags: s.diags }
    } else if t == TokenTag::While {
        let s = while_s(ts, p);
        Parsed { value: Some(s.value), pos: s.pos, diags: s.diags }
    } else if t == TokenTag::For {
        let s = for_s(ts, p);
        Parsed { value: Some(s.value), pos: s.pos, diags: s.diags }
    } else if t == TokenTag::Repeat {
        let s = repeat_s(ts, p);
        Parsed { value: Some(s.value), pos: s.pos, diags: s.diags }
    } else if t == TokenTag::Case {
        let s = case_s(ts, p);
        Parsed { value: Some(s.value), pos: s.pos, diags: s.diags }
    } else if t == TokenTag::Identifier {
        assign_or_call_s(ts, p)
    } else if t == TokenTag::CompilerDirective {
        Parsed {
            value: Some(StmtModel::Directive { name: ts[p].kind.spec_text(), args: ts[p].kind.spec_args(), span }),
            pos: next_pos(ts, p),
            diags: Seq::empty(),
        }
    } else if t == TokenTag::Semicolon || t == TokenTag::End || t == TokenTag::Else || t == TokenTag::Until {
        Parsed { value: Some(empty_stmt(span)), pos: p, diags: Seq::empty() }
    } else if t == TokenTag::With || t == TokenTag::Goto || t == TokenTag::Label {
        Parsed {
            value: None,
            pos: next_pos(ts, p),
            diags: seq![
                DiagModel {
                    span,
                    message: describe_text(ts[p].kind.model())
                        + " is not supported by this parser yet (only assignment, IF/THEN/ELSE, WHILE/DO, FOR/DO, REPEAT/UNTIL, CASE/OF, compound statements, and procedure calls are supported)"@,
                },
            ],
        }
    } else {
        Parsed { value: None, pos: p, diags: seq![expected_diag(ts, p, "statement"@)] }
    }
}

/// A statement, or, where none can be read, the empty statement after
/// skipping to the next statement boundary.
#[verifier::opaque]
pub open spec fn stmt_or_recover_s(ts: Seq<Token>, p: int) -> Parsed<StmtModel>
    decreases ts.len() - p, 14nat,
{
    if !within(ts, p) {
        Parsed { value: empty_stmt(Span { start: 0, end: 0 }), pos: p, diags: Seq::empty() }
    } else {
        let s = stmt_s(ts, p);
        match s.value {
            Some(st) => Parsed { value: st, pos: s.pos, diags: s.diags },
            None => Parsed { value: empty_stmt(span_at(ts, s.pos)), pos: sync_pos(ts, s.pos), diags: s.diags },
        }
    }
}

/// `BEGIN statements END`, at the `BEGIN`.
#[verifier::opaque]
pub open spec fn compound_s(ts: Seq<Token>, p: int) -> Parsed<BlockModel>
    decreases ts.len() - p, 11nat,
{
    let q = next_pos(ts, p);
    if within(ts, p) && p < q < ts.len() {
        let body = seq_s(ts, q, TokenTag::End, "'END'"@);
        let close = expect_span_s(ts, body.pos, TokenTag::End, "'END'"@);
        Parsed {
            value: BlockModel { statements: body.value, span: Span { start: span_at(ts, p).start, end: close.value.end } },
            pos: close.pos,
            diags: body.diags + close.diags,
        }
    } else {
        Parsed { value: BlockModel { statements: Seq::empty(), span: span_at(ts, p) }, pos: p, diags: Seq::empty() }
    }
}

/// Statements separated by `;`, up to (not past) `terminator` or the end
/// of input; empty statements are dropped, and a statement that cannot be
/// read is skipped up to the next boundary.
#[verifier::opaque]
pub open spec fn seq_s(ts: Seq<Token>, p: int, terminator: TokenTag, desc: Seq<char>) -> Parsed<Seq<StmtModel>>
    decreases ts.len() - p, 15nat,
{
    let p1 = skip_semicolons(ts, p);
    let done = Parsed { value: Seq::<StmtModel>::empty(), pos: p1, diags: Seq::empty() };
    if !(within(ts, p) && p <= p1 < ts.len()) {
        Parsed { value: Seq::empty(), pos: p, diags: Seq::empty() }
    } else if tag_at(ts, p1) == terminator || tag_at(ts, p1) == TokenTag::Eof {
        done
    } else {
        let st = stmt_s(ts, p1);
        match st.value {
            Some(s) => {
                let t = tag_at(ts, st.pos);
                if t == TokenTag::Semicolon {
                    if p < st.pos < ts.len() {
                        let rest = seq_s(ts, st.pos, terminator, desc);
                        Parsed { value: seq![s] + rest.value, pos: rest.pos, diags: st.diags + rest.diags }
                    } else {
                        done
                    }
                } else if t == terminator || t == TokenTag::Eof {
                    Parsed { value: seq![s], pos: st.pos, diags: st.diags }
                } else {
                    let err = expected_diag(ts, st.pos, "';' or "@ + desc);
                    let synced = sync_pos(ts, st.pos);
                    let q = if synced == st.pos {
                        next_pos(ts, st.pos)
                    } else {
                        synced
                    };
                    if p < q < ts.len() {
                        let rest = seq_s(ts, q, terminator, desc);
                        Parsed { value: seq![s] + rest.value, pos: rest.pos, diags: st.diags + seq![err] + rest.diags }
                    } else {
                        done
                    }
                }
            },
            None => {
                let q = sync_pos(ts, st.pos);
                if p < q < ts.len() {
                    let rest = seq_s(ts, q, terminator, desc);
                    Parsed { value: rest.value, pos: rest.pos, diags: st.diags + rest.diags }
                } else {
                    done
                }
            },
        }
    }
}

/// `REPEAT statements UNTIL condition`, at the `REPEAT`.
#[verifier::opaque]
pub open spec fn repeat_s(ts: Seq<Token>, p: int) -> Parsed<StmtModel>
    decreases ts.len() - p, 12nat,
{
    let q = next_pos(ts, p);
    if within(ts, p) && p < q < ts.len() {
        let body = seq_s(ts, q, TokenTag::Until, "'UNTIL'"@);
        let u = expect_s(ts, body.pos, TokenTag::Until, "'UNTIL'"@);
        let cond = expr_s(ts, u.pos);
        Parsed {
            value: StmtModel::Repeat {
                body: body.value,
                until_cond: cond.value,
                span: Span { start: span_at(ts, p).start, end: cond.value.span().end },
            },
            pos: cond.pos,
            diags: body.diags + u.diags + cond.diags,
        }
    } else {
        Parsed { value: empty_stmt(span_at(ts, p)), pos: p, diags: Seq::empty() }
    }
}

/// `IF condition THEN statement [ELSE statement]`, at the `IF`; an `ELSE`
/// belongs to the nearest `IF`.
#[verifier::opaque]
pub open spec fn if_s(ts: Seq<Token>, p: int) -> Parsed<StmtModel>
    decreases ts.len() - p, 12nat,
{
    let q = next_pos(ts, p);
    let cond = expr_s(ts, q);
    let th = expect_s(ts, cond.pos, TokenTag::Then, "'THEN'"@);
    if within(ts, p) && p < th.pos < ts.len() {
        let then_branch = stmt_or_recover_s(ts, th.pos);
        let e = next_pos(ts, then_branch.pos);
        if tag_at(ts, then_branch.pos) == TokenTag::Else && p < e < ts.len() {
            let else_branch = stmt_or_recover_s(ts, e);
            Parsed {
                value: StmtModel::If {
                    cond: cond.value,
                    then_branch: Box::new(then_branch.value),
                    else_branch: Some(Box::new(else_branch.value)),
                    span: Span { start: span_at(ts, p).start, end: else_branch.value.span().end },
                },
                pos: else_branch.pos,
                diags: cond.diags + th.diags + then_branch.diags + else_branch.diags,
            }
        } else {
            Parsed {
                value: StmtModel::If {
                    cond: cond.value,
                    then_branch: Box::new(then_branch.value),
                    else_branch: None,
                    span: Span { start: span_at(ts, p).start, end: then_branch.value.span().end },
                },
                pos: then_branch.pos,
                diags: cond.diags + th.diags + then_branch.diags,
            }
        }
    } else {
        Parsed { value: empty_stmt(span_at(ts, p)), pos: p, diags: Seq::empty() }
    }
}

/// `WHILE condition DO statement`, at the `WHILE`.
#[verifier::opaque]
pub open spec fn while_s(ts: Seq<Token>, p: int) -> Parsed<StmtModel>
    decreases ts.len() - p, 12nat,
{
    let cond = expr_s(ts, next_pos(ts, p));
    let d = expect_s(ts, cond.pos, TokenTag::Do, "'DO'"@);
    if within(ts, p) && p < d.pos < ts.len() {
        let body = stmt_or_recover_s(ts, d.pos);
        Parsed {
            value: StmtModel::While {
                cond: cond.value,
                body: Box::new(body.value),
                span: Span { start: span_at(ts, p).start, end: body.value.span().end },
            },
            pos: body.pos,
            diags: cond.diags + d.diags + body.diags,
        }
    } else {
        Parsed { value: empty_stmt(span_at(ts, p)), pos: p, diags: Seq::empty() }
    }
}

/// The direction of a `FOR` loop at `p`: `TO` or `DOWNTO`, or an error and
/// `TO`.
pub open spec fn direction_s(ts: Seq<Token>, p: int) -> Parsed<ForDirection> {
    if tag_at(ts, p) == TokenTag::To {
        Parsed { value: ForDirection::To, pos: next_pos(ts, p), diags: Seq::empty() }
    } else if tag_at(ts, p) == TokenTag::DownTo {
        Parsed { value: ForDirection::DownTo, pos: next_pos(ts, p), diags: Seq::empty() }
    } else {
        Parsed { value: ForDirection::To, pos: p, diags: seq![expected_diag(ts, p, "'TO' or 'DOWNTO'"@)] }
    }
}

/// `FOR variable := start (TO | DOWNTO) end DO statement`, at the `FOR`.
#[verifier::opaque]
pub open spec fn for_s(ts: Seq<Token>, p: int) -> Parsed<StmtModel>
    decreases ts.len() - p, 12nat,
{
    let var = identifier_s(ts, next_pos(ts, p), "loop variable"@);
    let asg = expect_s(ts, var.pos, TokenTag::Assign, "':='"@);
    let start = expr_s(ts, asg.pos);
    let dir = direction_s(ts, start.pos);
    let end = expr_s(ts, dir.pos);
    let d = expect_s(ts, end.pos, TokenTag::Do, "'DO'"@);
    if within(ts, p) && p < d.pos < ts.len() {
        let body = stmt_or_recover_s(ts, d.pos);
        Parsed {
            value: StmtModel::For {
                var: var.value,
                start: start.value,
                end: end.value,
                direction: dir.value,
                body: Box::new(body.value),
                span: Span { start: span_at(ts, p).start, end: body.value.span().end },
            },
            pos: body.pos,
            diags: var.diags + asg.diags + start.diags + dir.diags + end.diags + d.diags + body.diags,
        }
    } else {
        Parsed { value: empty_stmt(span_at(ts, p)), pos: p, diags: Seq::empty() }
    }
}

/// The labels `l1, l2, ...` of a `CASE` branch.
pub open spec fn labels_s(ts: Seq<Token>, p: int) -> Parsed<Seq<LitModel>> {
    let first = const_literal_s(ts, p);
    let rest = label_rest_s(ts, first.pos);
    Parsed { value: seq![first.value] + rest.value, pos: rest.pos, diags: first.diags + rest.diags }
}

/// The labels after the first, each after a comma.
pub open spec fn label_rest_s(ts: Seq<Token>, p: int) -> Parsed<Seq<LitModel>>
    decreases ts.len() - p,
{
    let q = next_pos(ts, p);
    if within(ts, p) && tag_at(ts, p) == TokenTag::Comma && p < q < ts.len() {
        let l = const_literal_s(ts, q);
        if q <= l.pos < ts.len() {
            let rest = label_rest_s(ts, l.pos);
            Parsed { value: seq![l.value] + rest.value, pos: rest.pos, diags: l.diags + rest.diags }
        } else {
            Parsed { value: Seq::empty(), pos: p, diags: Seq::empty() }
        }
    } else {
        Parsed { value: Seq::empty(), pos: p, diags: Seq::empty() }
    }
}

/// The branches of a `CASE` statement and its `OTHERWISE` statement, up
/// to (not past) its `END`.
#[verifier::opaque]
pub open spec fn branches_s(ts: Seq<Token>, p: int) -> Parsed<(Seq<BranchModel>, Option<StmtModel>)>
    decreases ts.len() - p, 16nat,
{
    let p1 = skip_semicolons(ts, p);
    let t = tag_at(ts, p1);
    let done = Parsed { value: (Seq::<BranchModel>::empty(), None::<StmtModel>), pos: p1, diags: Seq::<DiagModel>::empty() };
    let q = next_pos(ts, p1);
    if !(within(ts, p) && p <= p1 < ts.len()) {
        Parsed { value: (Seq::empty(), None), pos: p, diags: Seq::empty() }
    } else if t == TokenTag::End || t == TokenTag::Eof {
        done
    } else if t == TokenTag::Otherwise {
        if p1 < q < ts.len() {
            let o = stmt_or_recover_s(ts, q);
            let after = if tag_at(ts, o.pos) == TokenTag::Semicolon {
                next_pos(ts, o.pos)
            } else {
                o.pos
            };
            Parsed { value: (Seq::empty(), Some(o.value)), pos: after, diags: o.diags }
        } else {
            done
        }
    } else {
        let labels = labels_s(ts, p1);
        let colon = expect_s(ts, labels.pos, TokenTag::Colon, "':'"@);
        if p <= colon.pos < ts.len() {
            let body = stmt_or_recover_s(ts, colon.pos);
            let branch = BranchModel {
                labels: labels.value,
                body: body.value,
                span: Span { start: span_at(ts, p1).start, end: body.value.span().end },
            };
            let here = labels.diags + colon.diags + body.diags;
            let bt = tag_at(ts, body.pos);
            if bt == TokenTag::End || bt == TokenTag::Eof {
                Parsed { value: (seq![branch], None), pos: body.pos, diags: here }
            } else {
                let err = if bt == TokenTag::Semicolon || bt == TokenTag::Otherwise {
                    Seq::empty()
                } else {
                    seq![expected_diag(ts, body.pos, "';' or 'END'"@)]
                };
                let synced = sync_pos(ts, body.pos);
                let next = if bt == TokenTag::Semicolon || bt == TokenTag::Otherwise {
                    body.pos
                } else if synced == body.pos {
                    next_pos(ts, body.pos)
                } else {
                    synced
                };
                if p < next < ts.len() {
                    let rest = branches_s(ts, next);
                    Parsed { value: (seq![branch] + rest.value.0, rest.value.1), pos: rest.pos, diags: here + err + rest.diags }
                } else {
                    Parsed { value: (seq![branch], None), pos: body.pos, diags: here }
                }
            }
        } else {
            done
        }
    }
}

/// `CASE selector OF branches [OTHERWISE statement] END`, at the `CASE`.
#[verifier::opaque]
pub open spec fn case_s(ts: Seq<Token>, p: int) -> Parsed<StmtModel>
    decreases ts.len() - p, 12nat,
{
    let sel = expr_s(ts, next_pos(ts, p));
    let of = expect_s(ts, sel.pos, TokenTag::Of, "'OF'"@);
    if within(ts, p) && p < of.pos < ts.len() {
        let br = branches_s(ts, of.pos);
        let close = expect_span_s(ts, br.pos, TokenTag::End, "'END'"@);
        Parsed {
            value: StmtModel::Case {
                selector: sel.value,
                branches: br.value.0,
                otherwise: match br.value.1 {
                    Some(o) => Some(Box::new(o)),
                    None => None,
                },
                span: Span { start: span_at(ts, p).start, end: close.value.end },
            },
            pos: close.pos,
            diags: sel.diags + of.diags + br.diags + close.diags,
        }
    } else {
        Parsed { value: empty_stmt(span_at(ts, p)), pos: p, diags: Seq::empty() }
    }
}

} // verus!
