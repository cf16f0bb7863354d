//! Literals of constant declarations, and types.

use vstd::prelude::*;

use crate::ast::{FieldDecl, Identifier, Literal, Span, TypeExpr};
use crate::lexer::token::{TokenKind, TokenTag};
use crate::parser::describe::describe;
use crate::parser::grammar::{
    array_s, const_literal_s, expect_s, expect_span_s, fields_s, ident_list_s, ident_rest_s, identifier_s,
    nest_arrays, next_pos, pointer_s, record_s, string_len_s, string_n_s, subrange_rest_s, subrange_s, type_s,
    Parsed,
};
use crate::parser::model::{
    diags_extend, fields_model, ident_model, idents_model, lemma_diags_extend_none, lemma_diags_extend_trans,
    lemma_type_model_span, lit_model, type_model, DiagModel, FieldModel, IdentModel, TypeModel,
};
use crate::parser::parser::{is_word, Parser};
use crate::strings::{chars_of, push_str, string_push};

verus! {

/// `-v` where it fits in `i64`; `i64::MIN` stays as it is.
fn negate_value(v: i64) -> (r: i64)
    ensures
        v != i64::MIN ==> r == -v,
        v == i64::MIN ==> r == v,
{
    if v == i64::MIN {
        v
    } else {
        -v
    }
}

/// The text of a real literal with its sign flipped: a leading `-` is
/// dropped, else one is put in front.
fn negate_real_text(text: &String) -> (r: String)
    ensures
        text@.len() > 0 && text@[0] == '-' ==> r@ == text@.drop_first(),
        !(text@.len() > 0 && text@[0] == '-') ==> r@ == seq!['-'] + text@,
{
    let chars = chars_of(text.as_str());
    let mut r = String::new();
    let mut i: usize = 0;
    if chars.len() > 0 && chars[0] == '-' {
        i = 1;
    } else {
        string_push(&mut r, '-');
    }
    let ghost base = r@;
    let ghost first = i;
    while i < chars.len()
        invariant
            first <= i <= chars@.len(),
            chars@ == text@,
            r@ == base + chars@.subrange(first as int, i as int),
        decreases chars@.len() - i,
    {
        string_push(&mut r, chars[i]);
        assert(chars@.subrange(first as int, i + 1) == chars@.subrange(first as int, i as int).push(chars@[i as int]));
        i = i + 1;
    }
    assert(chars@.subrange(first as int, chars@.len() as int) == chars@.drop_first() || first == 0);
    assert(first == 0 ==> chars@.subrange(0, chars@.len() as int) == chars@);
    r
}

impl Parser {
    /// The right side of a `CONST` declaration, a `CASE` label or an array
    /// bound: an optional sign, then a number, string or boolean literal.
    /// A sign before a string or boolean is reported; a name of another
    /// constant, or any other token, is reported and `0` stands in.
    pub(crate) fn parse_const_literal(&mut self) -> (r: Literal)
        requires
            old(self).wf(),
        ensures
            final(self).moved(*old(self), const_literal_s(old(self).token_list(), old(self).position())),
            lit_model(r) == const_literal_s(old(self).token_list(), old(self).position()).value,
    {
        let ghost s0 = *self;
        proof {
            lemma_diags_extend_none(s0.diagnostics@);
        }
        let start = self.peek_span();
        let sign = self.peek_tag();
        let negate = if sign == TokenTag::Minus {
            self.advance();
            true
        } else if sign == TokenTag::Plus {
            self.advance();
            false
        } else {
            false
        };
        match self.peek() {
            TokenKind::IntegerLiteral(v) => {
                let v = *v;
                self.advance();
                let v = if negate {
                    negate_value(v)
                } else {
                    v
                };
                Literal::Int(v, Span::new(start.start, self.previous_span().end))
            },
            TokenKind::HexIntegerLiteral(v) => {
                let v = *v;
                self.advance();
                let v = if negate {
                    negate_value(v)
                } else {
                    v
                };
                Literal::Int(v, Span::new(start.start, self.previous_span().end))
            },
            TokenKind::RealLiteral(text) => {
                let text = if negate {
                    negate_real_text(text)
                } else {
                    text.clone()
                };
                self.advance();
                Literal::Real(text, Span::new(start.start, self.previous_span().end))
            },
            TokenKind::StringLiteral(s) => {
                let s = s.clone();
                self.advance();
                if negate {
                    self.error(start, "unary '-' cannot be applied to a string literal".to_owned());
                }
                Literal::Str(s, Span::new(start.start, self.previous_span().end))
            },
            TokenKind::Identifier(name) => {
                let name = name.clone();
                self.advance();
                if is_word(&name, "true") || is_word(&name, "false") {
                    let span = Span::new(start.start, self.previous_span().end);
                    if negate {
                        self.error(start, "unary '-' cannot be applied to a boolean literal".to_owned());
                    }
                    Literal::Bool(is_word(&name, "true"), span)
                } else {
                    let mut m = "expected a literal value for CONST declaration, found identifier '".to_owned();
                    push_str(&mut m, name.as_str());
                    push_str(&mut m, "' (references to other constants are not supported yet)");
                    self.error(start, m);
                    Literal::Int(0, start)
                }
            },
            other => {
                let t = other.tag();
                let mut m = "expected a literal value, found ".to_owned();
                let found = describe(other);
                push_str(&mut m, found.as_str());
                self.error(start, m);
                if !(t == TokenTag::Semicolon || t == TokenTag::Eof) {
                    self.advance();
                }
                Literal::Int(0, start)
            },
        }
    }

    /// Identifiers separated by commas: `a, b, c`.
    pub(crate) fn parse_ident_list(&mut self, what: &str) -> (r: Vec<Identifier>)
        requires
            old(self).wf(),
        ensures
            final(self).moved(*old(self), ident_list_s(old(self).token_list(), old(self).position(), what@)),
            idents_model(r@) == ident_list_s(old(self).token_list(), old(self).position(), what@).value,
            old(self).cur() == TokenTag::Identifier ==> final(self).position() > old(self).position(),
    {
        let ghost ts = self.tokens@;
        let ghost s0 = *self;
        let mut names: Vec<Identifier> = Vec::new();
        let first = self.parse_identifier(what);
        names.push(first);
        let ghost s1 = *self;
        let ghost total = ident_rest_s(ts, s1.pos as int, what@);
        let ghost mut acc: Seq<DiagModel> = Seq::empty();
        proof {
            lemma_diags_extend_none(s1.diagnostics@);
            assert(idents_model(names@) =~= seq![identifier_s(ts, s0.pos as int, what@).value]);
        }
        while self.check(TokenTag::Comma)
            invariant
                self.steps(s1),
                ts == self.tokens@,
                diags_extend(self.diagnostics@, s1.diagnostics@, acc),
                idents_model(names@) + ident_rest_s(ts, self.pos as int, what@).value == seq![
                    identifier_s(ts, s0.pos as int, what@).value,
                ] + total.value,
                ident_rest_s(ts, self.pos as int, what@).pos == total.pos,
                acc + ident_rest_s(ts, self.pos as int, what@).diags == total.diags,
            decreases self.remaining(),
        {
            let ghost sa = *self;
            self.advance();
            let ghost sb = *self;
            let name = self.parse_identifier(what);
            let ghost i = identifier_s(ts, sb.pos as int, what@);
            let ghost before = names@;
            names.push(name);
            proof {
                let rest = ident_rest_s(ts, self.pos as int, what@);
                assert(ident_rest_s(ts, sa.pos as int, what@) == Parsed { value: seq![i.value] + rest.value, pos: rest.pos, diags: i.diags + rest.diags });
                assert(idents_model(names@) =~= idents_model(before).push(i.value));
                assert(idents_model(before) + (seq![i.value] + rest.value) =~= idents_model(names@) + rest.value);
                lemma_diags_extend_trans(s1.diagnostics@, sb.diagnostics@, self.diagnostics@, acc, i.diags);
                assert(acc + (i.diags + rest.diags) =~= (acc + i.diags) + rest.diags);
                acc = acc + i.diags;
            }
        }
        proof {
            assert(ident_rest_s(ts, self.pos as int, what@) == Parsed { value: Seq::<IdentModel>::empty(), pos: self.pos as int, diags: Seq::<DiagModel>::empty() });
            assert(idents_model(names@) + Seq::<IdentModel>::empty() =~= idents_model(names@));
            assert(acc + Seq::<DiagModel>::empty() =~= acc);
            lemma_diags_extend_trans(s0.diagnostics@, s1.diagnostics@, self.diagnostics@, identifier_s(ts, s0.pos as int, what@).diags, acc);
        }
        names
    }
}


impl Parser {
    /// A type: `INTEGER`, `REAL`, `BOOLEAN`, `CHAR` (in any case),
    /// `STRING[n]`, `[PACKED] ARRAY`, `[PACKED] RECORD`, `^T`, or the name
    /// of a declared type. Anything else is reported and `INTEGER` stands
    /// in; `PACKED` before any other type is reported.
    #[verifier::rlimit(100)]
    pub(crate) fn parse_type(&mut self) -> (r: TypeExpr)
        requires
            old(self).wf(),
        ensures
            final(self).moved(*old(self), type_s(old(self).token_list(), old(self).position())),
            type_model(r) == type_s(old(self).token_list(), old(self).position()).value,
        decreases old(self).remaining(), 2nat,
    {
        let ghost ts = self.tokens@;
        let ghost s0 = *self;
        proof {
            lemma_diags_extend_none(s0.diagnostics@);
        }
        let packed = self.check(TokenTag::Packed);
        let packed_span = self.peek_span();
        if packed {
            self.advance();
        }
        let ghost s1 = *self;
        let span = self.peek_span();
        let t = self.peek_tag();
        let ty = if t == TokenTag::Array {
            self.parse_array_type(
                if packed {
                    packed_span
                } else {
                    span
                },
                packed,
            )
        } else if t == TokenTag::Record {
            self.parse_record_type(
                if packed {
                    packed_span
                } else {
                    span
                },
                packed,
            )
        } else if t == TokenTag::Caret {
            self.parse_pointer_type(span)
        } else if t == TokenTag::Identifier {
            let name = match self.peek() {
                TokenKind::Identifier(name) => name.clone(),
                _ => String::new(),
            };
            self.advance();
            if is_word(&name, "integer") {
                TypeExpr::Integer(span)
            } else if is_word(&name, "real") {
                TypeExpr::Real(span)
            } else if is_word(&name, "boolean") {
                TypeExpr::Boolean(span)
            } else if is_word(&name, "char") {
                TypeExpr::Char(span)
            } else if is_word(&name, "string") {
                let ghost s2 = *self;
                let r = self.parse_string_n_type(span);
                proof {
                    lemma_diags_extend_trans(s0.diagnostics@, s2.diagnostics@, self.diagnostics@, Seq::empty(), string_n_s(ts, s2.pos as int, span).diags);
                    assert(Seq::<DiagModel>::empty() + string_n_s(ts, s2.pos as int, span).diags =~= string_n_s(ts, s2.pos as int, span).diags);
                }
                r
            } else {
                TypeExpr::Named(Identifier::new(name, span))
            }
        } else {
            self.error_expected(
                "a type (INTEGER/REAL/BOOLEAN/CHAR/STRING[n]/ARRAY/RECORD/^type/a type name)",
            );
            if !(t == TokenTag::Semicolon || t == TokenTag::Eof) {
                self.advance();
            }
            TypeExpr::Integer(span)
        };
        let ghost s3 = *self;
        let ghost inner = if t == TokenTag::Array {
            array_s(ts, s1.pos as int, if packed { packed_span } else { span }, packed)
        } else if t == TokenTag::Record {
            record_s(ts, s1.pos as int, if packed { packed_span } else { span }, packed)
        } else {
            pointer_s(ts, s1.pos as int, span)
        };
        proof {
            if t == TokenTag::Array || t == TokenTag::Record || t == TokenTag::Caret {
                lemma_diags_extend_trans(s0.diagnostics@, s1.diagnostics@, s3.diagnostics@, Seq::empty(), inner.diags);
                assert(Seq::<DiagModel>::empty() + inner.diags =~= inner.diags);
            }
        }
        if packed && !(matches!(ty, TypeExpr::Array { .. }) || matches!(ty, TypeExpr::Record { .. })) {
            self.error(packed_span, "'PACKED' can only be applied to ARRAY or RECORD types".to_owned());
        }
        proof {
            reveal_with_fuel(type_s, 1);
            reveal_with_fuel(array_s, 1);
            reveal_with_fuel(record_s, 1);
            reveal_with_fuel(pointer_s, 1);
            let tyr = type_s(ts, s0.pos as int);
            assert(s3.diagnostics@.len() == s0.diagnostics@.len() + (tyr.diags.len() - (self.diagnostics@.len() - s3.diagnostics@.len())));
            if packed && !(matches!(ty, TypeExpr::Array { .. }) || matches!(ty, TypeExpr::Record { .. })) {
                lemma_diags_extend_trans(s0.diagnostics@, s3.diagnostics@, self.diagnostics@, tyr.diags.take(tyr.diags.len() - 1), seq![DiagModel { span: packed_span, message: "'PACKED' can only be applied to ARRAY or RECORD types"@ }]);
                assert(tyr.diags.take(tyr.diags.len() - 1) + seq![DiagModel { span: packed_span, message: "'PACKED' can only be applied to ARRAY or RECORD types"@ }] =~= tyr.diags);
            } else {
                assert(tyr.diags.take(tyr.diags.len() as int) =~= tyr.diags);
            }
        }
        ty
    }

    /// `ARRAY [bounds, ...] OF element`; several index ranges stand for
    /// nested arrays, the last range innermost.
    fn parse_array_type(&mut self, start: Span, packed: bool) -> (r: TypeExpr)
        requires
            old(self).wf(),
            old(self).cur() == TokenTag::Array,
        ensures
            final(self).moved(*old(self), array_s(old(self).token_list(), old(self).position(), start, packed)),
            type_model(r) == array_s(old(self).token_list(), old(self).position(), start, packed).value,
        decreases old(self).remaining(), 1nat,
    {
        let ghost ts = self.tokens@;
        let ghost s0 = *self;
        self.advance();
        let ghost s1 = *self;
        self.expect(TokenTag::LBracket, "'['");
        let ghost s2 = *self;
        let mut index_types: Vec<TypeExpr> = Vec::new();
        let first = self.parse_subrange_index();
        index_types.push(first);
        let ghost s3 = *self;
        let ghost total = subrange_rest_s(ts, s3.pos as int);
        let ghost mut acc: Seq<DiagModel> = Seq::empty();
        let ghost fm = subrange_s(ts, s2.pos as int).value;
        proof {
            lemma_diags_extend_none(s3.diagnostics@);
            assert(index_types@.map_values(|t: TypeExpr| type_model(t)) =~= seq![fm]);
        }
        while self.check(TokenTag::Comma)
            invariant
                self.steps(s3),
                self.pos > old(self).pos,
                ts == self.tokens@,
                diags_extend(self.diagnostics@, s3.diagnostics@, acc),
                index_types@.map_values(|t: TypeExpr| type_model(t)) + subrange_rest_s(ts, self.pos as int).value == seq![fm] + total.value,
                subrange_rest_s(ts, self.pos as int).pos == total.pos,
                acc + subrange_rest_s(ts, self.pos as int).diags == total.diags,
            decreases self.remaining(),
        {
            let ghost sa = *self;
            self.advance();
            let ghost sb = *self;
            let ix = self.parse_subrange_index();
            let ghost sv = subrange_s(ts, sb.pos as int);
            let ghost before = index_types@;
            index_types.push(ix);
            proof {
                let rest = subrange_rest_s(ts, self.pos as int);
                assert(subrange_rest_s(ts, sa.pos as int) == Parsed { value: seq![sv.value] + rest.value, pos: rest.pos, diags: sv.diags + rest.diags });
                assert(index_types@.map_values(|t: TypeExpr| type_model(t)) =~= before.map_values(|t: TypeExpr| type_model(t)).push(sv.value));
                assert(before.map_values(|t: TypeExpr| type_model(t)) + (seq![sv.value] + rest.value) =~= index_types@.map_values(|t: TypeExpr| type_model(t)) + rest.value);
                lemma_diags_extend_trans(s3.diagnostics@, sb.diagnostics@, self.diagnostics@, acc, sv.diags);
                assert(acc + (sv.diags + rest.diags) =~= (acc + sv.diags) + rest.diags);
                acc = acc + sv.diags;
            }
        }
        proof {
            assert(subrange_rest_s(ts, self.pos as int) == Parsed { value: Seq::<TypeModel>::empty(), pos: self.pos as int, diags: Seq::<DiagModel>::empty() });
            assert(index_types@.map_values(|t: TypeExpr| type_model(t)) + Seq::<TypeModel>::empty() =~= index_types@.map_values(|t: TypeExpr| type_model(t)));
            assert(acc + Seq::<DiagModel>::empty() =~= acc);
        }
        let ghost s4 = *self;
        self.expect(TokenTag::RBracket, "']'");
        let ghost s5 = *self;
        self.expect(TokenTag::Of, "'OF'");
        let ghost s6 = *self;
        let element_type = self.parse_type();
        let ghost el = type_s(ts, s6.pos as int);
        proof {
            lemma_type_model_span(element_type);
        }
        let element_end = element_type.span().end;
        let end = if element_end > start.end {
            element_end
        } else {
            start.end
        };
        let ghost all = seq![fm] + total.value;
        let mut result = element_type;
        let ghost sp = Span { start: start.start, end };
        proof {
            assert(index_types@.map_values(|t: TypeExpr| type_model(t)) == all);
        }
        while index_types.len() > 0
            invariant
                sp == (Span { start: start.start, end }),
                nest_arrays(index_types@.map_values(|t: TypeExpr| type_model(t)), type_model(result), packed, sp)
                    == nest_arrays(all, el.value, packed, sp),
            decreases index_types.len(),
        {
            let ghost before = index_types@;
            let ghost old_result = type_model(result);
            match index_types.pop() {
                Some(ix) => {
                    let ghost bm = before.map_values(|t: TypeExpr| type_model(t));
                    proof {
                        assert(index_types@.map_values(|t: TypeExpr| type_model(t)) =~= bm.drop_last());
                        assert(bm.last() == type_model(ix));
                    }
                    result = TypeExpr::Array {
                        index_type: Box::new(ix),
                        element_type: Box::new(result),
                        packed,
                        span: Span::new(start.start, end),
                    };
                    proof {
                        assert(type_model(result) == TypeModel::Array {
                            index_type: Box::new(bm.last()),
                            element_type: Box::new(old_result),
                            packed,
                            span: sp,
                        });
                        assert(nest_arrays(bm, old_result, packed, sp) == nest_arrays(
                            bm.drop_last(),
                            TypeModel::Array { index_type: Box::new(bm.last()), element_type: Box::new(old_result), packed, span: sp },
                            packed,
                            sp,
                        ));
                    }
                },
                None => {},
            }
        }
        proof {
            assert(index_types@.map_values(|t: TypeExpr| type_model(t)) =~= Seq::<TypeModel>::empty());
            reveal_with_fuel(array_s, 1);
            reveal_with_fuel(type_s, 1);
            let lb = expect_s(ts, s1.pos as int, TokenTag::LBracket, "'['"@);
            let fr = subrange_s(ts, s2.pos as int);
            lemma_diags_extend_trans(s0.diagnostics@, s1.diagnostics@, s2.diagnostics@, Seq::empty(), lb.diags);
            lemma_diags_extend_trans(s0.diagnostics@, s2.diagnostics@, s3.diagnostics@, Seq::empty() + lb.diags, fr.diags);
            lemma_diags_extend_trans(s0.diagnostics@, s3.diagnostics@, s4.diagnostics@, Seq::empty() + lb.diags + fr.diags, acc);
            lemma_diags_extend_trans(s0.diagnostics@, s4.diagnostics@, s5.diagnostics@, Seq::empty() + lb.diags + fr.diags + acc, expect_s(ts, s4.pos as int, TokenTag::RBracket, "']'"@).diags);
            lemma_diags_extend_trans(s0.diagnostics@, s5.diagnostics@, s6.diagnostics@, Seq::empty() + lb.diags + fr.diags + acc + expect_s(ts, s4.pos as int, TokenTag::RBracket, "']'"@).diags, expect_s(ts, s5.pos as int, TokenTag::Of, "'OF'"@).diags);
            lemma_diags_extend_trans(s0.diagnostics@, s6.diagnostics@, self.diagnostics@, Seq::empty() + lb.diags + fr.diags + acc + expect_s(ts, s4.pos as int, TokenTag::RBracket, "']'"@).diags + expect_s(ts, s5.pos as int, TokenTag::Of, "'OF'"@).diags, el.diags);
            assert(Seq::<DiagModel>::empty() + lb.diags + fr.diags + acc + expect_s(ts, s4.pos as int, TokenTag::RBracket, "']'"@).diags + expect_s(ts, s5.pos as int, TokenTag::Of, "'OF'"@).diags + el.diags
                =~= array_s(ts, s0.pos as int, start, packed).diags);
        }
        result
    }

    /// One index range `low..high` of an array type.
    fn parse_subrange_index(&mut self) -> (r: TypeExpr)
        requires
            old(self).wf(),
        ensures
            final(self).moved(*old(self), subrange_s(old(self).token_list(), old(self).position())),
            type_model(r) == subrange_s(old(self).token_list(), old(self).position()).value,
    {
        let ghost ts = self.tokens@;
        let ghost s0 = *self;
        let low = self.parse_const_literal();
        let ghost s1 = *self;
        self.expect(TokenTag::DotDot, "'..'");
        let ghost s2 = *self;
        let high = self.parse_const_literal();
        proof {
            Parser::lemma_moved_chain(s0, s1, s2, const_literal_s(ts, s0.pos as int), expect_s(ts, s1.pos as int, TokenTag::DotDot, "'..'"@));
            lemma_diags_extend_trans(s0.diagnostics@, s2.diagnostics@, self.diagnostics@,
                const_literal_s(ts, s0.pos as int).diags + expect_s(ts, s1.pos as int, TokenTag::DotDot, "'..'"@).diags,
                const_literal_s(ts, s2.pos as int).diags);
        }
        let span = Span::new(low.span().start, high.span().end);
        TypeExpr::Subrange { low, high, span }
    }

    /// `RECORD fields END`.
    fn parse_record_type(&mut self, start: Span, packed: bool) -> (r: TypeExpr)
        requires
            old(self).wf(),
            old(self).cur() == TokenTag::Record,
        ensures
            final(self).moved(*old(self), record_s(old(self).token_list(), old(self).position(), start, packed)),
            type_model(r) == record_s(old(self).token_list(), old(self).position(), start, packed).value,
        decreases old(self).remaining(), 1nat,
    {
        let ghost ts = self.tokens@;
        let ghost s0 = *self;
        self.advance();
        let ghost s1 = *self;
        let fields = self.parse_field_list();
        let ghost s2 = *self;
        let end_span = self.expect_and_span(TokenTag::End, "'END'");
        let end = if end_span.end > start.end {
            end_span.end
        } else {
            start.end
        };
        proof {
            reveal_with_fuel(record_s, 1);
            reveal_with_fuel(fields_s, 1);
            lemma_diags_extend_trans(s0.diagnostics@, s1.diagnostics@, s2.diagnostics@, Seq::empty(), fields_s(ts, s1.pos as int).diags);
            assert(Seq::<DiagModel>::empty() + fields_s(ts, s1.pos as int).diags =~= fields_s(ts, s1.pos as int).diags);
            lemma_diags_extend_trans(s0.diagnostics@, s2.diagnostics@, self.diagnostics@, fields_s(ts, s1.pos as int).diags, expect_span_s(ts, s2.pos as int, TokenTag::End, "'END'"@).diags);
        }
        TypeExpr::Record { fields, packed, span: Span::new(start.start, end) }
    }

    /// The field groups `a, b: T` of a record, separated by `;`, up to (not
    /// past) its `END`.
    fn parse_field_list(&mut self) -> (r: Vec<FieldDecl>)
        requires
            old(self).wf(),
        ensures
            final(self).moved(*old(self), fields_s(old(self).token_list(), old(self).position())),
            fields_model(r@) == fields_s(old(self).token_list(), old(self).position()).value,
        decreases old(self).remaining(), 3nat,
    {
        let ghost ts = self.tokens@;
        let ghost s0 = *self;
        let ghost total = fields_s(ts, s0.pos as int);
        let ghost mut acc: Seq<DiagModel> = Seq::empty();
        let mut fields: Vec<FieldDecl> = Vec::new();
        proof {
            lemma_diags_extend_none(s0.diagnostics@);
            assert(fields_model(fields@) + total.value =~= total.value);
            assert(acc + total.diags =~= total.diags);
        }
        loop
            invariant_except_break
                fields_model(fields@) + fields_s(ts, self.pos as int).value == total.value,
                fields_s(ts, self.pos as int).pos == total.pos,
                acc + fields_s(ts, self.pos as int).diags == total.diags,
            invariant
                self.steps(s0),
                self.steps(*old(self)),
                ts == self.tokens@,
                diags_extend(self.diagnostics@, s0.diagnostics@, acc),
            ensures
                self.steps(s0),
                diags_extend(self.diagnostics@, s0.diagnostics@, acc),
                fields_model(fields@) == total.value,
                self.pos == total.pos,
                acc == total.diags,
            decreases self.remaining(),
        {
            let ghost sa = *self;
            if !self.check(TokenTag::Identifier) {
                proof {
                    reveal_with_fuel(fields_s, 1);
                    reveal_with_fuel(type_s, 1);
                    assert(fields_model(fields@) + Seq::<FieldModel>::empty() =~= fields_model(fields@));
                    assert(acc + Seq::<DiagModel>::empty() =~= acc);
                }
                break;
            }
            let start = self.peek_span();
            let names = self.parse_ident_list("field name");
            let ghost sb = *self;
            self.expect(TokenTag::Colon, "':'");
            let ghost sc = *self;
            let ty = self.parse_type();
            let ghost sd = *self;
            proof {
                lemma_type_model_span(ty);
            }
            let span = Span::new(start.start, ty.span().end);
            let ghost before = fields@;
            fields.push(FieldDecl { names, ty, span });
            let ghost here = ident_list_s(ts, sa.pos as int, "field name"@).diags + expect_s(ts, sb.pos as int, TokenTag::Colon, "':'"@).diags + type_s(ts, sc.pos as int).diags;
            proof {
                assert(fields@.drop_last() =~= before);
                lemma_diags_extend_trans(s0.diagnostics@, sa.diagnostics@, sb.diagnostics@, acc, ident_list_s(ts, sa.pos as int, "field name"@).diags);
                lemma_diags_extend_trans(s0.diagnostics@, sb.diagnostics@, sc.diagnostics@, acc + ident_list_s(ts, sa.pos as int, "field name"@).diags, expect_s(ts, sb.pos as int, TokenTag::Colon, "':'"@).diags);
                lemma_diags_extend_trans(s0.diagnostics@, sc.diagnostics@, sd.diagnostics@, acc + ident_list_s(ts, sa.pos as int, "field name"@).diags + expect_s(ts, sb.pos as int, TokenTag::Colon, "':'"@).diags, type_s(ts, sc.pos as int).diags);
                assert(acc + ident_list_s(ts, sa.pos as int, "field name"@).diags + expect_s(ts, sb.pos as int, TokenTag::Colon, "':'"@).diags + type_s(ts, sc.pos as int).diags =~= acc + here);
            }
            if self.check(TokenTag::Semicolon) {
                self.advance();
                proof {
                    reveal_with_fuel(fields_s, 1);
                    reveal_with_fuel(type_s, 1);
                    let rest = fields_s(ts, self.pos as int);
                    let f = fields_model(fields@).last();
                    assert(fields_s(ts, sa.pos as int) == Parsed { value: seq![f] + rest.value, pos: rest.pos, diags: here + rest.diags });
                    assert(fields_model(before) + (seq![f] + rest.value) =~= fields_model(fields@) + rest.value);
                    assert(acc + (here + rest.diags) =~= (acc + here) + rest.diags);
                    acc = acc + here;
                }
            } else {
                proof {
                    reveal_with_fuel(fields_s, 1);
                    reveal_with_fuel(type_s, 1);
                    let f = fields_model(fields@).last();
                    assert(fields_s(ts, sa.pos as int) == Parsed { value: seq![f], pos: sd.pos as int, diags: here });
                    assert(fields_model(before) + seq![f] =~= fields_model(fields@));
                    acc = acc + here;
                }
                break;
            }
        }
        fields
    }

    /// `^T`, a pointer type; `T` may be declared later.
    fn parse_pointer_type(&mut self, caret_span: Span) -> (r: TypeExpr)
        requires
            old(self).wf(),
            old(self).cur() == TokenTag::Caret,
        ensures
            final(self).moved(*old(self), pointer_s(old(self).token_list(), old(self).position(), caret_span)),
            type_model(r) == pointer_s(old(self).token_list(), old(self).position(), caret_span).value,
        decreases old(self).remaining(), 1nat,
    {
        let ghost ts = self.tokens@;
        let ghost s0 = *self;
        self.advance();
        let ghost s1 = *self;
        let inner = self.parse_type();
        proof {
            lemma_type_model_span(inner);
            reveal_with_fuel(pointer_s, 1);
            reveal_with_fuel(type_s, 1);
            lemma_diags_extend_trans(s0.diagnostics@, s1.diagnostics@, self.diagnostics@, Seq::empty(), type_s(ts, s1.pos as int).diags);
            assert(Seq::<DiagModel>::empty() + type_s(ts, s1.pos as int).diags =~= type_s(ts, s1.pos as int).diags);
        }
        let inner_end = inner.span().end;
        let end = if inner_end > caret_span.end {
            inner_end
        } else {
            caret_span.end
        };
        TypeExpr::Pointer(Box::new(inner), Span::new(caret_span.start, end))
    }

    /// UCSD extension: the `[n]` after `STRING`, whose span is `type_start`.
    /// Without `[n]` the length is 80; a length that is not a positive
    /// integer is reported and 80 stands in.
    fn parse_string_n_type(&mut self, type_start: Span) -> (r: TypeExpr)
        requires
            old(self).wf(),
        ensures
            final(self).moved(*old(self), string_n_s(old(self).token_list(), old(self).position(), type_start)),
            type_model(r) == string_n_s(old(self).token_list(), old(self).position(), type_start).value,
    {
        let ghost ts = self.tokens@;
        let ghost s0 = *self;
        proof {
            lemma_diags_extend_none(s0.diagnostics@);
        }
        if !self.check(TokenTag::LBracket) {
            return TypeExpr::StringN(80, type_start);
        }
        self.advance();
        let ghost s1 = *self;
        let len: usize = match self.peek() {
            TokenKind::IntegerLiteral(v) if *v > 0 => {
                let n = *v as usize;
                self.advance();
                n
            },
            other => {
                let t = other.tag();
                let span = self.peek_span();
                let mut m = "expected a positive integer length for STRING[n], found ".to_owned();
                let found = describe(other);
                push_str(&mut m, found.as_str());
                self.error(span, m);
                if !(t == TokenTag::RBracket || t == TokenTag::Semicolon || t == TokenTag::Eof) {
                    self.advance();
                }
                80
            },
        };
        let ghost s2 = *self;
        let close = self.expect_and_span(TokenTag::RBracket, "']'");
        let end = if close.end > type_start.end {
            close.end
        } else {
            type_start.end
        };
        proof {
            let len_diags = string_len_s(ts, s1.pos as int).diags;
            lemma_diags_extend_none(s1.diagnostics@);
            lemma_diags_extend_trans(s0.diagnostics@, s1.diagnostics@, s2.diagnostics@, Seq::empty(), len_diags);
            assert(Seq::<DiagModel>::empty() + len_diags =~= len_diags);
            lemma_diags_extend_trans(s0.diagnostics@, s2.diagnostics@, self.diagnostics@, len_diags, expect_span_s(ts, s2.pos as int, TokenTag::RBracket, "']'"@).diags);
        }
        TypeExpr::StringN(len, Span::new(type_start.start, end))
    }
}

} // verus!
