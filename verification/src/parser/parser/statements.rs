//! Statements (ISO 7185, 6.8), with the UCSD `OTHERWISE` branch of `CASE`
//! and compiler directives in statement position.

use vstd::prelude::*;

use crate::ast::{Block, CaseBranch, Expr, ForDirection, Literal, Span, Statement};
use crate::lexer::token::{Token, TokenKind, TokenTag};
use crate::parser::describe::describe;
use crate::parser::grammar::{
    assign_or_call_s, branches_s, call_args_s, case_s, chain_s, compound_s, const_literal_s,
    direction_s, empty_stmt, expect_s, expect_span_s, expected_diag, expr_s, for_s, identifier_s,
    if_s, label_rest_s, labels_s, next_pos, repeat_s, seq_s, skip_semicolons, span_at, stmt_or_recover_s,
    stmt_s, sync_pos, tag_at, while_s, within, Parsed,
};
use crate::parser::model::{
    block_model, branches_model, diags_extend, expr_model, exprs_model, ident_model,
    lemma_diags_extend_none, lemma_diags_extend_trans, lemma_model_span, lemma_stmt_model_span,
    lemma_stmts_model_push, lit_model, lits_model, stmt_model, stmts_model, BranchModel, DiagModel,
    ExprModel, LitModel, StmtModel,
};
use crate::parser::parser::Parser;
use crate::strings::push_str;

verus! {

/// The model of a statement that may be missing.
pub open spec fn opt_stmt_model(s: Option<Statement>) -> Option<StmtModel> {
    match s {
        Some(x) => Some(stmt_model(x)),
        None => None,
    }
}

/// The model of a boxed statement that may be missing.
pub open spec fn opt_boxed_stmt_model(s: Option<Box<Statement>>) -> Option<StmtModel> {
    match s {
        Some(x) => Some(stmt_model(*x)),
        None => None,
    }
}

/// The recursion equation of `seq_s` where the statements end: at
/// `terminator` or at the end of input, after any `;`.
proof fn lemma_seq_done(ts: Seq<Token>, p: int, terminator: TokenTag, desc: Seq<char>)
    requires
        within(ts, p),
        p <= skip_semicolons(ts, p) < ts.len(),
        tag_at(ts, skip_semicolons(ts, p)) == terminator || tag_at(ts, skip_semicolons(ts, p)) == TokenTag::Eof,
    ensures
        seq_s(ts, p, terminator, desc) == (Parsed {
            value: Seq::<StmtModel>::empty(),
            pos: skip_semicolons(ts, p),
            diags: Seq::<DiagModel>::empty(),
        }),
{
    reveal_with_fuel(seq_s, 1);
    reveal_with_fuel(stmt_s, 1);
}

/// The recursion equation of `seq_s` where a statement follows the `;`s.
proof fn lemma_seq_more(ts: Seq<Token>, p: int, terminator: TokenTag, desc: Seq<char>)
    requires
        within(ts, p),
        p <= skip_semicolons(ts, p) < ts.len(),
        tag_at(ts, skip_semicolons(ts, p)) != terminator,
        tag_at(ts, skip_semicolons(ts, p)) != TokenTag::Eof,
    ensures
        ({
            let st = stmt_s(ts, skip_semicolons(ts, p));
            let t = tag_at(ts, st.pos);
            match st.value {
                Some(s) => if t == TokenTag::Semicolon {
                    p < st.pos < ts.len() ==> seq_s(ts, p, terminator, desc) == (Parsed {
                        value: seq![s] + seq_s(ts, st.pos, terminator, desc).value,
                        pos: seq_s(ts, st.pos, terminator, desc).pos,
                        diags: st.diags + seq_s(ts, st.pos, terminator, desc).diags,
                    })
                } else if t == terminator || t == TokenTag::Eof {
                    seq_s(ts, p, terminator, desc) == (Parsed { value: seq![s], pos: st.pos, diags: st.diags })
                } else {
                    let synced = sync_pos(ts, st.pos);
                    let q = if synced == st.pos {
                        next_pos(ts, st.pos)
                    } else {
                        synced
                    };
                    p < q < ts.len() ==> seq_s(ts, p, terminator, desc) == (Parsed {
                        value: seq![s] + seq_s(ts, q, terminator, desc).value,
                        pos: seq_s(ts, q, terminator, desc).pos,
                        diags: st.diags + seq![expected_diag(ts, st.pos, "';' or "@ + desc)] + seq_s(
                            ts,
                            q,
                            terminator,
                            desc,
                        ).diags,
                    })
                },
                None => {
                    let q = sync_pos(ts, st.pos);
                    p < q < ts.len() ==> seq_s(ts, p, terminator, desc) == (Parsed {
                        value: seq_s(ts, q, terminator, desc).value,
                        pos: seq_s(ts, q, terminator, desc).pos,
                        diags: st.diags + seq_s(ts, q, terminator, desc).diags,
                    })
                },
            }
        }),
{
    reveal_with_fuel(seq_s, 1);
    reveal_with_fuel(stmt_s, 1);
}

/// The recursion equation of `branches_s` at the `END` of the branches
/// or at the end of input, after any `;`.
proof fn lemma_branches_done(ts: Seq<Token>, p: int)
    requires
        within(ts, p),
        p <= skip_semicolons(ts, p) < ts.len(),
        tag_at(ts, skip_semicolons(ts, p)) == TokenTag::End || tag_at(ts, skip_semicolons(ts, p)) == TokenTag::Eof,
    ensures
        branches_s(ts, p) == (Parsed {
            value: (Seq::<BranchModel>::empty(), None::<StmtModel>),
            pos: skip_semicolons(ts, p),
            diags: Seq::<DiagModel>::empty(),
        }),
{
    reveal_with_fuel(branches_s, 1);
    reveal_with_fuel(stmt_or_recover_s, 1);
}

/// The recursion equation of `branches_s` at `OTHERWISE`.
proof fn lemma_branches_otherwise(ts: Seq<Token>, p: int)
    requires
        within(ts, p),
        p <= skip_semicolons(ts, p) < ts.len(),
        tag_at(ts, skip_semicolons(ts, p)) == TokenTag::Otherwise,
        skip_semicolons(ts, p) < next_pos(ts, skip_semicolons(ts, p)) < ts.len(),
    ensures
        ({
            let o = stmt_or_recover_s(ts, next_pos(ts, skip_semicolons(ts, p)));
            branches_s(ts, p) == (Parsed {
                value: (Seq::<BranchModel>::empty(), Some(o.value)),
                pos: if tag_at(ts, o.pos) == TokenTag::Semicolon {
                    next_pos(ts, o.pos)
                } else {
                    o.pos
                },
                diags: o.diags,
            })
        }),
{
    reveal_with_fuel(branches_s, 1);
    reveal_with_fuel(stmt_or_recover_s, 1);
}

/// The recursion equation of `branches_s` at a branch `labels: statement`.
proof fn lemma_branches_more(ts: Seq<Token>, p: int)
    requires
        within(ts, p),
        p <= skip_semicolons(ts, p) < ts.len(),
        tag_at(ts, skip_semicolons(ts, p)) != TokenTag::End,
        tag_at(ts, skip_semicolons(ts, p)) != TokenTag::Eof,
        tag_at(ts, skip_semicolons(ts, p)) != TokenTag::Otherwise,
        p <= expect_s(ts, labels_s(ts, skip_semicolons(ts, p)).pos, TokenTag::Colon, "':'"@).pos < ts.len(),
    ensures
        ({
            let p1 = skip_semicolons(ts, p);
            let labels = labels_s(ts, p1);
            let colon = expect_s(ts, labels.pos, TokenTag::Colon, "':'"@);
            let body = stmt_or_recover_s(ts, colon.pos);
            let branch = BranchModel {
                labels: labels.value,
                body: body.value,
                span: Span { start: span_at(ts, p1).start, end: body.value.span().end },
            };
            let here = labels.diags + colon.diags + body.diags;
            let bt = tag_at(ts, body.pos);
            if bt == TokenTag::End || bt == TokenTag::Eof {
                branches_s(ts, p) == (Parsed { value: (seq![branch], None::<StmtModel>), pos: body.pos, diags: here })
            } else {
                let err = if bt == TokenTag::Semicolon || bt == TokenTag::Otherwise {
                    Seq::<DiagModel>::empty()
                } else {
                    seq![expected_diag(ts, body.pos, "';' or 'END'"@)]
                };
                let synced = sync_pos(ts, body.pos);
                let next = if bt == TokenTag::Semicolon || bt == TokenTag::Otherwise {
                    body.pos
                } else if synced == body.pos {
                    next_pos(ts, body.pos)
                } else {
                    synced
                };
                p < next < ts.len() ==> branches_s(ts, p) == (Parsed {
                    value: (seq![branch] + branches_s(ts, next).value.0, branches_s(ts, next).value.1),
                    pos: branches_s(ts, next).pos,
                    diags: here + err + branches_s(ts, next).diags,
                })
            }
        }),
{
    reveal_with_fuel(branches_s, 1);
    reveal_with_fuel(stmt_or_recover_s, 1);
}

fn empty_statement(at: Span) -> (s: Statement)
    ensures
        stmt_model(s) == empty_stmt(at),
{
    let s = Statement::Compound(Block { statements: Vec::new(), span: Span::new(at.start, at.start) });
    proof {
        assert(stmts_model(Seq::<Statement>::empty()) =~= Seq::<StmtModel>::empty());
    }
    s
}

impl Parser {
    /// One statement. At `;`, `END`, `ELSE` or `UNTIL` it is the empty
    /// statement and nothing is consumed. `None` when the current token
    /// begins no supported statement (a diagnostic is reported), or when an
    /// array, record or pointer designator is not followed by `:=`.
    pub(crate) fn parse_statement(&mut self) -> (r: Option<Statement>)
        requires
            old(self).wf(),
        ensures
            final(self).moved(*old(self), stmt_s(old(self).token_list(), old(self).position())),
            opt_stmt_model(r) == stmt_s(old(self).token_list(), old(self).position()).value,
            r is None && final(self).position() == old(self).position() ==> old(self).cur() != TokenTag::Semicolon
                && old(self).cur() != TokenTag::End && old(self).cur() != TokenTag::Else
                && old(self).cur() != TokenTag::Until,
        decreases old(self).remaining(), 13nat,
    {
        let ghost ts = self.tokens@;
        let ghost p = self.pos as int;
        let ghost s0 = *self;
        proof {
            reveal_with_fuel(stmt_s, 1);
            reveal_with_fuel(compound_s, 1);
            reveal_with_fuel(if_s, 1);
            reveal_with_fuel(while_s, 1);
            reveal_with_fuel(for_s, 1);
            reveal_with_fuel(repeat_s, 1);
            reveal_with_fuel(case_s, 1);
            lemma_diags_extend_none(s0.diagnostics@);
        }
        let t = self.peek_tag();
        if t == TokenTag::Begin {
            Some(Statement::Compound(self.parse_compound_statement()))
        } else if t == TokenTag::If {
            Some(self.parse_if_statement())
        } else if t == TokenTag::While {
            Some(self.parse_while_statement())
        } else if t == TokenTag::For {
            Some(self.parse_for_statement())
        } else if t == TokenTag::Repeat {
            Some(self.parse_repeat_statement())
        } else if t == TokenTag::Case {
            Some(self.parse_case_statement())
        } else if t == TokenTag::Identifier {
            self.parse_assignment_or_call()
        } else if t == TokenTag::CompilerDirective {
            let span = self.peek_span();
            let (name, args) = match self.peek() {
                TokenKind::CompilerDirective { name, args } => (name.clone(), args.clone()),
                _ => (String::new(), String::new()),
            };
            self.advance();
            Some(Statement::CompilerDirective { name, args, span })
        } else if t == TokenTag::Semicolon || t == TokenTag::End || t == TokenTag::Else || t
            == TokenTag::Until {
            let span = self.peek_span();
            Some(empty_statement(span))
        } else if t == TokenTag::With || t == TokenTag::Goto || t == TokenTag::Label {
            let span = self.peek_span();
            let mut m = describe(self.peek());
            push_str(
                &mut m,
                " is not supported by this parser yet (only assignment, IF/THEN/ELSE, WHILE/DO, FOR/DO, REPEAT/UNTIL, CASE/OF, compound statements, and procedure calls are supported)",
            );
            self.error(span, m);
            self.advance();
            None
        } else {
            self.error_expected("statement");
            None
        }
    }

    /// A statement; where none can be read, skips to the next statement
    /// boundary and stands an empty statement in.
    pub(crate) fn parse_statement_or_recover(&mut self) -> (r: Statement)
        requires
            old(self).wf(),
        ensures
            final(self).moved(*old(self), stmt_or_recover_s(old(self).token_list(), old(self).position())),
            stmt_model(r) == stmt_or_recover_s(old(self).token_list(), old(self).position()).value,
        decreases old(self).remaining(), 14nat,
    {
        let ghost ts = self.tokens@;
        let ghost s0 = *self;
        proof {
            reveal_with_fuel(stmt_or_recover_s, 1);
            reveal_with_fuel(stmt_s, 1);
        }
        match self.parse_statement() {
            Some(stmt) => stmt,
            None => {
                let span = self.peek_span();
                let ghost s1 = *self;
                self.synchronize_to_statement_boundary();
                proof {
                    let st = stmt_s(ts, s0.pos as int);
                    lemma_diags_extend_none(s1.diagnostics@);
                    lemma_diags_extend_trans(s0.diagnostics@, s1.diagnostics@, self.diagnostics@, st.diags, Seq::empty());
                    assert(st.diags + Seq::<DiagModel>::empty() =~= st.diags);
                }
                empty_statement(span)
            },
        }
    }

    /// `BEGIN statements END`.
    pub(crate) fn parse_compound_statement(&mut self) -> (b: Block)
        requires
            old(self).wf(),
            old(self).cur() == TokenTag::Begin,
        ensures
            final(self).moved(*old(self), compound_s(old(self).token_list(), old(self).position())),
            block_model(b) == compound_s(old(self).token_list(), old(self).position()).value,
        decreases old(self).remaining(), 11nat,
    {
        let ghost ts = self.tokens@;
        let ghost s0 = *self;
        let start = self.peek_span();
        self.advance();
        let ghost s1 = *self;
        let statements = self.parse_statement_sequence(TokenTag::End, "'END'");
        let ghost s2 = *self;
        let end_span = self.expect_and_span(TokenTag::End, "'END'");
        proof {
            reveal_with_fuel(compound_s, 1);
            reveal_with_fuel(seq_s, 1);
            let body = seq_s(ts, s1.pos as int, TokenTag::End, "'END'"@);
            let close = expect_span_s(ts, s2.pos as int, TokenTag::End, "'END'"@);
            lemma_diags_extend_none(s0.diagnostics@);
            lemma_diags_extend_trans(s0.diagnostics@, s1.diagnostics@, s2.diagnostics@, Seq::empty(), body.diags);
            lemma_diags_extend_trans(s0.diagnostics@, s2.diagnostics@, self.diagnostics@, Seq::empty() + body.diags, close.diags);
            assert(Seq::<DiagModel>::empty() + body.diags + close.diags =~= body.diags + close.diags);
        }
        Block { statements, span: Span::new(start.start, end_span.end) }
    }

    /// Statements separated by `;`, up to (not past) `terminator` or the end
    /// of input. Empty statements are dropped; a statement that cannot be
    /// read is skipped up to the next boundary.
    pub(crate) fn parse_statement_sequence(&mut self, terminator: TokenTag, terminator_desc: &str) -> (r:
        Vec<Statement>)
        requires
            old(self).wf(),
        ensures
            final(self).moved(
                *old(self),
                seq_s(old(self).token_list(), old(self).position(), terminator, terminator_desc@),
            ),
            stmts_model(r@) == seq_s(old(self).token_list(), old(self).position(), terminator, terminator_desc@).value,
        decreases old(self).remaining(), 15nat,
    {
        let ghost ts = self.tokens@;
        let ghost s0 = *self;
        let ghost desc = terminator_desc@;
        let ghost total = seq_s(ts, s0.pos as int, terminator, desc);
        let ghost mut acc: Seq<DiagModel> = Seq::empty();
        let mut statements: Vec<Statement> = Vec::new();
        proof {
            lemma_diags_extend_none(s0.diagnostics@);
            assert(stmts_model(statements@) + total.value =~= total.value);
            assert(acc + total.diags =~= total.diags);
        }
        loop
            invariant_except_break
                stmts_model(statements@) + seq_s(ts, self.pos as int, terminator, desc).value == total.value,
                seq_s(ts, self.pos as int, terminator, desc).pos == total.pos,
                acc + seq_s(ts, self.pos as int, terminator, desc).diags == total.diags,
            invariant
                self.steps(s0),
                s0 == *old(self),
                ts == self.tokens@,
                desc == terminator_desc@,
                total == seq_s(ts, s0.pos as int, terminator, desc),
                diags_extend(self.diagnostics@, s0.diagnostics@, acc),
            ensures
                self.steps(s0),
                diags_extend(self.diagnostics@, s0.diagnostics@, acc),
                stmts_model(statements@) == total.value,
                self.pos == total.pos,
                acc == total.diags,
            decreases self.remaining(),
        {
            let ghost sa = *self;
            let ghost pa = sa.pos as int;
            while self.check(TokenTag::Semicolon)
                invariant
                    self.steps(sa),
                    self.diagnostics == sa.diagnostics,
                    ts == self.tokens@,
                    skip_semicolons(ts, self.pos as int) == skip_semicolons(ts, pa),
                decreases self.remaining(),
            {
                self.advance();
            }
            let ghost p1 = self.pos as int;
            assert(p1 == skip_semicolons(ts, pa));
            if self.check(terminator) || self.is_eof() {
                proof {
                    lemma_seq_done(ts, pa, terminator, desc);
                    assert(stmts_model(statements@) + Seq::<StmtModel>::empty() =~= stmts_model(statements@));
                    assert(acc + Seq::<DiagModel>::empty() =~= acc);
                }
                break;
            }
            let ghost sb = *self;
            let ghost st = stmt_s(ts, p1);
            proof {
                lemma_seq_more(ts, pa, terminator, desc);
            }
            match self.parse_statement() {
                Some(stmt) => {
                    let ghost sc = *self;
                    let ghost before = statements@;
                    statements.push(stmt);
                    proof {
                        lemma_stmts_model_push(before, stmt);
                        lemma_diags_extend_trans(s0.diagnostics@, sb.diagnostics@, sc.diagnostics@, acc, st.diags);
                    }
                    if self.check(TokenTag::Semicolon) {
                        proof {
                            let rest = seq_s(ts, sc.pos as int, terminator, desc);
                            assert(seq_s(ts, pa, terminator, desc) == Parsed {
                                value: seq![stmt_model(stmt)] + rest.value,
                                pos: rest.pos,
                                diags: st.diags + rest.diags,
                            });
                            assert(stmts_model(before) + (seq![stmt_model(stmt)] + rest.value) =~= stmts_model(
                                statements@,
                            ) + rest.value);
                            assert(acc + (st.diags + rest.diags) =~= (acc + st.diags) + rest.diags);
                            acc = acc + st.diags;
                        }
                    } else if self.check(terminator) || self.is_eof() {
                        proof {
                            assert(seq_s(ts, pa, terminator, desc) == Parsed {
                                value: seq![stmt_model(stmt)],
                                pos: sc.pos as int,
                                diags: st.diags,
                            });
                            assert(stmts_model(before) + seq![stmt_model(stmt)] =~= stmts_model(statements@));
                            acc = acc + st.diags;
                        }
                        break;
                    } else {
                        let mut what = "';' or ".to_owned();
                        push_str(&mut what, terminator_desc);
                        self.error_expected(what.as_str());
                        let ghost sd = *self;
                        let pos_before_sync = self.pos;
                        self.synchronize_to_statement_boundary();
                        if self.pos == pos_before_sync {
                            self.advance();
                        }
                        proof {
                            let err = expected_diag(ts, sc.pos as int, "';' or "@ + desc);
                            let rest = seq_s(ts, self.pos as int, terminator, desc);
                            assert(seq_s(ts, pa, terminator, desc) == Parsed {
                                value: seq![stmt_model(stmt)] + rest.value,
                                pos: rest.pos,
                                diags: st.diags + seq![err] + rest.diags,
                            });
                            lemma_diags_extend_trans(s0.diagnostics@, sc.diagnostics@, sd.diagnostics@, acc + st.diags, seq![err]);
                            lemma_diags_extend_none(sd.diagnostics@);
                            lemma_diags_extend_trans(
                                s0.diagnostics@,
                                sd.diagnostics@,
                                self.diagnostics@,
                                acc + st.diags + seq![err],
                                Seq::empty(),
                            );
                            assert(acc + st.diags + seq![err] + Seq::<DiagModel>::empty() =~= acc + st.diags + seq![err]);
                            assert(stmts_model(before) + (seq![stmt_model(stmt)] + rest.value) =~= stmts_model(
                                statements@,
                            ) + rest.value);
                            assert(acc + (st.diags + seq![err] + rest.diags) =~= (acc + st.diags + seq![err]) + rest.diags);
                            acc = acc + st.diags + seq![err];
                        }
                    }
                },
                None => {
                    let ghost sc = *self;
                    self.synchronize_to_statement_boundary();
                    proof {
                        let rest = seq_s(ts, self.pos as int, terminator, desc);
                        assert(seq_s(ts, pa, terminator, desc) == Parsed {
                            value: rest.value,
                            pos: rest.pos,
                            diags: st.diags + rest.diags,
                        });
                        lemma_diags_extend_trans(s0.diagnostics@, sb.diagnostics@, sc.diagnostics@, acc, st.diags);
                        lemma_diags_extend_none(sc.diagnostics@);
                        lemma_diags_extend_trans(s0.diagnostics@, sc.diagnostics@, self.diagnostics@, acc + st.diags, Seq::empty());
                        assert(acc + st.diags + Seq::<DiagModel>::empty() =~= acc + st.diags);
                        assert(acc + (st.diags + rest.diags) =~= (acc + st.diags) + rest.diags);
                        acc = acc + st.diags;
                    }
                },
            }
        }
        statements
    }

    /// `REPEAT statements UNTIL condition`.
    fn parse_repeat_statement(&mut self) -> (s: Statement)
        requires
            old(self).wf(),
            old(self).cur() == TokenTag::Repeat,
        ensures
            final(self).moved(*old(self), repeat_s(old(self).token_list(), old(self).position())),
            stmt_model(s) == repeat_s(old(self).token_list(), old(self).position()).value,
        decreases old(self).remaining(), 12nat,
    {
        let ghost ts = self.tokens@;
        let ghost s0 = *self;
        let start = self.peek_span();
        self.advance();
        let ghost s1 = *self;
        let body = self.parse_statement_sequence(TokenTag::Until, "'UNTIL'");
        let ghost s2 = *self;
        self.expect(TokenTag::Until, "'UNTIL'");
        let ghost s3 = *self;
        let until_cond = self.parse_expr();
        proof {
            reveal_with_fuel(repeat_s, 1);
            reveal_with_fuel(seq_s, 1);
            lemma_model_span(until_cond);
            let b = seq_s(ts, s1.pos as int, TokenTag::Until, "'UNTIL'"@);
            let u = expect_s(ts, s2.pos as int, TokenTag::Until, "'UNTIL'"@);
            let c = expr_s(ts, s3.pos as int);
            lemma_diags_extend_none(s0.diagnostics@);
            lemma_diags_extend_trans(s0.diagnostics@, s1.diagnostics@, s2.diagnostics@, Seq::empty(), b.diags);
            lemma_diags_extend_trans(s0.diagnostics@, s2.diagnostics@, s3.diagnostics@, Seq::empty() + b.diags, u.diags);
            lemma_diags_extend_trans(s0.diagnostics@, s3.diagnostics@, self.diagnostics@, Seq::empty() + b.diags + u.diags, c.diags);
            assert(Seq::<DiagModel>::empty() + b.diags + u.diags + c.diags =~= b.diags + u.diags + c.diags);
        }
        let span = Span::new(start.start, until_cond.span().end);
        Statement::Repeat { body, until_cond, span }
    }
}

impl Parser {
    /// `IF condition THEN statement [ELSE statement]`; an `ELSE` belongs to
    /// the nearest `IF`.
    fn parse_if_statement(&mut self) -> (s: Statement)
        requires
            old(self).wf(),
            old(self).cur() == TokenTag::If,
        ensures
            final(self).moved(*old(self), if_s(old(self).token_list(), old(self).position())),
            stmt_model(s) == if_s(old(self).token_list(), old(self).position()).value,
        decreases old(self).remaining(), 12nat,
    {
        let ghost ts = self.tokens@;
        let ghost s0 = *self;
        let start = self.peek_span();
        self.advance();
        let ghost s1 = *self;
        let cond = self.parse_expr();
        let ghost s2 = *self;
        self.expect(TokenTag::Then, "'THEN'");
        let ghost s3 = *self;
        let then_branch = self.parse_statement_or_recover();
        let ghost s4 = *self;
        let ghost c = expr_s(ts, s1.pos as int);
        let ghost th = expect_s(ts, s2.pos as int, TokenTag::Then, "'THEN'"@);
        let ghost tb = stmt_or_recover_s(ts, s3.pos as int);
        proof {
            lemma_diags_extend_none(s0.diagnostics@);
            lemma_diags_extend_trans(s0.diagnostics@, s1.diagnostics@, s2.diagnostics@, Seq::empty(), c.diags);
            lemma_diags_extend_trans(s0.diagnostics@, s2.diagnostics@, s3.diagnostics@, Seq::empty() + c.diags, th.diags);
            lemma_diags_extend_trans(s0.diagnostics@, s3.diagnostics@, s4.diagnostics@, Seq::empty() + c.diags + th.diags, tb.diags);
            assert(Seq::<DiagModel>::empty() + c.diags + th.diags + tb.diags =~= c.diags + th.diags + tb.diags);
            lemma_stmt_model_span(then_branch);
        }
        if self.check(TokenTag::Else) {
            self.advance();
            let ghost s5 = *self;
            let else_stmt = self.parse_statement_or_recover();
            proof {
                reveal_with_fuel(if_s, 1);
                reveal_with_fuel(stmt_or_recover_s, 1);
                let eb = stmt_or_recover_s(ts, s5.pos as int);
                lemma_stmt_model_span(else_stmt);
                lemma_diags_extend_none(s4.diagnostics@);
                lemma_diags_extend_trans(s0.diagnostics@, s4.diagnostics@, s5.diagnostics@, c.diags + th.diags + tb.diags, Seq::empty());
                assert(c.diags + th.diags + tb.diags + Seq::<DiagModel>::empty() =~= c.diags + th.diags + tb.diags);
                lemma_diags_extend_trans(s0.diagnostics@, s5.diagnostics@, self.diagnostics@, c.diags + th.diags + tb.diags, eb.diags);
            }
            let end = else_stmt.span().end;
            Statement::If {
                cond,
                then_branch: Box::new(then_branch),
                else_branch: Some(Box::new(else_stmt)),
                span: Span::new(start.start, end),
            }
        } else {
            proof {
                reveal_with_fuel(if_s, 1);
                reveal_with_fuel(stmt_or_recover_s, 1);
            }
            let end = then_branch.span().end;
            Statement::If {
                cond,
                then_branch: Box::new(then_branch),
                else_branch: None,
                span: Span::new(start.start, end),
            }
        }
    }

    /// `WHILE condition DO statement`.
    fn parse_while_statement(&mut self) -> (s: Statement)
        requires
            old(self).wf(),
            old(self).cur() == TokenTag::While,
        ensures
            final(self).moved(*old(self), while_s(old(self).token_list(), old(self).position())),
            stmt_model(s) == while_s(old(self).token_list(), old(self).position()).value,
        decreases old(self).remaining(), 12nat,
    {
        let ghost ts = self.tokens@;
        let ghost s0 = *self;
        let start = self.peek_span();
        self.advance();
        let ghost s1 = *self;
        let cond = self.parse_expr();
        let ghost s2 = *self;
        self.expect(TokenTag::Do, "'DO'");
        let ghost s3 = *self;
        let body = self.parse_statement_or_recover();
        proof {
            reveal_with_fuel(while_s, 1);
            reveal_with_fuel(stmt_or_recover_s, 1);
            let c = expr_s(ts, s1.pos as int);
            let d = expect_s(ts, s2.pos as int, TokenTag::Do, "'DO'"@);
            let b = stmt_or_recover_s(ts, s3.pos as int);
            lemma_stmt_model_span(body);
            lemma_diags_extend_none(s0.diagnostics@);
            lemma_diags_extend_trans(s0.diagnostics@, s1.diagnostics@, s2.diagnostics@, Seq::empty(), c.diags);
            lemma_diags_extend_trans(s0.diagnostics@, s2.diagnostics@, s3.diagnostics@, Seq::empty() + c.diags, d.diags);
            lemma_diags_extend_trans(s0.diagnostics@, s3.diagnostics@, self.diagnostics@, Seq::empty() + c.diags + d.diags, b.diags);
            assert(Seq::<DiagModel>::empty() + c.diags + d.diags + b.diags =~= c.diags + d.diags + b.diags);
        }
        let span = Span::new(start.start, body.span().end);
        Statement::While { cond, body: Box::new(body), span }
    }

    /// `FOR variable := start (TO | DOWNTO) end DO statement`.
    fn parse_for_statement(&mut self) -> (s: Statement)
        requires
            old(self).wf(),
            old(self).cur() == TokenTag::For,
        ensures
            final(self).moved(*old(self), for_s(old(self).token_list(), old(self).position())),
            stmt_model(s) == for_s(old(self).token_list(), old(self).position()).value,
        decreases old(self).remaining(), 12nat,
    {
        let ghost ts = self.tokens@;
        let ghost s0 = *self;
        let start = self.peek_span();
        self.advance();
        let ghost s1 = *self;
        let var = self.parse_identifier("loop variable");
        let ghost s2 = *self;
        self.expect(TokenTag::Assign, "':='");
        let ghost s3 = *self;
        let start_expr = self.parse_expr();
        let ghost s4 = *self;
        let direction = if self.eat(TokenTag::To) {
            ForDirection::To
        } else if self.eat(TokenTag::DownTo) {
            ForDirection::DownTo
        } else {
            self.error_expected("'TO' or 'DOWNTO'");
            ForDirection::To
        };
        let ghost s5 = *self;
        let end_expr = self.parse_expr();
        let ghost s6 = *self;
        self.expect(TokenTag::Do, "'DO'");
        let ghost s7 = *self;
        let body = self.parse_statement_or_recover();
        proof {
            reveal_with_fuel(for_s, 1);
            reveal_with_fuel(stmt_or_recover_s, 1);
            let v = identifier_s(ts, s1.pos as int, "loop variable"@);
            let a = expect_s(ts, s2.pos as int, TokenTag::Assign, "':='"@);
            let st = expr_s(ts, s3.pos as int);
            let dir = direction_s(ts, s4.pos as int);
            let en = expr_s(ts, s5.pos as int);
            let d = expect_s(ts, s6.pos as int, TokenTag::Do, "'DO'"@);
            let b = stmt_or_recover_s(ts, s7.pos as int);
            lemma_stmt_model_span(body);
            lemma_diags_extend_none(s0.diagnostics@);
            lemma_diags_extend_none(s4.diagnostics@);
            assert(diags_extend(s5.diagnostics@, s4.diagnostics@, dir.diags));
            lemma_diags_extend_trans(s0.diagnostics@, s1.diagnostics@, s2.diagnostics@, Seq::empty(), v.diags);
            lemma_diags_extend_trans(s0.diagnostics@, s2.diagnostics@, s3.diagnostics@, Seq::empty() + v.diags, a.diags);
            lemma_diags_extend_trans(s0.diagnostics@, s3.diagnostics@, s4.diagnostics@, Seq::empty() + v.diags + a.diags, st.diags);
            lemma_diags_extend_trans(
                s0.diagnostics@,
                s4.diagnostics@,
                s5.diagnostics@,
                Seq::empty() + v.diags + a.diags + st.diags,
                dir.diags,
            );
            lemma_diags_extend_trans(
                s0.diagnostics@,
                s5.diagnostics@,
                s6.diagnostics@,
                Seq::empty() + v.diags + a.diags + st.diags + dir.diags,
                en.diags,
            );
            lemma_diags_extend_trans(
                s0.diagnostics@,
                s6.diagnostics@,
                s7.diagnostics@,
                Seq::empty() + v.diags + a.diags + st.diags + dir.diags + en.diags,
                d.diags,
            );
            lemma_diags_extend_trans(
                s0.diagnostics@,
                s7.diagnostics@,
                self.diagnostics@,
                Seq::empty() + v.diags + a.diags + st.diags + dir.diags + en.diags + d.diags,
                b.diags,
            );
            assert(Seq::<DiagModel>::empty() + v.diags + a.diags + st.diags + dir.diags + en.diags + d.diags + b.diags
                =~= v.diags + a.diags + st.diags + dir.diags + en.diags + d.diags + b.diags);
        }
        let span = Span::new(start.start, body.span().end);
        Statement::For { var, start: start_expr, end: end_expr, direction, body: Box::new(body), span }
    }

    /// `CASE selector OF labels: statement; ... [OTHERWISE statement] END`.
    fn parse_case_statement(&mut self) -> (s: Statement)
        requires
            old(self).wf(),
            old(self).cur() == TokenTag::Case,
        ensures
            final(self).moved(*old(self), case_s(old(self).token_list(), old(self).position())),
            stmt_model(s) == case_s(old(self).token_list(), old(self).position()).value,
        decreases old(self).remaining(), 12nat,
    {
        let ghost ts = self.tokens@;
        let ghost s0 = *self;
        let start = self.peek_span();
        self.advance();
        let ghost s1 = *self;
        let selector = self.parse_expr();
        let ghost s2 = *self;
        self.expect(TokenTag::Of, "'OF'");
        let ghost s3 = *self;
        let (branches, otherwise) = self.parse_case_branches();
        let ghost s4 = *self;
        let end_span = self.expect_and_span(TokenTag::End, "'END'");
        proof {
            reveal_with_fuel(case_s, 1);
            reveal_with_fuel(branches_s, 1);
            let sel = expr_s(ts, s1.pos as int);
            let of = expect_s(ts, s2.pos as int, TokenTag::Of, "'OF'"@);
            let br = branches_s(ts, s3.pos as int);
            let close = expect_span_s(ts, s4.pos as int, TokenTag::End, "'END'"@);
            lemma_diags_extend_none(s0.diagnostics@);
            lemma_diags_extend_trans(s0.diagnostics@, s1.diagnostics@, s2.diagnostics@, Seq::empty(), sel.diags);
            lemma_diags_extend_trans(s0.diagnostics@, s2.diagnostics@, s3.diagnostics@, Seq::empty() + sel.diags, of.diags);
            lemma_diags_extend_trans(
                s0.diagnostics@,
                s3.diagnostics@,
                s4.diagnostics@,
                Seq::empty() + sel.diags + of.diags,
                br.diags,
            );
            lemma_diags_extend_trans(
                s0.diagnostics@,
                s4.diagnostics@,
                self.diagnostics@,
                Seq::empty() + sel.diags + of.diags + br.diags,
                close.diags,
            );
            assert(Seq::<DiagModel>::empty() + sel.diags + of.diags + br.diags + close.diags =~= sel.diags + of.diags
                + br.diags + close.diags);
        }
        Statement::Case { selector, branches, otherwise, span: Span::new(start.start, end_span.end) }
    }

    /// The branches of a `CASE` statement, up to (not past) its `END`.
    /// `OTHERWISE` (UCSD) ends them; the `;` before it may be left out.
    fn parse_case_branches(&mut self) -> (r: (Vec<CaseBranch>, Option<Box<Statement>>))
        requires
            old(self).wf(),
        ensures
            final(self).moved(*old(self), branches_s(old(self).token_list(), old(self).position())),
            branches_model(r.0@) == branches_s(old(self).token_list(), old(self).position()).value.0,
            opt_boxed_stmt_model(r.1) == branches_s(old(self).token_list(), old(self).position()).value.1,
        decreases old(self).remaining(), 16nat,
    {
        let ghost ts = self.tokens@;
        let ghost s0 = *self;
        let ghost total = branches_s(ts, s0.pos as int);
        let ghost mut acc: Seq<DiagModel> = Seq::empty();
        let mut branches: Vec<CaseBranch> = Vec::new();
        let mut otherwise: Option<Box<Statement>> = None;
        proof {
            lemma_diags_extend_none(s0.diagnostics@);
            assert(branches_model(branches@) + total.value.0 =~= total.value.0);
            assert(acc + total.diags =~= total.diags);
        }
        loop
            invariant_except_break
                otherwise is None,
                branches_model(branches@) + branches_s(ts, self.pos as int).value.0 == total.value.0,
                branches_s(ts, self.pos as int).value.1 == total.value.1,
                branches_s(ts, self.pos as int).pos == total.pos,
                acc + branches_s(ts, self.pos as int).diags == total.diags,
            invariant
                self.steps(s0),
                s0 == *old(self),
                ts == self.tokens@,
                total == branches_s(ts, s0.pos as int),
                diags_extend(self.diagnostics@, s0.diagnostics@, acc),
            ensures
                self.steps(s0),
                diags_extend(self.diagnostics@, s0.diagnostics@, acc),
                branches_model(branches@) == total.value.0,
                opt_boxed_stmt_model(otherwise) == total.value.1,
                self.pos == total.pos,
                acc == total.diags,
            decreases self.remaining(),
        {
            let ghost sa = *self;
            let ghost pa = sa.pos as int;
            while self.check(TokenTag::Semicolon)
                invariant
                    self.steps(sa),
                    self.diagnostics == sa.diagnostics,
                    ts == self.tokens@,
                    skip_semicolons(ts, self.pos as int) == skip_semicolons(ts, pa),
                decreases self.remaining(),
            {
                self.advance();
            }
            let ghost p1 = self.pos as int;
            assert(p1 == skip_semicolons(ts, pa));
            if self.check(TokenTag::End) || self.is_eof() {
                proof {
                    lemma_branches_done(ts, pa);
                    assert(branches_model(branches@) + Seq::<BranchModel>::empty() =~= branches_model(branches@));
                    assert(acc + Seq::<DiagModel>::empty() =~= acc);
                }
                break;
            }
            if self.check(TokenTag::Otherwise) {
                self.advance();
                let ghost sb = *self;
                let stmt = self.parse_statement_or_recover();
                let ghost sc = *self;
                otherwise = Some(Box::new(stmt));
                if self.check(TokenTag::Semicolon) {
                    self.advance();
                }
                proof {
                    lemma_branches_otherwise(ts, pa);
                    let o = stmt_or_recover_s(ts, sb.pos as int);
                    lemma_diags_extend_none(sa.diagnostics@);
                    lemma_diags_extend_trans(s0.diagnostics@, sb.diagnostics@, sc.diagnostics@, acc, o.diags);
                    lemma_diags_extend_none(sc.diagnostics@);
                    lemma_diags_extend_trans(s0.diagnostics@, sc.diagnostics@, self.diagnostics@, acc + o.diags, Seq::empty());
                    assert(acc + o.diags + Seq::<DiagModel>::empty() =~= acc + o.diags);
                    assert(branches_model(branches@) + Seq::<BranchModel>::empty() =~= branches_model(branches@));
                    acc = acc + o.diags;
                }
                break;
            }
            let branch_start = self.peek_span();
            let ghost sb = *self;
            let labels = self.parse_case_labels();
            let ghost sc = *self;
            self.expect(TokenTag::Colon, "':'");
            let ghost sd = *self;
            let body = self.parse_statement_or_recover();
            let ghost se = *self;
            let ghost ls = labels_s(ts, p1);
            let ghost colon = expect_s(ts, sc.pos as int, TokenTag::Colon, "':'"@);
            let ghost bd = stmt_or_recover_s(ts, sd.pos as int);
            let ghost here = ls.diags + colon.diags + bd.diags;
            proof {
                lemma_branches_more(ts, pa);
                lemma_stmt_model_span(body);
                lemma_diags_extend_trans(s0.diagnostics@, sb.diagnostics@, sc.diagnostics@, acc, ls.diags);
                lemma_diags_extend_trans(s0.diagnostics@, sc.diagnostics@, sd.diagnostics@, acc + ls.diags, colon.diags);
                lemma_diags_extend_trans(
                    s0.diagnostics@,
                    sd.diagnostics@,
                    se.diagnostics@,
                    acc + ls.diags + colon.diags,
                    bd.diags,
                );
                assert(acc + ls.diags + colon.diags + bd.diags =~= acc + here);
            }
            let branch_span = Span::new(branch_start.start, body.span().end);
            let ghost before = branches@;
            branches.push(CaseBranch { labels, body, span: branch_span });
            let ghost branch = BranchModel {
                labels: ls.value,
                body: bd.value,
                span: Span { start: span_at(ts, p1).start, end: bd.value.span().end },
            };
            proof {
                assert(branches@.drop_last() =~= before);
                assert(branches_model(branches@) == branches_model(before).push(branch));
            }
            if self.check(TokenTag::Semicolon) || self.check(TokenTag::Otherwise) {
                proof {
                    let rest = branches_s(ts, se.pos as int);
                    assert(branches_s(ts, pa) == Parsed {
                        value: (seq![branch] + rest.value.0, rest.value.1),
                        pos: rest.pos,
                        diags: here + Seq::<DiagModel>::empty() + rest.diags,
                    });
                    assert(branches_model(before) + (seq![branch] + rest.value.0) =~= branches_model(branches@)
                        + rest.value.0);
                    assert(acc + (here + Seq::<DiagModel>::empty() + rest.diags) =~= (acc + here) + rest.diags);
                    acc = acc + here;
                }
            } else if self.check(TokenTag::End) || self.is_eof() {
                proof {
                    assert(branches_s(ts, pa) == Parsed {
                        value: (seq![branch], None::<StmtModel>),
                        pos: se.pos as int,
                        diags: here,
                    });
                    assert(branches_model(before) + seq![branch] =~= branches_model(branches@));
                    acc = acc + here;
                }
                break;
            } else {
                self.error_expected("';' or 'END'");
                let ghost sf = *self;
                let pos_before_sync = self.pos;
                self.synchronize_to_statement_boundary();
                if self.pos == pos_before_sync {
                    self.advance();
                }
                proof {
                    let err = seq![expected_diag(ts, se.pos as int, "';' or 'END'"@)];
                    let rest = branches_s(ts, self.pos as int);
                    assert(branches_s(ts, pa) == Parsed {
                        value: (seq![branch] + rest.value.0, rest.value.1),
                        pos: rest.pos,
                        diags: here + err + rest.diags,
                    });
                    lemma_diags_extend_trans(s0.diagnostics@, se.diagnostics@, sf.diagnostics@, acc + here, err);
                    lemma_diags_extend_none(sf.diagnostics@);
                    lemma_diags_extend_trans(s0.diagnostics@, sf.diagnostics@, self.diagnostics@, acc + here + err, Seq::empty());
                    assert(acc + here + err + Seq::<DiagModel>::empty() =~= acc + here + err);
                    assert(branches_model(before) + (seq![branch] + rest.value.0) =~= branches_model(branches@)
                        + rest.value.0);
                    assert(acc + (here + err + rest.diags) =~= (acc + here + err) + rest.diags);
                    acc = acc + here + err;
                }
            }
        }
        (branches, otherwise)
    }

    /// The labels `l1, l2, ...` of a `CASE` branch.
    fn parse_case_labels(&mut self) -> (r: Vec<Literal>)
        requires
            old(self).wf(),
        ensures
            final(self).moved(*old(self), labels_s(old(self).token_list(), old(self).position())),
            lits_model(r@) == labels_s(old(self).token_list(), old(self).position()).value,
    {
        let ghost ts = self.tokens@;
        let ghost s0 = *self;
        let ghost total = labels_s(ts, s0.pos as int);
        let mut labels: Vec<Literal> = Vec::new();
        let first = self.parse_const_literal();
        labels.push(first);
        let ghost mut acc: Seq<DiagModel> = const_literal_s(ts, s0.pos as int).diags;
        proof {
            assert(lits_model(labels@) =~= seq![lit_model(first)]);
        }
        while self.check(TokenTag::Comma)
            invariant
                self.steps(s0),
                ts == self.tokens@,
                total == labels_s(ts, s0.pos as int),
                diags_extend(self.diagnostics@, s0.diagnostics@, acc),
                lits_model(labels@) + label_rest_s(ts, self.pos as int).value == total.value,
                label_rest_s(ts, self.pos as int).pos == total.pos,
                acc + label_rest_s(ts, self.pos as int).diags == total.diags,
            decreases self.remaining(),
        {
            let ghost sa = *self;
            self.advance();
            let ghost sb = *self;
            let label = self.parse_const_literal();
            let ghost before = labels@;
            labels.push(label);
            proof {
                let l = const_literal_s(ts, sb.pos as int);
                let rest = label_rest_s(ts, self.pos as int);
                assert(label_rest_s(ts, sa.pos as int) == Parsed {
                    value: seq![l.value] + rest.value,
                    pos: rest.pos,
                    diags: l.diags + rest.diags,
                });
                assert(lits_model(labels@) =~= lits_model(before) + seq![lit_model(label)]);
                assert(lits_model(before) + (seq![l.value] + rest.value) =~= lits_model(labels@) + rest.value);
                lemma_diags_extend_none(sa.diagnostics@);
                lemma_diags_extend_trans(s0.diagnostics@, sb.diagnostics@, self.diagnostics@, acc, l.diags);
                assert(acc + (l.diags + rest.diags) =~= (acc + l.diags) + rest.diags);
                acc = acc + l.diags;
            }
        }
        proof {
            assert(lits_model(labels@) + Seq::<LitModel>::empty() =~= lits_model(labels@));
            assert(acc + Seq::<DiagModel>::empty() =~= acc);
        }
        labels
    }

    /// An assignment `designator := expr` or a procedure call `name(args)`
    /// or `name`. A call's `(` must follow the name directly; a designator
    /// with `[`, `.` or `^` must be followed by `:=`, else `None`.
    fn parse_assignment_or_call(&mut self) -> (r: Option<Statement>)
        requires
            old(self).wf(),
        ensures
            final(self).moved(*old(self), assign_or_call_s(old(self).token_list(), old(self).position())),
            opt_stmt_model(r) == assign_or_call_s(old(self).token_list(), old(self).position()).value,
            old(self).cur() == TokenTag::Identifier ==> final(self).position() > old(self).position(),
    {
        let ghost ts = self.tokens@;
        let ghost s0 = *self;
        let name = self.parse_identifier("identifier");
        let ghost s1 = *self;
        let ghost n = identifier_s(ts, s0.pos as int, "identifier"@);
        proof {
            lemma_diags_extend_none(s1.diagnostics@);
        }
        if self.check(TokenTag::LParen) {
            self.advance();
            let ghost s2 = *self;
            let args = self.parse_call_args();
            let ghost s3 = *self;
            let close = self.expect_and_span(TokenTag::RParen, "')'");
            let end = if close.end > name.span.end {
                close.end
            } else {
                name.span.end
            };
            proof {
                let a = call_args_s(ts, s2.pos as int);
                let c = expect_span_s(ts, s3.pos as int, TokenTag::RParen, "')'"@);
                lemma_diags_extend_trans(s0.diagnostics@, s1.diagnostics@, s2.diagnostics@, n.diags, Seq::empty());
                assert(n.diags + Seq::<DiagModel>::empty() =~= n.diags);
                lemma_diags_extend_trans(s0.diagnostics@, s2.diagnostics@, s3.diagnostics@, n.diags, a.diags);
                lemma_diags_extend_trans(s0.diagnostics@, s3.diagnostics@, self.diagnostics@, n.diags + a.diags, c.diags);
            }
            let span = Span::new(name.span.start, end);
            return Some(Statement::ProcCall { name, args, span });
        }
        let designator = self.parse_postfix_chain(Expr::Identifier(name.clone()));
        let ghost s2 = *self;
        let ghost d = chain_s(ts, ExprModel::Ident(ident_model(name)), s1.pos as int);
        proof {
            lemma_model_span(designator);
            lemma_diags_extend_trans(s0.diagnostics@, s1.diagnostics@, s2.diagnostics@, n.diags, d.diags);
        }
        if self.check(TokenTag::Assign) {
            self.advance();
            let ghost s3 = *self;
            let value = self.parse_expr();
            proof {
                let v = expr_s(ts, s3.pos as int);
                lemma_model_span(value);
                lemma_diags_extend_none(s2.diagnostics@);
                lemma_diags_extend_trans(s0.diagnostics@, s2.diagnostics@, s3.diagnostics@, n.diags + d.diags, Seq::empty());
                assert(n.diags + d.diags + Seq::<DiagModel>::empty() =~= n.diags + d.diags);
                lemma_diags_extend_trans(s0.diagnostics@, s3.diagnostics@, self.diagnostics@, n.diags + d.diags, v.diags);
            }
            let span = Span::new(designator.span().start, value.span().end);
            Some(Statement::Assignment { target: designator, value, span })
        } else if matches!(designator, Expr::Identifier(_)) {
            let span = name.span;
            Some(Statement::ProcCall { name, args: Vec::new(), span })
        } else {
            self.error_expected("':=' after array/record/pointer designator");
            proof {
                lemma_diags_extend_trans(
                    s0.diagnostics@,
                    s2.diagnostics@,
                    self.diagnostics@,
                    n.diags + d.diags,
                    seq![expected_diag(ts, s2.pos as int, "':=' after array/record/pointer designator"@)],
                );
            }
            None
        }
    }
}

} // verus!
