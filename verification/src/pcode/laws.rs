//! What the generated code means when the p-machine runs it.

use vstd::prelude::*;

use crate::ast::{BinOp, Expr, Span, UnOp};
use crate::pcode::gen_spec::{binop_code, expr_code, ldc, Env, SInstr};
use crate::pcode::opcode::{Opcode, UnconfirmedOp};
use crate::pmachine::laws::{lemma_div_and_mod_agree, lemma_negations};
use crate::pmachine::machine::{bool_word, execute_spec, push_spec, unconfirmed_spec, Image, MachineState, StepOutcome};
use crate::pmachine::word::{abs, wrap16};

verus! {

/// Runs straight-line code (no calls) on the machine from `s`, stopping at
/// the first error.
pub open spec fn run_straight(img: Image, s: MachineState, code: Seq<SInstr>) -> StepOutcome
    decreases code.len(),
{
    if code.len() == 0 {
        StepOutcome { state: s, error: None }
    } else {
        let o = run_straight(img, s, code.drop_last());
        if o.error is Some {
            o
        } else {
            match code.last() {
                SInstr::Op(op, _) => execute_spec(img, o.state, op),
                SInstr::Call(..) => o,
            }
        }
    }
}

/// Pascal's truth values as words.
pub open spec fn truth(b: bool) -> i16 {
    if b {
        1
    } else {
        0
    }
}

/// Whether `q` and `r` are the quotient and remainder of `a` divided by `b`
/// rounding toward zero: `a == b * q + r`, `|r| < |b|`, and `r` is zero or
/// of the sign of `a`.
pub open spec fn divides_as(a: int, b: int, q: int, r: int) -> bool {
    &&& a == b * q + r
    &&& abs(r) < abs(b)
    &&& (r == 0 || (r < 0) == (a < 0))
}

/// Whether `v` is the value of `a op b` for word operands, as Pascal
/// defines the operator: arithmetic wraps to a word; `DIV` and `MOD` are
/// the quotient and remainder of division rounding toward zero (the one
/// quotient no word holds, `-32768 DIV -1`, left open); comparisons and,
/// for truth values, `AND` and `OR` give a truth value.
pub open spec fn binop_means(op: BinOp, a: i16, b: i16, v: i16) -> bool {
    match op {
        BinOp::Add => v == wrap16(a + b),
        BinOp::Sub => v == wrap16(a - b),
        BinOp::Mul => v == wrap16(a * b),
        BinOp::IntDiv => !(a == -32768 && b == -1) ==> exists|r: int| #[trigger] divides_as(a as int, b as int, v as int, r),
        BinOp::Mod => !(a == -32768 && b == -1) ==> exists|q: int| #[trigger] divides_as(a as int, b as int, q, v as int),
        BinOp::Eq => v == truth(a == b),
        BinOp::NotEq => v == truth(a != b),
        BinOp::Lt => v == truth(a < b),
        BinOp::Gt => v == truth(a > b),
        BinOp::LtEq => v == truth(a <= b),
        BinOp::GtEq => v == truth(a >= b),
        BinOp::And => (0 <= a <= 1 && 0 <= b <= 1) ==> v == truth(a == 1 && b == 1),
        BinOp::Or => (0 <= a <= 1 && 0 <= b <= 1) ==> v == truth(a == 1 || b == 1),
        BinOp::Div => false,
    }
}

/// Straight-line code of one instruction runs that instruction.
proof fn lemma_run_one(img: Image, s: MachineState, i: SInstr)
    requires
        i is Op,
    ensures
        run_straight(img, s, seq![i]) == execute_spec(img, s, i->Op_0),
{
    reveal_with_fuel(run_straight, 2);
    assert(seq![i].drop_last() =~= Seq::<SInstr>::empty());
}

/// Straight-line code of two instructions runs the first, then, if that
/// succeeded, the second.
proof fn lemma_run_two(img: Image, s: MachineState, i: SInstr, j: SInstr)
    requires
        i is Op,
        j is Op,
    ensures
        run_straight(img, s, seq![i, j]) == (if execute_spec(img, s, i->Op_0).error is Some {
            execute_spec(img, s, i->Op_0)
        } else {
            execute_spec(img, execute_spec(img, s, i->Op_0).state, j->Op_0)
        }),
{
    reveal_with_fuel(run_straight, 3);
    assert(seq![i, j].drop_last() =~= seq![i]);
    lemma_run_one(img, s, i);
}

/// The operators whose code is one instruction that neither divides nor
/// negates.
proof fn lemma_simple_binop(img: Image, s: MachineState, op: BinOp, a: i16, b: i16, sp: Span)
    requires
        op != BinOp::Div && op != BinOp::IntDiv && op != BinOp::Mod && op != BinOp::Lt && op != BinOp::Gt,
        s.stack.len() >= s.floor,
    ensures
        run_straight(img, push_spec(push_spec(s, a), b), binop_code(op, sp)).error is None,
        run_straight(img, push_spec(push_spec(s, a), b), binop_code(op, sp)).state
            == push_spec(s, run_straight(img, push_spec(push_spec(s, a), b), binop_code(op, sp)).state.stack.last()),
        binop_means(op, a, b, run_straight(img, push_spec(push_spec(s, a), b), binop_code(op, sp)).state.stack.last()),
{
    let s1 = push_spec(s, a);
    let s2 = push_spec(s1, b);
    assert(s2.stack.drop_last() =~= s1.stack);
    assert(s2.stack.drop_last().drop_last() =~= s.stack);
    let code = binop_code(op, sp);
    lemma_run_one(img, s2, code[0]);
    assert(code =~= seq![code[0]]);
    let o = run_straight(img, s2, code);
    assert(o.state.stack =~= s.stack.push(o.state.stack.last()));
}

/// `<` and `>`: a comparison, then `NOT`.
proof fn lemma_negated_binop(img: Image, s: MachineState, op: BinOp, a: i16, b: i16, sp: Span)
    requires
        op == BinOp::Lt || op == BinOp::Gt,
        s.stack.len() >= s.floor,
    ensures
        run_straight(img, push_spec(push_spec(s, a), b), binop_code(op, sp)).error is None,
        run_straight(img, push_spec(push_spec(s, a), b), binop_code(op, sp)).state
            == push_spec(s, run_straight(img, push_spec(push_spec(s, a), b), binop_code(op, sp)).state.stack.last()),
        binop_means(op, a, b, run_straight(img, push_spec(push_spec(s, a), b), binop_code(op, sp)).state.stack.last()),
{
    let s1 = push_spec(s, a);
    let s2 = push_spec(s1, b);
    assert(s2.stack.drop_last() =~= s1.stack);
    assert(s2.stack.drop_last().drop_last() =~= s.stack);
    let code = binop_code(op, sp);
    let first = if op == BinOp::Lt { UnconfirmedOp::Geq } else { UnconfirmedOp::Leq };
    assert(code =~= seq![SInstr::Op(Opcode::Unconfirmed(first), sp), SInstr::Op(Opcode::Unconfirmed(UnconfirmedOp::Not), sp)]);
    lemma_run_two(img, s2, code[0], code[1]);
    let w = bool_word(if op == BinOp::Lt { a >= b } else { a <= b });
    let m = unconfirmed_spec(img, s2, first);
    assert(m.error is None && m.state == push_spec(s, w));
    let m1 = push_spec(s, w);
    assert(m1.stack.drop_last() =~= s.stack);
    let o = unconfirmed_spec(img, m1, UnconfirmedOp::Not);
    assert(o.error is None && o.state == push_spec(s, bool_word(w == 0)));
    assert(push_spec(s, bool_word(w == 0)).stack.last() == bool_word(w == 0));
}

/// `DIV` and `MOD`.
proof fn lemma_division_binop(img: Image, s: MachineState, op: BinOp, a: i16, b: i16, sp: Span)
    requires
        op == BinOp::IntDiv || op == BinOp::Mod,
        b != 0,
        s.stack.len() >= s.floor,
    ensures
        run_straight(img, push_spec(push_spec(s, a), b), binop_code(op, sp)).error is None,
        run_straight(img, push_spec(push_spec(s, a), b), binop_code(op, sp)).state
            == push_spec(s, run_straight(img, push_spec(push_spec(s, a), b), binop_code(op, sp)).state.stack.last()),
        binop_means(op, a, b, run_straight(img, push_spec(push_spec(s, a), b), binop_code(op, sp)).state.stack.last()),
{
    let s2 = push_spec(push_spec(s, a), b);
    let code = binop_code(op, sp);
    lemma_run_one(img, s2, code[0]);
    assert(code =~= seq![code[0]]);
    lemma_div_and_mod_agree(img, s, a, b);
    let qo = unconfirmed_spec(img, s2, UnconfirmedOp::Dvi);
    let ro = unconfirmed_spec(img, s2, UnconfirmedOp::Mod);
    let q = qo.state.stack.last() as int;
    let r = ro.state.stack.last() as int;
    assert(qo.state.stack.last() == (q as i16));
    if !(a == -32768 && b == -1) {
        assert(divides_as(a as int, b as int, q, r));
    }
}

/// The code generated for a binary operator computes that operator: run
/// with its operands `a` and `b` on top of the stack (above the global
/// data area), it replaces them by the value of `a op b` and changes
/// nothing else. A zero divisor for `DIV` and `MOD` is left out, as is real
/// division, for which no code is generated.
pub proof fn lemma_binop_code_computes_the_operator(img: Image, s: MachineState, op: BinOp, a: i16, b: i16, sp: Span)
    requires
        op != BinOp::Div,
        s.stack.len() >= s.floor,
        (op == BinOp::IntDiv || op == BinOp::Mod) ==> b != 0,
    ensures
        run_straight(img, push_spec(push_spec(s, a), b), binop_code(op, sp)).error is None,
        exists|v: i16| #[trigger] push_spec(s, v) == run_straight(img, push_spec(push_spec(s, a), b), binop_code(op, sp)).state
            && binop_means(op, a, b, v),
{
    let v = run_straight(img, push_spec(push_spec(s, a), b), binop_code(op, sp)).state.stack.last();
    if op == BinOp::IntDiv || op == BinOp::Mod {
        lemma_division_binop(img, s, op, a, b, sp);
    } else if op == BinOp::Lt || op == BinOp::Gt {
        lemma_negated_binop(img, s, op, a, b, sp);
    } else {
        lemma_simple_binop(img, s, op, a, b, sp);
    }
    assert(push_spec(s, v) == run_straight(img, push_spec(push_spec(s, a), b), binop_code(op, sp)).state);
}


/// Running two pieces of straight-line code one after the other is running
/// the first, then, unless it failed, the second from where it ended.
pub proof fn lemma_run_straight_concat(img: Image, s: MachineState, c1: Seq<SInstr>, c2: Seq<SInstr>)
    ensures
        run_straight(img, s, c1 + c2) == (if run_straight(img, s, c1).error is Some {
            run_straight(img, s, c1)
        } else {
            run_straight(img, run_straight(img, s, c1).state, c2)
        }),
    decreases c2.len(),
{
    if c2.len() == 0 {
        assert(c1 + c2 =~= c1);
    } else {
        lemma_run_straight_concat(img, s, c1, c2.drop_last());
        assert((c1 + c2).drop_last() =~= c1 + c2.drop_last());
        assert((c1 + c2).last() == c2.last());
    }
}

/// A constant pushes itself.
proof fn lemma_run_ldc(img: Image, s: MachineState, v: i16, sp: Span)
    ensures
        run_straight(img, s, seq![ldc(v as int, sp)]) == (StepOutcome { state: push_spec(s, v), error: None }),
{
    lemma_run_one(img, s, ldc(v as int, sp));
}

/// The code of `a op b`, for integer constants `a` and `b`, computes the
/// operator on them: the left operand is pushed first, then the right
/// one, and they are replaced by the value of `a op b`.
pub proof fn lemma_constant_binary_expression(
    img: Image,
    s: MachineState,
    env: Env,
    op: BinOp,
    a: i16,
    b: i16,
    sa: Span,
    sb: Span,
    sp: Span,
)
    requires
        op != BinOp::Div,
        s.stack.len() >= s.floor,
        (op == BinOp::IntDiv || op == BinOp::Mod) ==> b != 0,
    ensures
        ({
            let e = Expr::BinaryOp {
                op,
                lhs: Box::new(Expr::IntLiteral(a as i64, sa)),
                rhs: Box::new(Expr::IntLiteral(b as i64, sb)),
                span: sp,
            };
            &&& run_straight(img, s, expr_code(env, e)).error is None
            &&& exists|v: i16| #[trigger] push_spec(s, v) == run_straight(img, s, expr_code(env, e)).state
                && binop_means(op, a, b, v)
        }),
{
    let e = Expr::BinaryOp {
        op,
        lhs: Box::new(Expr::IntLiteral(a as i64, sa)),
        rhs: Box::new(Expr::IntLiteral(b as i64, sb)),
        span: sp,
    };
    let la = seq![ldc(a as int, sa)];
    let lb = seq![ldc(b as int, sb)];
    reveal_with_fuel(expr_code, 2);
    assert(expr_code(env, *e->lhs) == la);
    assert(expr_code(env, *e->rhs) == lb);
    assert(expr_code(env, e) == la + lb + binop_code(op, sp));
    lemma_run_ldc(img, s, a, sa);
    let s1 = push_spec(s, a);
    lemma_run_ldc(img, s1, b, sb);
    lemma_run_straight_concat(img, s, la, lb);
    lemma_run_straight_concat(img, s, la + lb, binop_code(op, sp));
    lemma_binop_code_computes_the_operator(img, s, op, a, b, sp);
}

/// The code of `-a` for an integer constant `a` pushes the additive
/// inverse of `a` in word arithmetic.
pub proof fn lemma_constant_negation(img: Image, s: MachineState, env: Env, a: i16, sa: Span, sp: Span)
    requires
        s.stack.len() >= s.floor,
    ensures
        ({
            let neg = Expr::UnaryOp { op: UnOp::Neg, operand: Box::new(Expr::IntLiteral(a as i64, sa)), span: sp };
            let o = run_straight(img, s, expr_code(env, neg));
            &&& o.error is None
            &&& o.state == push_spec(s, o.state.stack.last())
            &&& wrap16(a + o.state.stack.last()) == 0
        }),
{
    let neg = Expr::UnaryOp { op: UnOp::Neg, operand: Box::new(Expr::IntLiteral(a as i64, sa)), span: sp };
    let nc = seq![SInstr::Op(Opcode::Unconfirmed(UnconfirmedOp::Ngi), sp)];
    reveal_with_fuel(expr_code, 2);
    assert(expr_code(env, *neg->operand) == seq![ldc(a as int, sa)]);
    assert(expr_code(env, neg) == seq![ldc(a as int, sa)] + nc);
    lemma_run_ldc(img, s, a, sa);
    lemma_run_straight_concat(img, s, seq![ldc(a as int, sa)], nc);
    lemma_run_one(img, push_spec(s, a), nc[0]);
    lemma_negations(img, s, a);
}

/// The code of `NOT x` for a truth constant `x` pushes the other truth
/// value.
pub proof fn lemma_constant_not(img: Image, s: MachineState, env: Env, x: bool, sa: Span, sp: Span)
    requires
        s.stack.len() >= s.floor,
    ensures
        ({
            let not = Expr::UnaryOp { op: UnOp::Not, operand: Box::new(Expr::BoolLiteral(x, sa)), span: sp };
            let o = run_straight(img, s, expr_code(env, not));
            &&& o.error is None
            &&& o.state == push_spec(s, truth(!x))
        }),
{
    let w: i16 = if x { 1 } else { 0 };
    let not = Expr::UnaryOp { op: UnOp::Not, operand: Box::new(Expr::BoolLiteral(x, sa)), span: sp };
    let tc = seq![SInstr::Op(Opcode::Unconfirmed(UnconfirmedOp::Not), sp)];
    reveal_with_fuel(expr_code, 2);
    assert(expr_code(env, *not->operand) == seq![ldc(w as int, sa)]);
    assert(expr_code(env, not) == seq![ldc(w as int, sa)] + tc);
    lemma_run_ldc(img, s, w, sa);
    lemma_run_straight_concat(img, s, seq![ldc(w as int, sa)], tc);
    lemma_run_one(img, push_spec(s, w), tc[0]);
    lemma_negations(img, s, w);
}

} // verus!
