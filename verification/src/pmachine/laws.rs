//! Laws of the p-machine semantics.

use vstd::prelude::*;

use crate::pcode::CodeAddress;
use crate::pcode::opcode::{Address, Level, UnconfirmedOp};
use crate::pmachine::machine::{call_spec, lookup_routine, push_spec, rpu_spec, slot_index_spec, step_spec, unconfirmed_spec, Image, MachineState};
use crate::pmachine::word::{abs, lemma_trunc_div_rem, lemma_wrap16_small, trunc_div, trunc_rem, wrap16};

verus! {

/// A halted machine stays as it is: a step changes nothing and reports no
/// error.
pub proof fn lemma_halted_step_is_noop(img: Image, s: MachineState)
    requires
        s.halted,
    ensures
        step_spec(img, s).state == s,
        step_spec(img, s).error is None,
{
    reveal(step_spec);
}

/// A call followed by a balanced body and `RPU b`, with `b` the callee's
/// local words plus its parameter words, returns the stack to its height
/// before the arguments were pushed, plus one result word for a function;
/// the caller's frame, current frame and resume point come back, the words
/// below the arguments are those the body left there, and a function's
/// result is the word the body left on top.
pub proof fn lemma_call_then_return_restores_the_caller(
    img: Image,
    s: MachineState,
    target: CodeAddress,
    static_link: Option<usize>,
    body_end: MachineState,
)
    requires
        s.stack.len() <= usize::MAX,
        body_end.stack.len() <= usize::MAX,
        0 <= s.ipc <= usize::MAX,
        lookup_routine(img.routines, target.0) is Some,
        s.stack.len() >= s.floor + lookup_routine(img.routines, target.0)->0.param_count,
        lookup_routine(img.routines, target.0)->0.data_size
            + lookup_routine(img.routines, target.0)->0.param_count <= u16::MAX,
        call_spec(img, s, target, static_link).error is None,
        body_end.frames == call_spec(img, s, target, static_link).state.frames,
        body_end.mp == call_spec(img, s, target, static_link).state.mp,
        body_end.stack.len() == call_spec(img, s, target, static_link).state.stack.len(),
    ensures
        ({
            let meta = lookup_routine(img.routines, target.0)->0;
            let base = s.stack.len() - meta.param_count;
            let o = rpu_spec(body_end, (meta.data_size + meta.param_count) as u16);
            &&& o.error is None
            &&& o.state.stack.len() == base + (if meta.is_func { 1int } else { 0 })
            &&& o.state.stack.subrange(0, base) == body_end.stack.subrange(0, base)
            &&& meta.is_func ==> o.state.stack.last() == body_end.stack.last()
            &&& o.state.frames == s.frames
            &&& o.state.mp == s.mp
            &&& o.state.ipc == s.ipc
        }),
{
    let meta = lookup_routine(img.routines, target.0)->0;
    let base = s.stack.len() - meta.param_count;
    let s1 = call_spec(img, s, target, static_link).state;
    assert(s1.frames.last().base == base);
    assert(s1.frames.drop_last() =~= s.frames);
    assert(s1.stack.len() == base + meta.data_size + meta.param_count + (if meta.is_func { 1int } else { 0 }));
    assert(body_end.frames.last() == s1.frames.last());
    let b = (meta.data_size + meta.param_count) as u16;
    assert(b == meta.data_size + meta.param_count);
    let o = rpu_spec(body_end, b);
    assert(o.error is None);
    assert(o.state.stack =~= body_end.stack.subrange(0, base) + body_end.stack.subrange(
        base + meta.data_size + meta.param_count,
        body_end.stack.len() as int,
    ));
}


/// Reaching a word through its address is the same as naming it: where
/// `LOD l,a` reads word `k` (`k` an address a word can hold), `LDA l,a`
/// then `IND` does exactly what `LOD l,a` does, and `LDA l,a`, `LDC v`,
/// `STI` does exactly what `LDC v`, `STR l,a` does (the stack holding at
/// least the global data area, as it always does).
pub proof fn lemma_indirect_access_is_direct_access(img: Image, s: MachineState, l: Level, a: Address, v: i16)
    requires
        slot_index_spec(s, l, a) matches Ok(k) && 0 <= k < s.stack.len() && k <= 32767,
        s.stack.len() >= s.floor,
    ensures
        unconfirmed_spec(img, s, UnconfirmedOp::Lda(l, a)).error is None,
        unconfirmed_spec(img, unconfirmed_spec(img, s, UnconfirmedOp::Lda(l, a)).state, UnconfirmedOp::Ind)
            == unconfirmed_spec(img, s, UnconfirmedOp::Lod(l, a)),
        unconfirmed_spec(img, unconfirmed_spec(img, s, UnconfirmedOp::Lda(l, a)).state, UnconfirmedOp::Ldc(v)).error is None,
        unconfirmed_spec(
            img,
            unconfirmed_spec(img, unconfirmed_spec(img, s, UnconfirmedOp::Lda(l, a)).state, UnconfirmedOp::Ldc(v)).state,
            UnconfirmedOp::Sti,
        ) == unconfirmed_spec(img, unconfirmed_spec(img, s, UnconfirmedOp::Ldc(v)).state, UnconfirmedOp::Str(l, a)),
{
    let k = slot_index_spec(s, l, a)->Ok_0;
    let s1 = unconfirmed_spec(img, s, UnconfirmedOp::Lda(l, a)).state;
    assert(s1.stack == s.stack.push(k as i16));
    assert(s1.stack.drop_last() =~= s.stack);
    let s2 = unconfirmed_spec(img, s1, UnconfirmedOp::Ldc(v)).state;
    assert(s2.stack.drop_last().drop_last() =~= s.stack);
    let t = unconfirmed_spec(img, s, UnconfirmedOp::Ldc(v)).state;
    assert(t.stack.drop_last() =~= s.stack);
    assert(s2.stack.drop_last() =~= s1.stack);
    assert(s2.stack.last() == v);
    assert(s1.stack.last() == k as i16);
}


/// `DVI` and `MOD` on the same operands `a`, `b` (`b != 0`, both above the
/// global data area) push a quotient `q` and a remainder `r` with
/// `a == b * q + r`, `|r| < |b|` and `r` zero or of the sign of `a`: integer
/// division rounding toward zero. The one quotient a word cannot hold,
/// `-32768 DIV -1`, wraps to `-32768`, with remainder 0.
pub proof fn lemma_div_and_mod_agree(img: Image, s: MachineState, a: i16, b: i16)
    requires
        b != 0,
        s.stack.len() >= s.floor,
    ensures
        ({
            let s2 = push_spec(push_spec(s, a), b);
            let qo = unconfirmed_spec(img, s2, UnconfirmedOp::Dvi);
            let ro = unconfirmed_spec(img, s2, UnconfirmedOp::Mod);
            let q = qo.state.stack.last() as int;
            let r = ro.state.stack.last() as int;
            &&& qo.error is None
            &&& ro.error is None
            &&& qo.state == push_spec(s, q as i16)
            &&& ro.state == push_spec(s, r as i16)
            &&& !(a == -32768 && b == -1) ==> {
                &&& a == b * q + r
                &&& abs(r) < abs(b as int)
                &&& (r == 0 || (r < 0) == (a < 0))
            }
            &&& (a == -32768 && b == -1) ==> q == -32768 && r == 0
        }),
{
    let s1 = push_spec(s, a);
    let s2 = push_spec(s1, b);
    assert(s2.stack.drop_last() =~= s1.stack);
    assert(s2.stack.drop_last().drop_last() =~= s.stack);
    lemma_trunc_div_rem(a as int, b as int);
    let tq = trunc_div(a as int, b as int);
    let tr = trunc_rem(a as int, b as int);
    lemma_wrap16_small(tr);
    if !(a == -32768 && b == -1) {
        assert(-32768 <= tq <= 32767) by {
            if tq == 32768 {
                assert(abs(a as int) >= 32768);
                assert(a == -32768);
                assert(b * 32768 + tr == -32768) by (nonlinear_arith)
                    requires
                        a == b * tq + tr,
                        tq == 32768,
                        a == -32768,
                ;
                assert(b == -1) by (nonlinear_arith)
                    requires
                        b * 32768 + tr == -32768,
                        abs(tr) < abs(b as int),
                        -32768 <= b <= 32767,
                        b != 0,
                ;
            }
        }
        lemma_wrap16_small(tq);
    } else {
        assert(abs(a as int) == 32768 && abs(b as int) == 1);
        assert(32768int / 1int == 32768) by (nonlinear_arith);
        assert(tq == 32768);
        assert(wrap16(32768) == -32768);
    }
}


/// `NGI` pushes the additive inverse of its operand in word arithmetic
/// (the two add up to 0, wrapping), and `NOT` turns a truth value (0 or 1)
/// into the other one.
pub proof fn lemma_negations(img: Image, s: MachineState, a: i16)
    requires
        s.stack.len() >= s.floor,
    ensures
        unconfirmed_spec(img, push_spec(s, a), UnconfirmedOp::Ngi).error is None,
        unconfirmed_spec(img, push_spec(s, a), UnconfirmedOp::Ngi).state == push_spec(
            s,
            unconfirmed_spec(img, push_spec(s, a), UnconfirmedOp::Ngi).state.stack.last(),
        ),
        wrap16(a + unconfirmed_spec(img, push_spec(s, a), UnconfirmedOp::Ngi).state.stack.last()) == 0,
        unconfirmed_spec(img, push_spec(s, a), UnconfirmedOp::Not).error is None,
        (a == 0 || a == 1) ==> unconfirmed_spec(img, push_spec(s, a), UnconfirmedOp::Not).state == push_spec(s, (1 - a) as i16),
{
    let s1 = push_spec(s, a);
    assert(s1.stack.drop_last() =~= s.stack);
    let v = unconfirmed_spec(img, s1, UnconfirmedOp::Ngi).state.stack.last();
    assert(v == wrap16(-a) as i16);
    if a == -32768 {
        assert(wrap16(32768) == -32768);
        assert(v == -32768);
        assert(wrap16(-65536) == 0);
    } else {
        lemma_wrap16_small(-a);
        lemma_wrap16_small(0);
    }
}

} // verus!
