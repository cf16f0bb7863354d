//! Arithmetic on 16-bit p-machine words, wrapping on overflow.

use vstd::prelude::*;

verus! {

/// `x` reduced into the range of `i16` modulo 2^16 (two's complement
/// wrap-around).
pub open spec fn wrap16(x: int) -> int {
    ((x + 32768) % 65536) - 32768
}

/// Truncating division (rounding toward zero), as Rust's `/` on integers.
pub open spec fn trunc_div(a: int, b: int) -> int {
    let q = abs(a) / abs(b);
    if (a < 0) != (b < 0) {
        -q
    } else {
        q
    }
}

/// The remainder of truncating division: it has the sign of `a`, and its
/// magnitude is `|a| mod |b|`.
pub open spec fn trunc_rem(a: int, b: int) -> int {
    let r = abs(a) % abs(b);
    if a < 0 {
        -r
    } else {
        r
    }
}

pub open spec fn abs(x: int) -> int {
    if x < 0 {
        -x
    } else {
        x
    }
}

/// Wraps a value in `[-2^31, 2^31)` into a word.
fn wrap_i32(x: i32) -> (r: i16)
    ensures
        r as int == wrap16(x as int),
{
    let t: u64 = (x as i64 + 32768i64 + 2147483648i64) as u64;
    let m: u64 = t % 65536;
    proof {
        assert(((x as int + 32768 + 2147483648) % 65536) == ((x as int + 32768) % 65536)) by (nonlinear_arith);
    }
    (m as i64 - 32768) as i16
}

/// `a + b` wrapped.
pub fn add16(a: i16, b: i16) -> (r: i16)
    ensures
        r as int == wrap16(a + b),
{
    wrap_i32(a as i32 + b as i32)
}

/// `a - b` wrapped.
pub fn sub16(a: i16, b: i16) -> (r: i16)
    ensures
        r as int == wrap16(a - b),
{
    wrap_i32(a as i32 - b as i32)
}

/// `a * b` wrapped.
pub fn mul16(a: i16, b: i16) -> (r: i16)
    ensures
        r as int == wrap16(a * b),
{
    proof {
        assert(-1073741824 <= a * b <= 1073741824) by (nonlinear_arith)
            requires
                -32768 <= a <= 32767,
                -32768 <= b <= 32767,
        ;
    }
    wrap_i32(a as i32 * b as i32)
}

/// `-a` wrapped (`-(-32768)` is `-32768`).
pub fn neg16(a: i16) -> (r: i16)
    ensures
        r as int == wrap16(-a),
{
    wrap_i32(-(a as i32))
}

/// Truncating division, wrapped (`-32768 / -1` is `-32768`).
pub fn div16(a: i16, b: i16) -> (r: i16)
    requires
        b != 0,
    ensures
        r as int == wrap16(trunc_div(a as int, b as int)),
{
    let ua: u32 = if a < 0 { (-(a as i32)) as u32 } else { a as u32 };
    let ub: u32 = if b < 0 { (-(b as i32)) as u32 } else { b as u32 };
    let q: u32 = ua / ub;
    proof {
        assert(q <= ua) by (nonlinear_arith)
            requires
                ub >= 1,
                q == ua / ub,
        ;
    }
    let signed: i32 = if (a < 0) != (b < 0) { -(q as i32) } else { q as i32 };
    wrap_i32(signed)
}

/// Truncating remainder, wrapped.
pub fn rem16(a: i16, b: i16) -> (r: i16)
    requires
        b != 0,
    ensures
        r as int == wrap16(trunc_rem(a as int, b as int)),
{
    let ua: u32 = if a < 0 { (-(a as i32)) as u32 } else { a as u32 };
    let ub: u32 = if b < 0 { (-(b as i32)) as u32 } else { b as u32 };
    let m: u32 = ua % ub;
    let signed: i32 = if a < 0 { -(m as i32) } else { m as i32 };
    wrap_i32(signed)
}


/// Truncating division and its remainder fit together: for `b != 0`,
/// `a == b * q + r` with `|r| < |b|` and `r` zero or of the sign of `a`;
/// and the quotient is no larger in magnitude than `a`.
pub proof fn lemma_trunc_div_rem(a: int, b: int)
    requires
        b != 0,
    ensures
        a == b * trunc_div(a, b) + trunc_rem(a, b),
        abs(trunc_rem(a, b)) < abs(b),
        trunc_rem(a, b) == 0 || (trunc_rem(a, b) < 0) == (a < 0),
        abs(trunc_div(a, b)) <= abs(a),
{
    let x = abs(a);
    let y = abs(b);
    let q = x / y;
    let r = x % y;
    vstd::arithmetic::div_mod::lemma_fundamental_div_mod(x, y);
    assert(0 <= r < y) by (nonlinear_arith)
        requires
            y > 0,
            r == x % y,
    ;
    assert(0 <= q <= x) by (nonlinear_arith)
        requires
            y >= 1,
            x >= 0,
            q == x / y,
    ;
    assert(x == y * q + r);
    if a < 0 {
        if b < 0 {
            assert(a == b * q + (-r)) by (nonlinear_arith)
                requires
                    x == y * q + r,
                    x == -a,
                    y == -b,
            ;
        } else {
            assert(a == b * (-q) + (-r)) by (nonlinear_arith)
                requires
                    x == y * q + r,
                    x == -a,
                    y == b,
            ;
        }
    } else {
        if b < 0 {
            assert(a == b * (-q) + r) by (nonlinear_arith)
                requires
                    x == y * q + r,
                    x == a,
                    y == -b,
            ;
        } else {
            assert(a == b * q + r) by (nonlinear_arith)
                requires
                    x == y * q + r,
                    x == a,
                    y == b,
            ;
        }
    }
}

/// A value in the range of `i16` wraps to itself.
pub proof fn lemma_wrap16_small(x: int)
    requires
        -32768 <= x <= 32767,
    ensures
        wrap16(x) == x,
{
    vstd::arithmetic::div_mod::lemma_small_mod((x + 32768) as nat, 65536);
}

} // verus!
