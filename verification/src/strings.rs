//! Building strings: pushing characters and decimal numbers.

use vstd::prelude::*;

verus! {

/// `String::push`: appends one character.
#[verifier::external_body]
pub(crate) fn string_push(s: &mut String, c: char)
    ensures
        final(s)@ == old(s)@.push(c),
{
    s.push(c);
}

/// Appends the characters of `t`.
pub fn push_str(s: &mut String, t: &str)
    ensures
        final(s)@ == old(s)@ + t@,
{
    let ghost start = s@;
    for c in it: t.chars()
        invariant
            it.seq() == t@,
            s@ == start + it.seq().take(it.index() as int),
    {
        proof {
            assert(it.seq().take(it.index() + 1) == it.seq().take(it.index() as int).push(c));
        }
        string_push(s, c);
    }
}

/// The characters of `t`.
pub fn chars_of(t: &str) -> (r: Vec<char>)
    ensures
        r@ == t@,
{
    let mut r: Vec<char> = Vec::new();
    for c in it: t.chars()
        invariant
            it.seq() == t@,
            r@ == it.seq().take(it.index() as int),
    {
        proof {
            assert(it.seq().take(it.index() + 1) == it.seq().take(it.index() as int).push(c));
        }
        r.push(c);
    }
    r
}

/// The decimal digit character of `d` (`0 <= d < 10`).
pub open spec fn digit_char(d: nat) -> char {
    ((48 + d) as u8) as char
}

/// The decimal digits of `n`, most significant first, without leading
/// zeros (`"0"` for zero).
pub open spec fn nat_digits(n: nat) -> Seq<char>
    decreases n,
{
    if n < 10 {
        seq![digit_char(n)]
    } else {
        nat_digits(n / 10).push(digit_char(n % 10))
    }
}

/// The decimal text of an integer: a `-` sign for negative values, then
/// its digits.
pub open spec fn decimal(v: int) -> Seq<char> {
    if v < 0 {
        seq!['-'] + nat_digits((-v) as nat)
    } else {
        nat_digits(v as nat)
    }
}

/// Appends the decimal digits of `n`.
pub fn push_digits(s: &mut String, n: u64)
    ensures
        final(s)@ == old(s)@ + nat_digits(n as nat),
    decreases n,
{
    if n >= 10 {
        push_digits(s, n / 10);
    }
    let d: u8 = (n % 10) as u8;
    string_push(s, (48u8 + d) as char);
    proof {
        if n >= 10 {
            assert(nat_digits(n as nat) == nat_digits((n / 10) as nat).push(digit_char((n % 10) as nat)));
        }
    }
}

/// Appends the decimal text of `v`.
pub fn push_decimal(s: &mut String, v: i64)
    ensures
        final(s)@ == old(s)@ + decimal(v as int),
{
    if v < 0 {
        string_push(s, '-');
        let mag: u64 = if v == i64::MIN { 9223372036854775808u64 } else { (-v) as u64 };
        let ghost mid = s@;
        push_digits(s, mag);
        proof {
            assert(s@ == mid + nat_digits((-v) as nat));
        }
    } else {
        push_digits(s, v as u64);
    }
}

/// The number of decimal digits of `n`.
pub fn digit_count(n: u64) -> (r: u64)
    ensures
        r == nat_digits(n as nat).len(),
        r >= 1,
        n >= 1 ==> r <= n,
    decreases n,
{
    if n < 10 {
        1
    } else {
        let k = digit_count(n / 10);
        k + 1
    }
}

/// The decimal text of `v` as a new string.
pub fn decimal_string(v: i64) -> (r: String)
    ensures
        r@ == decimal(v as int),
{
    let mut s = String::new();
    push_decimal(&mut s, v);
    proof {
        assert(s@ == Seq::<char>::empty() + decimal(v as int));
    }
    s
}


/// The digits of `n` are decimal digit characters, at least one; a single
/// one exactly when `n < 10`.
pub proof fn lemma_nat_digits_shape(n: nat)
    ensures
        nat_digits(n).len() >= 1,
        n < 10 <==> nat_digits(n).len() == 1,
        forall|i: int| 0 <= i < nat_digits(n).len() ==> '0' <= #[trigger] nat_digits(n)[i] <= '9',
    decreases n,
{
    if n >= 10 {
        lemma_nat_digits_shape(n / 10);
        let t = nat_digits(n / 10);
        assert forall|i: int| 0 <= i < nat_digits(n).len() implies '0' <= #[trigger] nat_digits(n)[i] <= '9' by {
            if i < t.len() {
                assert(nat_digits(n)[i] == t[i]);
            }
        }
    }
}

/// Different numbers have different digits.
pub proof fn lemma_nat_digits_injective(n: nat, m: nat)
    requires
        nat_digits(n) == nat_digits(m),
    ensures
        n == m,
    decreases n,
{
    lemma_nat_digits_shape(n);
    lemma_nat_digits_shape(m);
    if n < 10 {
        assert(m < 10);
        assert(digit_char(n) == digit_char(m));
        assert((48 + n) as u8 == (48 + m) as u8);
    } else {
        assert(m >= 10);
        let a = nat_digits(n);
        let b = nat_digits(m);
        assert(a.last() == b.last());
        assert(digit_char(n % 10) == digit_char(m % 10));
        assert((48 + n % 10) as u8 == (48 + m % 10) as u8);
        assert(n % 10 == m % 10);
        assert(a.drop_last() =~= nat_digits(n / 10));
        assert(b.drop_last() =~= nat_digits(m / 10));
        lemma_nat_digits_injective(n / 10, m / 10);
        assert(n == 10 * (n / 10) + n % 10);
        assert(m == 10 * (m / 10) + m % 10);
    }
}

/// The decimal text of an integer is never empty, holds no comma or
/// space, and tells integers apart.
pub proof fn lemma_decimal_shape(v: int)
    ensures
        decimal(v).len() >= 1,
        forall|i: int| 0 <= i < decimal(v).len() ==> #[trigger] decimal(v)[i] != ',' && decimal(v)[i] != ' ',
        (decimal(v)[0] == '-') <==> v < 0,
{
    if v < 0 {
        lemma_nat_digits_shape((-v) as nat);
        assert forall|i: int| 0 <= i < decimal(v).len() implies #[trigger] decimal(v)[i] != ',' && decimal(v)[i] != ' ' by {
            if i > 0 {
                assert(decimal(v)[i] == nat_digits((-v) as nat)[i - 1]);
            }
        }
    } else {
        lemma_nat_digits_shape(v as nat);
    }
}

/// Different integers have different decimal texts.
pub proof fn lemma_decimal_injective(x: int, y: int)
    requires
        decimal(x) == decimal(y),
    ensures
        x == y,
{
    lemma_decimal_shape(x);
    lemma_decimal_shape(y);
    if x < 0 {
        assert(y < 0);
        assert(decimal(x).skip(1) =~= nat_digits((-x) as nat));
        assert(decimal(y).skip(1) =~= nat_digits((-y) as nat));
        lemma_nat_digits_injective((-x) as nat, (-y) as nat);
    } else {
        assert(y >= 0);
        lemma_nat_digits_injective(x as nat, y as nat);
    }
}

} // verus!
