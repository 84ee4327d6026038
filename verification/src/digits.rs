//! Base-10 digit arithmetic: digit counting, digit extraction, and the
//! rounded-up division used by the planner's half-budget split.

use vstd::prelude::*;
use vstd::arithmetic::div_mod::{
    lemma_basic_div, lemma_div_is_strictly_smaller, lemma_fundamental_div_mod,
    lemma_fundamental_div_mod_converse, lemma_mod_division_less_than_divisor, lemma_small_mod,
};

verus! {

/// 10 raised to the power `e`.
pub open spec fn pow10(e: nat) -> nat
    decreases e,
{
    if e == 0 {
        1
    } else {
        10 * pow10((e - 1) as nat)
    }
}

/// The number of digits in the base-10 representation of `n`; 1 for `n == 0`.
pub open spec fn digit_count(n: nat) -> nat
    decreases n,
{
    if n < 10 {
        1
    } else {
        1 + digit_count(n / 10)
    }
}

/// The digit of `n` at zero-based position `i`, counting from the
/// least-significant digit.
pub open spec fn digit_at(n: nat, i: nat) -> nat {
    (n / pow10(i)) % 10
}

/// `a / b` rounded up instead of down.
pub open spec fn ceil_div_spec(a: int, b: int) -> int
    recommends
        b > 0,
{
    (a + b - 1) / b
}

/// The powers of ten up to `pow10(10)`, as concrete values.
pub(crate) proof fn lemma_pow10_values()
    ensures
        pow10(0) == 1,
        pow10(1) == 10,
        pow10(2) == 100,
        pow10(3) == 1000,
        pow10(4) == 10000,
        pow10(5) == 100000,
        pow10(6) == 1000000,
        pow10(7) == 10000000,
        pow10(8) == 100000000,
        pow10(9) == 1000000000,
        pow10(10) == 10000000000,
{
    reveal_with_fuel(pow10, 11);
}

/// `pow10` is monotone in its exponent.
pub(crate) proof fn lemma_pow10_le(i: nat, j: nat)
    requires
        i <= j,
    ensures
        pow10(i) <= pow10(j),
    decreases j,
{
    if i < j {
        lemma_pow10_le(i, (j - 1) as nat);
    }
}

/// Every number has at least one digit.
pub(crate) proof fn lemma_digit_count_pos(n: nat)
    ensures
        digit_count(n) >= 1,
{
    assert(digit_count(n) >= 1) by {
        reveal_with_fuel(digit_count, 1);
    }
}

/// A number below `pow10(k)` has at most `k` digits.
pub(crate) proof fn lemma_digit_count_le(n: nat, k: nat)
    requires
        n < pow10(k),
        k >= 1,
    ensures
        digit_count(n) <= k,
    decreases k,
{
    if n < 10 {
    } else {
        assert(pow10(1) == 10) by {
            reveal_with_fuel(pow10, 2);
        }
        if k == 1 {
            assert(false);
        }
        assert(pow10(k) == 10 * pow10((k - 1) as nat));
        lemma_digit_count_le(n / 10, (k - 1) as nat);
    }
}

/// `n` is below `pow10` of its own digit count.
pub(crate) proof fn lemma_lt_pow10_digit_count(n: nat)
    ensures
        n < pow10(digit_count(n)),
    decreases n,
{
    if n < 10 {
        assert(pow10(1) == 10) by {
            reveal_with_fuel(pow10, 2);
        }
    } else {
        lemma_lt_pow10_digit_count(n / 10);
        let d: nat = digit_count(n / 10);
        assert(n < 10 * (n / 10 + 1));
        assert(10 * (n / 10 + 1) <= 10 * pow10(d));
        assert(pow10(d + 1) == 10 * pow10(d));
    }
}

/// The digit count of any `u32` fits in 10.
pub(crate) proof fn lemma_digit_count_u32(n: u32)
    ensures
        1 <= digit_count(n as nat) <= 10,
{
    lemma_digit_count_pos(n as nat);
    lemma_pow10_values();
    lemma_digit_count_le(n as nat, 10);
}

/// How many digits are in the base-10 representation of `n`?
pub fn num_digits(n: u32) -> (r: u32)
    ensures
        r == digit_count(n as nat),
{
    if n == 0 {
        return 1;
    }

    let mut count: u32 = 0;
    let mut m: u32 = n;

    proof {
        lemma_digit_count_u32(n);
    }
    while m != 0
        invariant
            digit_count(n as nat) <= 10,
            m != 0 ==> digit_count(n as nat) == count + digit_count(m as nat),
            m == 0 ==> digit_count(n as nat) == count,
        decreases m,
    {
        proof {
            lemma_digit_count_pos(m as nat);
            if m >= 10 {
                lemma_digit_count_pos((m / 10) as nat);
            }
        }
        count = count + 1;
        m = m / 10;
    }

    count
}

/// An exact power of ten, computed by repeated multiplication.
fn pow10_u32(i: u32) -> (r: u32)
    requires
        i <= 9,
    ensures
        r == pow10(i as nat),
{
    let mut r: u32 = 1;
    let mut k: u32 = 0;

    while k < i
        invariant
            k <= i,
            i <= 9,
            r == pow10(k as nat),
        decreases i - k,
    {
        proof {
            lemma_pow10_le((k + 1) as nat, 9);
            lemma_pow10_values();
            assert(pow10((k + 1) as nat) == 10 * pow10(k as nat));
        }
        r = r * 10;
        k = k + 1;
    }

    r
}

/// The digit of `n` at zero-based position `i`, counting from the
/// least-significant digit; 0 whenever `i` is past every digit a `u32` can
/// have, so the power of ten is never computed beyond its range.
pub fn ith_digit(n: u32, i: u32) -> (r: u32)
    ensures
        r == digit_at(n as nat, i as nat),
{
    if i > 9 {
        proof {
            lemma_pow10_values();
            lemma_pow10_le(10, i as nat);
            lemma_basic_div(n as int, pow10(i as nat) as int);
        }
        return 0;
    }

    let p: u32 = pow10_u32(i);
    proof {
        lemma_pow10_le(0, i as nat);
        lemma_pow10_values();
    }
    n / p % 10
}

/// `a` divided by `b`, rounded up.
pub fn ceil_div(a: u32, b: u32) -> (r: u32)
    requires
        b > 0,
    ensures
        r == ceil_div_spec(a as int, b as int),
{
    let extra: u32 = if a % b == 0 {
        0
    } else {
        1
    };

    proof {
        let q: int = a as int / b as int;
        let bb: int = b as int;
        lemma_fundamental_div_mod(a as int, bb);
        lemma_mod_division_less_than_divisor(a as int, bb);
        assert(bb * q == q * bb) by (nonlinear_arith);
        if a % b == 0 {
            lemma_fundamental_div_mod_converse(a + b - 1, bb, q, b - 1);
        } else {
            if a == 0 {
                lemma_small_mod(0, b as nat);
            }
            if b == 1 {
                assert(a as int % 1int == 0);
            }
            lemma_div_is_strictly_smaller(a as int, bb);
            assert((q + 1) * bb == q * bb + bb) by (nonlinear_arith);
            lemma_fundamental_div_mod_converse(a + b - 1, bb, q + 1, a as int % bb - 1);
        }
    }

    a / b + extra
}

} // verus!
