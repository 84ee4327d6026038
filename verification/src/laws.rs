//! Laws of the digit extractor and the planner, stated and proved once for
//! all inputs.

use vstd::prelude::*;
use vstd::arithmetic::div_mod::{
    lemma_basic_div, lemma_breakdown, lemma_fundamental_div_mod,
    lemma_mod_division_less_than_divisor, lemma_small_mod,
};
use crate::digits::{
    digit_at, digit_count, lemma_digit_count_pos, lemma_digit_count_u32,
    lemma_lt_pow10_digit_count, lemma_pow10_le, lemma_pow10_values, pow10,
};
use crate::planner::{digit_frames, plan_spec, render_digits, render_number_spec, Frame, Pattern};

verus! {

/// The base-10 representation of `n` as a sequence of digits, most
/// significant digit first; `0` is written as the single digit 0.
pub open spec fn decimal_digits(n: nat) -> Seq<nat>
    decreases n,
{
    if n < 10 {
        seq![n]
    } else {
        decimal_digits(n / 10).push(n % 10)
    }
}

/// Law: `digit_count(n)` is the length of the base-10 representation of
/// `n`, for every `n`.
pub proof fn lemma_digit_count_is_decimal_len(n: nat)
    ensures
        digit_count(n) == decimal_digits(n).len(),
    decreases n,
{
    if n < 10 {
    } else {
        lemma_digit_count_is_decimal_len(n / 10);
    }
}

/// The weighted sum of the digits of `n` at positions below `k`:
/// `digit_at(n, 0) * 1 + digit_at(n, 1) * 10 + ...`.
pub open spec fn recombined(n: nat, k: nat) -> nat
    decreases k,
{
    if k == 0 {
        0
    } else {
        recombined(n, (k - 1) as nat) + digit_at(n, (k - 1) as nat) * pow10((k - 1) as nat)
    }
}

/// The weighted digit sum below position `k` is `n` modulo `pow10(k)`.
proof fn lemma_recombined_mod(n: nat, k: nat)
    ensures
        recombined(n, k) == n % pow10(k),
    decreases k,
{
    if k == 0 {
        assert(pow10(0) == 1);
    } else {
        lemma_recombined_mod(n, (k - 1) as nat);
        let p: int = pow10((k - 1) as nat) as int;
        lemma_pow10_le(0, (k - 1) as nat);
        assert(pow10(0) == 1);
        lemma_breakdown(n as int, p, 10);
        assert(p * 10 == 10 * p) by (nonlinear_arith);
        assert(pow10(k) == 10 * pow10((k - 1) as nat));
        let digit: int = (n as int / p) % 10;
        assert(p * digit == digit * p) by (nonlinear_arith);
    }
}

/// Law: the digits of `n`, each weighted by its power of ten, recombine to
/// `n` itself when summed across all of `n`'s digit positions.
pub proof fn lemma_digits_recombine(n: nat)
    ensures
        recombined(n, digit_count(n)) == n,
{
    lemma_recombined_mod(n, digit_count(n));
    lemma_lt_pow10_digit_count(n);
    lemma_digit_count_pos(n);
    lemma_pow10_le(0, digit_count(n));
    lemma_small_mod(n, pow10(digit_count(n)));
}

/// Law: a digit position at or past 10 is past every digit a `u32` can
/// have, so the digit there is 0.
pub proof fn lemma_digit_at_high_index_zero(n: u32, i: nat)
    requires
        i >= 10,
    ensures
        digit_at(n as nat, i) == 0,
{
    lemma_pow10_values();
    lemma_pow10_le(10, i);
    lemma_basic_div(n as int, pow10(i) as int);
}

/// The total display time of a frame sequence.
pub open spec fn total_duration(frames: Seq<Frame>) -> int
    decreases frames.len(),
{
    if frames.len() == 0 {
        0
    } else {
        frames[0].duration + total_duration(frames.drop_first())
    }
}

/// The total of a single frame is its duration.
proof fn lemma_total_one(f: Frame)
    ensures
        total_duration(seq![f]) == f.duration,
{
    assert(seq![f].drop_first() =~= Seq::<Frame>::empty());
    assert(total_duration(Seq::<Frame>::empty()) == 0);
}

/// The total of two frames is the sum of their durations.
proof fn lemma_total_two(f: Frame, g: Frame)
    ensures
        total_duration(seq![f, g]) == f.duration + g.duration,
{
    assert(seq![f, g].drop_first() =~= seq![g]);
    lemma_total_one(g);
}

/// Totals add across concatenation.
proof fn lemma_total_concat(a: Seq<Frame>, b: Seq<Frame>)
    ensures
        total_duration(a + b) == total_duration(a) + total_duration(b),
    decreases a.len(),
{
    if a.len() == 0 {
        assert(a + b =~= b);
    } else {
        lemma_total_concat(a.drop_first(), b);
        assert((a + b).drop_first() =~= a.drop_first() + b);
        assert((a + b)[0] == a[0]);
    }
}

/// Law: the frames that present one digit always total the digit's slice:
/// the blank separator is carved out of the slice, never added on top.
pub proof fn lemma_digit_frames_total(curr: u32, prev: Option<u32>, duration: u32)
    ensures
        total_duration(digit_frames(curr, prev, duration)) == duration,
{
    if prev == Some(curr) {
        lemma_total_two(
            Frame { pattern: Pattern::Blank, duration: (duration / 4) as u32 },
            Frame { pattern: Pattern::Digit(curr), duration: (duration - duration / 4) as u32 },
        );
    } else {
        lemma_total_one(Frame { pattern: Pattern::Digit(curr), duration });
    }
}

/// Rendering digits `i` down to 0 consumes exactly `remaining`, provided
/// `remaining` covers the `i` nominal slices before the last digit.
proof fn lemma_render_digits_total(n: u32, slice: u32, i: u32, prev: Option<u32>, remaining: u32)
    requires
        remaining as int >= i as int * slice as int,
    ensures
        total_duration(render_digits(n, slice, i, prev, remaining)) == remaining,
    decreases i,
{
    let curr: u32 = digit_at(n as nat, i as nat) as u32;
    if i == 0 {
        lemma_digit_frames_total(curr, prev, remaining);
    } else {
        assert(i as int * slice as int >= 1 * slice as int) by (nonlinear_arith)
            requires
                i as int >= 1,
                slice as int >= 0,
        ;
        assert((i as int - 1) * slice as int == i as int * slice as int - slice as int)
            by (nonlinear_arith);
        lemma_render_digits_total(n, slice, (i - 1) as u32, Some(curr), (remaining - slice) as u32);
        lemma_digit_frames_total(curr, prev, slice);
        lemma_total_concat(
            digit_frames(curr, prev, slice),
            render_digits(n, slice, (i - 1) as u32, Some(curr), (remaining - slice) as u32),
        );
    }
}

/// Law: the per-digit nominal durations, one slice of `budget / digit_count`
/// for each digit, never sum to more than the budget.
pub proof fn lemma_nominal_slices_fit(n: u32, budget: u32)
    ensures
        digit_count(n as nat) * (budget as nat / digit_count(n as nat)) <= budget,
{
    let d: int = digit_count(n as nat) as int;
    lemma_digit_count_pos(n as nat);
    lemma_fundamental_div_mod(budget as int, d);
    lemma_mod_division_less_than_divisor(budget as int, d);
}

/// Law: for every `n` and `budget`, the digit rendering spends the budget
/// exactly — the least-significant digit absorbs the rounding remainder.
pub proof fn lemma_render_number_total(n: u32, budget: u32)
    ensures
        total_duration(render_number_spec(n, budget)) == budget,
{
    let d: nat = digit_count(n as nat);
    lemma_digit_count_u32(n);
    let slice: u32 = (budget as nat / d) as u32;
    lemma_fundamental_div_mod(budget as int, d as int);
    lemma_mod_division_less_than_divisor(budget as int, d as int);
    assert((d as int - 1) * slice as int <= d as int * slice as int) by (nonlinear_arith)
        requires
            slice as int >= 0,
            d as int >= 1,
    ;
    lemma_render_digits_total(n, slice, (d - 1) as u32, None::<u32>, budget);
}

/// Law: for `n` divisible by both 3 and 5, the plan is exactly two frames
/// whose durations sum to the whole budget, odd budgets included.
pub proof fn lemma_fizzbuzz_durations_sum(n: u32, budget: u32)
    requires
        n % 3 == 0,
        n % 5 == 0,
    ensures
        plan_spec(n, budget).len() == 2,
        plan_spec(n, budget)[0].duration + plan_spec(n, budget)[1].duration == budget,
{
}

/// Law: for every `n` and `budget`, the durations of all planned frames sum
/// exactly to the budget.
pub proof fn lemma_plan_total(n: u32, budget: u32)
    ensures
        total_duration(plan_spec(n, budget)) == budget,
{
    if n % 3 == 0 && n % 5 == 0 {
        lemma_total_two(plan_spec(n, budget)[0], plan_spec(n, budget)[1]);
        assert(plan_spec(n, budget) =~= seq![plan_spec(n, budget)[0], plan_spec(n, budget)[1]]);
    } else if n % 3 == 0 {
        lemma_total_one(plan_spec(n, budget)[0]);
        assert(plan_spec(n, budget) =~= seq![plan_spec(n, budget)[0]]);
    } else if n % 5 == 0 {
        lemma_total_one(plan_spec(n, budget)[0]);
        assert(plan_spec(n, budget) =~= seq![plan_spec(n, budget)[0]]);
    } else {
        lemma_render_number_total(n, budget);
    }
}

/// Law: the plan depends on `n` and `budget` alone, so two plans computed
/// from the same inputs are the same frame sequence.
pub proof fn lemma_plan_deterministic(n: u32, budget: u32, first: Seq<Frame>, second: Seq<Frame>)
    requires
        first == plan_spec(n, budget),
        second == plan_spec(n, budget),
    ensures
        first == second,
{
}

} // verus!
