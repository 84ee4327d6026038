//! The frame planner: turns a number and a time budget into the ordered
//! sequence of frames to show, with the Crackle/Pop overrides for multiples
//! of 3 and 5 and the proportional per-digit split otherwise.

use vstd::prelude::*;
use vstd::arithmetic::div_mod::{lemma_fundamental_div_mod, lemma_mod_division_less_than_divisor};
use crate::digits::{
    ceil_div, ceil_div_spec, digit_at, digit_count, ith_digit, lemma_digit_count_u32, num_digits,
};

verus! {

/// A symbolic pattern shown on the LED matrix; resolved to a bitmap outside
/// the planner, which only ever selects patterns by identity.
#[derive(Clone, Copy, Debug, PartialEq, Eq, Structural)]
pub enum Pattern {
    /// One of the ten decimal digit glyphs.
    Digit(u32),
    /// An empty screen, used to separate consecutive identical digits.
    Blank,
    /// The animated pattern shown for multiples of 3.
    Crackle,
    /// The animated pattern shown for multiples of 5.
    Pop,
}

/// One unit of display output: a pattern and how long to show it.
#[derive(Clone, Copy, Debug, PartialEq, Eq, Structural)]
pub struct Frame {
    pub pattern: Pattern,
    pub duration: u32,
}

/// The frames that present one digit: the digit's glyph for its whole slice,
/// or, when the digit repeats the previous one, a quarter-slice blank
/// separator carved out of the digit's own slice.
pub open spec fn digit_frames(curr: u32, prev: Option<u32>, duration: u32) -> Seq<Frame> {
    if prev == Some(curr) {
        seq![
            Frame { pattern: Pattern::Blank, duration: (duration / 4) as u32 },
            Frame { pattern: Pattern::Digit(curr), duration: (duration - duration / 4) as u32 },
        ]
    } else {
        seq![Frame { pattern: Pattern::Digit(curr), duration: duration }]
    }
}

/// The frames for the digits of `n` at positions `i` down to 0, where every
/// digit but the one at position 0 takes `slice` time units and the digit at
/// position 0 takes all of `remaining`.
pub open spec fn render_digits(
    n: u32,
    slice: u32,
    i: u32,
    prev: Option<u32>,
    remaining: u32,
) -> Seq<Frame>
    decreases i,
{
    let curr = digit_at(n as nat, i as nat) as u32;
    if i == 0 {
        digit_frames(curr, prev, remaining)
    } else {
        digit_frames(curr, prev, slice) + render_digits(
            n,
            slice,
            (i - 1) as u32,
            Some(curr),
            (remaining - slice) as u32,
        )
    }
}

/// The frames that show the decimal digits of `n` within `budget` time
/// units: each digit nominally gets `budget / digit_count(n)`, and the
/// least-significant digit absorbs the rounding remainder.
pub open spec fn render_number_spec(n: u32, budget: u32) -> Seq<Frame> {
    let d = digit_count(n as nat);
    render_digits(n, (budget as nat / d) as u32, (d - 1) as u32, None::<u32>, budget)
}

/// The full plan for `n`: Crackle then Pop for multiples of both 3 and 5
/// (splitting the budget in half, rounded down then up), Crackle alone for
/// multiples of 3, Pop alone for multiples of 5, and the digit rendering
/// otherwise.
pub open spec fn plan_spec(n: u32, budget: u32) -> Seq<Frame> {
    if n % 3 == 0 && n % 5 == 0 {
        seq![
            Frame { pattern: Pattern::Crackle, duration: (budget / 2) as u32 },
            Frame { pattern: Pattern::Pop, duration: ceil_div_spec(budget as int, 2) as u32 },
        ]
    } else if n % 3 == 0 {
        seq![Frame { pattern: Pattern::Crackle, duration: budget }]
    } else if n % 5 == 0 {
        seq![Frame { pattern: Pattern::Pop, duration: budget }]
    } else {
        render_number_spec(n, budget)
    }
}

/// Render the decimal digits of `n` across `budget` time units, most
/// significant digit first, inserting a blank separator before a digit that
/// repeats the previous one.
pub fn render_number(n: u32, budget: u32) -> (frames: Vec<Frame>)
    ensures
        frames@ == render_number_spec(n, budget),
{
    let d: u32 = num_digits(n);
    let slice: u32 = budget / d;
    proof {
        lemma_digit_count_u32(n);
        lemma_fundamental_div_mod(budget as int, d as int);
        lemma_mod_division_less_than_divisor(budget as int, d as int);
    }

    let mut frames: Vec<Frame> = Vec::new();
    let mut prev: Option<u32> = None;
    let mut remaining: u32 = budget;
    let mut i: u32 = d;

    proof {
        assert(Seq::<Frame>::empty() + render_digits(
            n,
            slice,
            (d - 1) as u32,
            None::<u32>,
            budget,
        ) =~= render_digits(n, slice, (d - 1) as u32, None::<u32>, budget));
    }

    while i > 0
        invariant
            d == digit_count(n as nat),
            1 <= d <= 10,
            slice == budget as nat / d as nat,
            budget as int >= d as int * slice as int,
            i <= d,
            i > 0 ==> remaining as int == budget - (d - i) as int * slice as int,
            i > 0 ==> render_number_spec(n, budget) == frames@ + render_digits(
                n,
                slice,
                (i - 1) as u32,
                prev,
                remaining,
            ),
            i == 0 ==> render_number_spec(n, budget) == frames@,
        decreases i,
    {
        i = i - 1;
        let curr: u32 = ith_digit(n, i);
        let ghost frames0 = frames@;
        let ghost prev0 = prev;
        let ghost rem0 = remaining;

        proof {
            assert(digit_at(n as nat, i as nat) < 10);
            if i > 0 {
                assert((d as int - i as int) * slice as int <= d as int * slice as int)
                    by (nonlinear_arith)
                    requires
                        0 <= slice as int,
                        0 <= i as int,
                        0 <= d as int,
                ;
                assert((d as int - i as int - 1) * slice as int + slice as int == (d as int
                    - i as int) * slice as int) by (nonlinear_arith);
            }
        }

        let mut duration: u32 = if i == 0 {
            remaining
        } else {
            slice
        };
        remaining = remaining - duration;

        let same: bool = match prev {
            Some(p) => p == curr,
            None => false,
        };

        if same {
            let pause: u32 = duration / 4;
            duration = duration - pause;
            frames.push(Frame { pattern: Pattern::Blank, duration: pause });
        }
        frames.push(Frame { pattern: Pattern::Digit(curr), duration });
        prev = Some(curr);

        proof {
            let here = digit_frames(curr, prev0, if i == 0 { rem0 } else { slice });
            assert(frames@ =~= frames0 + here);
            if i == 0 {
                assert(render_digits(n, slice, 0, prev0, rem0) == here);
            } else {
                assert(render_digits(n, slice, i as u32, prev0, rem0) == here + render_digits(
                    n,
                    slice,
                    (i - 1) as u32,
                    Some(curr),
                    (rem0 - slice) as u32,
                ));
                assert(frames0 + (here + render_digits(
                    n,
                    slice,
                    (i - 1) as u32,
                    Some(curr),
                    (rem0 - slice) as u32,
                )) =~= (frames0 + here) + render_digits(
                    n,
                    slice,
                    (i - 1) as u32,
                    Some(curr),
                    (rem0 - slice) as u32,
                ));
            }
        }
    }

    frames
}

/// Plan the frames for `n` within `budget` time units, applying the
/// Crackle/Pop overrides before falling back to digit rendering.
pub fn plan(n: u32, budget: u32) -> (frames: Vec<Frame>)
    ensures
        frames@ == plan_spec(n, budget),
{
    if n % 3 == 0 && n % 5 == 0 {
        let first: u32 = budget / 2;
        let second: u32 = ceil_div(budget, 2);
        let frames: Vec<Frame> = vec![
            Frame { pattern: Pattern::Crackle, duration: first },
            Frame { pattern: Pattern::Pop, duration: second },
        ];
        proof {
            assert(frames@ =~= plan_spec(n, budget));
        }
        frames
    } else if n % 3 == 0 {
        let frames: Vec<Frame> = vec![Frame { pattern: Pattern::Crackle, duration: budget }];
        proof {
            assert(frames@ =~= plan_spec(n, budget));
        }
        frames
    } else if n % 5 == 0 {
        let frames: Vec<Frame> = vec![Frame { pattern: Pattern::Pop, duration: budget }];
        proof {
            assert(frames@ =~= plan_spec(n, budget));
        }
        frames
    } else {
        render_number(n, budget)
    }
}

} // verus!
