use fizzbuzz_frames::planner::{plan, render_number, Frame, Pattern};

fn frame(pattern: Pattern, duration: u32) -> Frame {
    Frame { pattern, duration }
}

fn total(frames: &[Frame]) -> u64 {
    frames.iter().map(|f| u64::from(f.duration)).sum()
}

#[test]
fn fifteen_emits_crackle_then_pop_halves() {
    assert_eq!(
        plan(15, 1000),
        vec![frame(Pattern::Crackle, 500), frame(Pattern::Pop, 500)]
    );
}

#[test]
fn odd_budget_pop_takes_the_remainder() {
    assert_eq!(
        plan(15, 999),
        vec![frame(Pattern::Crackle, 499), frame(Pattern::Pop, 500)]
    );
    assert_eq!(total(&plan(15, 999)), 999);
}

#[test]
fn multiple_of_three_is_crackle_for_the_whole_budget() {
    assert_eq!(plan(3, 1000), vec![frame(Pattern::Crackle, 1000)]);
    assert_eq!(plan(9, 777), vec![frame(Pattern::Crackle, 777)]);
}

#[test]
fn multiple_of_five_is_pop_for_the_whole_budget() {
    assert_eq!(plan(5, 1000), vec![frame(Pattern::Pop, 1000)]);
    assert_eq!(plan(100, 1000), vec![frame(Pattern::Pop, 1000)]);
}

#[test]
fn single_digit_gets_the_whole_budget() {
    assert_eq!(plan(7, 1000), vec![frame(Pattern::Digit(7), 1000)]);
}

#[test]
fn repeated_digit_gets_a_blank_separator() {
    assert_eq!(
        plan(11, 1000),
        vec![
            frame(Pattern::Digit(1), 500),
            frame(Pattern::Blank, 125),
            frame(Pattern::Digit(1), 375),
        ]
    );
}

#[test]
fn hundred_renders_digits_with_last_slice_absorbing_remainder() {
    assert_eq!(
        render_number(100, 1000),
        vec![
            frame(Pattern::Digit(1), 333),
            frame(Pattern::Digit(0), 333),
            frame(Pattern::Blank, 83),
            frame(Pattern::Digit(0), 251),
        ]
    );
}

#[test]
fn repeat_separated_by_another_digit_gets_no_blank() {
    assert_eq!(
        plan(101, 1000),
        vec![
            frame(Pattern::Digit(1), 333),
            frame(Pattern::Digit(0), 333),
            frame(Pattern::Digit(1), 334),
        ]
    );
}

#[test]
fn zero_renders_as_a_single_zero_digit() {
    assert_eq!(render_number(0, 1000), vec![frame(Pattern::Digit(0), 1000)]);
}

#[test]
fn tiny_budget_gives_zero_length_frames_except_the_last() {
    assert_eq!(
        plan(14, 1),
        vec![frame(Pattern::Digit(1), 0), frame(Pattern::Digit(4), 1)]
    );
}

#[test]
fn zero_budget_gives_zero_durations() {
    assert_eq!(plan(7, 0), vec![frame(Pattern::Digit(7), 0)]);
    assert_eq!(total(&plan(15, 0)), 0);
}

#[test]
fn planned_durations_always_sum_to_the_budget() {
    for n in 0..=100 {
        for budget in [0, 1, 3, 299, 999, 1000, u32::MAX] {
            assert_eq!(total(&plan(n, budget)), u64::from(budget));
            assert_eq!(total(&render_number(n, budget)), u64::from(budget));
        }
    }
}

#[test]
fn plan_is_deterministic() {
    for n in [1, 3, 5, 11, 15, 47, 100, u32::MAX] {
        assert_eq!(plan(n, 1000), plan(n, 1000));
        assert_eq!(plan(n, 999), plan(n, 999));
    }
}
