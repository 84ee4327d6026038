use fizzbuzz_frames::digits::{ceil_div, ith_digit, num_digits};

#[test]
fn num_digits_zero_has_one_digit() {
    assert_eq!(num_digits(0), 1);
}

#[test]
fn num_digits_small_numbers() {
    assert_eq!(num_digits(1), 1);
    assert_eq!(num_digits(7), 1);
    assert_eq!(num_digits(9), 1);
    assert_eq!(num_digits(10), 2);
    assert_eq!(num_digits(99), 2);
    assert_eq!(num_digits(100), 3);
    assert_eq!(num_digits(12345), 5);
}

#[test]
fn num_digits_largest_u32() {
    assert_eq!(num_digits(u32::MAX), 10);
    assert_eq!(num_digits(1_000_000_000), 10);
    assert_eq!(num_digits(999_999_999), 9);
}

#[test]
fn ith_digit_extracts_each_position() {
    assert_eq!(ith_digit(456, 0), 6);
    assert_eq!(ith_digit(456, 1), 5);
    assert_eq!(ith_digit(456, 2), 4);
    assert_eq!(ith_digit(456, 3), 0);
}

#[test]
fn ith_digit_recombines() {
    let n: u32 = 3_204_917_586;
    let mut rebuilt: u64 = 0;
    for i in (0..num_digits(n)).rev() {
        rebuilt = rebuilt * 10 + u64::from(ith_digit(n, i));
    }
    assert_eq!(rebuilt, u64::from(n));
}

#[test]
fn ith_digit_past_the_safe_range_is_zero() {
    assert_eq!(ith_digit(u32::MAX, 10), 0);
    assert_eq!(ith_digit(u32::MAX, 11), 0);
    assert_eq!(ith_digit(123, u32::MAX), 0);
    assert_eq!(ith_digit(u32::MAX, 9), 4);
}

#[test]
fn ceil_div_rounds_up() {
    assert_eq!(ceil_div(10, 2), 5);
    assert_eq!(ceil_div(9, 2), 5);
    assert_eq!(ceil_div(1000, 2), 500);
    assert_eq!(ceil_div(999, 2), 500);
    assert_eq!(ceil_div(0, 5), 0);
    assert_eq!(ceil_div(7, 7), 1);
    assert_eq!(ceil_div(8, 7), 2);
    assert_eq!(ceil_div(u32::MAX, 1), u32::MAX);
}
