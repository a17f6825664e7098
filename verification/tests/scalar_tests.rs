use zombie_sim::scalar::{isqrt, saturate_i128, Scalar};

#[test]
fn from_int_scales_by_one() {
    assert_eq!(Scalar::from_int(3).raw, 3 * 65536);
    assert_eq!(Scalar::from_int(-2).raw, -2 * 65536);
    assert_eq!(Scalar::from_int(0), Scalar::zero());
}

#[test]
fn from_int_saturates() {
    assert_eq!(Scalar::from_int(40000).raw, i32::MAX);
    assert_eq!(Scalar::from_int(-40000).raw, i32::MIN);
}

#[test]
fn plus_and_minus_are_exact_in_range() {
    let a = Scalar::from_raw(100);
    let b = Scalar::from_raw(-250);
    assert_eq!(a.plus(b).raw, -150);
    assert_eq!(a.minus(b).raw, 350);
    assert_eq!(a.plus(Scalar::zero()), a);
}

#[test]
fn plus_and_minus_saturate() {
    let top = Scalar::from_raw(i32::MAX);
    let bottom = Scalar::from_raw(i32::MIN);
    assert_eq!(top.plus(Scalar::from_raw(1)).raw, i32::MAX);
    assert_eq!(bottom.minus(Scalar::from_raw(1)).raw, i32::MIN);
    assert_eq!(top.minus(bottom).raw, i32::MAX);
    assert_eq!(bottom.plus(Scalar::zero()).raw, i32::MIN);
}

#[test]
fn negated_is_exact_but_for_the_smallest() {
    assert_eq!(Scalar::from_raw(7).negated().raw, -7);
    assert_eq!(Scalar::from_raw(i32::MAX).negated().raw, -i32::MAX);
    assert_eq!(Scalar::from_raw(i32::MIN).negated().raw, i32::MAX);
}

#[test]
fn times_rounds_toward_zero() {
    let half = Scalar::from_raw(32768);
    assert_eq!(Scalar::from_raw(3).times(half).raw, 1);
    assert_eq!(Scalar::from_raw(-3).times(half).raw, -1);
    assert_eq!(Scalar::from_raw(-1).times(half).raw, 0);
    assert_eq!(Scalar::from_int(6).times(Scalar::from_int(7)), Scalar::from_int(42));
    assert_eq!(Scalar::from_int(-6).times(Scalar::from_int(7)), Scalar::from_int(-42));
}

#[test]
fn times_saturates() {
    let big = Scalar::from_int(30000);
    assert_eq!(big.times(big).raw, i32::MAX);
    assert_eq!(big.times(big.negated()).raw, i32::MIN);
}

#[test]
fn halved_rounds_toward_zero() {
    assert_eq!(Scalar::from_raw(5).halved().raw, 2);
    assert_eq!(Scalar::from_raw(-5).halved().raw, -2);
    assert_eq!(Scalar::from_raw(-1).halved().raw, 0);
    assert_eq!(Scalar::from_int(3).halved().raw, 98304);
}

#[test]
fn isqrt_is_the_integer_part_of_the_root() {
    assert_eq!(isqrt(0), 0);
    assert_eq!(isqrt(1), 1);
    assert_eq!(isqrt(2), 1);
    assert_eq!(isqrt(3), 1);
    assert_eq!(isqrt(4), 2);
    assert_eq!(isqrt(15), 3);
    assert_eq!(isqrt(16), 4);
    assert_eq!(isqrt(17), 4);
    assert_eq!(isqrt(1_000_000), 1000);
    assert_eq!(isqrt(999_999), 999);
}

#[test]
fn isqrt_of_the_largest_numbers() {
    assert_eq!(isqrt(u128::MAX), 18446744073709551615);
    let r: u128 = 18446744073709551615;
    assert_eq!(isqrt(r * r), r);
    assert_eq!(isqrt(r * r - 1), r - 1);
}

#[test]
fn isqrt_brackets_every_small_number() {
    let mut n: u128 = 0;
    while n < 5000 {
        let r = isqrt(n);
        assert!(r * r <= n && n < (r + 1) * (r + 1));
        n += 1;
    }
}

#[test]
fn saturate_i128_clamps() {
    assert_eq!(saturate_i128(0), 0);
    assert_eq!(saturate_i128(2147483647), 2147483647);
    assert_eq!(saturate_i128(2147483648), 2147483647);
    assert_eq!(saturate_i128(-2147483648), -2147483648);
    assert_eq!(saturate_i128(-2147483649), -2147483648);
    assert_eq!(saturate_i128(i128::MAX), i32::MAX);
    assert_eq!(saturate_i128(i128::MIN), i32::MIN);
}
