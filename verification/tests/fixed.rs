use fireworks::fixed::{difference, elapse, product, ratio, root, span, sum, SCALE};

#[test]
fn sum_adds_and_saturates() {
    assert_eq!(sum(2 * SCALE, 3 * SCALE), 5 * SCALE);
    assert_eq!(sum(-7, 7), 0);
    assert_eq!(sum(i64::MAX, 1), i64::MAX);
    assert_eq!(sum(i64::MIN, -1), i64::MIN);
    assert_eq!(sum(i64::MAX, i64::MIN), -1);
}

#[test]
fn difference_subtracts_and_saturates() {
    assert_eq!(difference(2 * SCALE, 3 * SCALE), -SCALE);
    assert_eq!(difference(i64::MIN, 1), i64::MIN);
    assert_eq!(difference(i64::MAX, -1), i64::MAX);
    assert_eq!(difference(0, i64::MIN), i64::MAX);
}

#[test]
fn product_scales_and_rounds_toward_zero() {
    assert_eq!(product(3 * SCALE, 2 * SCALE), 6 * SCALE);
    assert_eq!(product(-60 * SCALE, SCALE), -60 * SCALE);
    assert_eq!(product(7, 333_333), 2);
    assert_eq!(product(-7, 333_333), -2);
    assert_eq!(product(-1_500_000, 500_000), -750_000);
    assert_eq!(product(1, 1), 0);
    assert_eq!(product(-1, 1), 0);
    assert_eq!(product(5 * SCALE, 0), 0);
}

#[test]
fn product_saturates() {
    assert_eq!(product(i64::MAX, i64::MAX), i64::MAX);
    assert_eq!(product(i64::MIN, i64::MAX), i64::MIN);
    assert_eq!(product(i64::MIN, i64::MIN), i64::MAX);
    assert_eq!(product(i64::MAX, SCALE), i64::MAX);
    assert_eq!(product(i64::MIN, SCALE), i64::MIN);
}

#[test]
fn ratio_divides_and_rounds_toward_zero() {
    assert_eq!(ratio(3 * SCALE, 5 * SCALE), 600_000);
    assert_eq!(ratio(-3 * SCALE, 5 * SCALE), -600_000);
    assert_eq!(ratio(1, 3), 333_333);
    assert_eq!(ratio(-1, 3), -333_333);
    assert_eq!(ratio(i64::MAX, 1), i64::MAX);
    assert_eq!(ratio(i64::MIN, 1), i64::MIN);
}

#[test]
fn ratio_by_a_negative_divisor() {
    assert_eq!(ratio(3 * SCALE, -5 * SCALE), -600_000);
    assert_eq!(ratio(-3 * SCALE, -5 * SCALE), 600_000);
    assert_eq!(ratio(1, -3), -333_333);
    assert_eq!(ratio(-1, -3), 333_333);
    assert_eq!(ratio(i64::MIN, -1), i64::MAX);
    assert_eq!(ratio(i64::MAX, -1), i64::MIN);
    assert_eq!(ratio(SCALE, i64::MIN), 0);
}

#[test]
fn span_picks_a_point_between_its_ends() {
    assert_eq!(span(-25 * SCALE, 50 * SCALE, 0), -25 * SCALE);
    assert_eq!(span(-25 * SCALE, 50 * SCALE, 500_000), 0);
    assert_eq!(span(-25 * SCALE, 50 * SCALE, 999_999), 24_999_950);
    assert_eq!(span(3 * SCALE, SCALE, 250_000), 3_250_000);
}

#[test]
fn elapse_takes_negative_time_for_none() {
    assert_eq!(elapse(-1), 0);
    assert_eq!(elapse(i64::MIN), 0);
    assert_eq!(elapse(0), 0);
    assert_eq!(elapse(16_667), 16_667);
}

#[test]
fn root_is_the_integer_square_root() {
    assert_eq!(root(0), 0);
    assert_eq!(root(1), 1);
    assert_eq!(root(2), 1);
    assert_eq!(root(3), 1);
    assert_eq!(root(4), 2);
    assert_eq!(root(24), 4);
    assert_eq!(root(25), 5);
    assert_eq!(root(1_000_000_000_000), 1_000_000);
    assert_eq!(root(1u128 << 127), 13_043_817_825_332_782_212);
    assert_eq!(root(u128::MAX), u64::MAX);
}

#[test]
fn root_brackets_its_argument() {
    let mut n: u128 = 1;
    while n < (1u128 << 120) {
        let r = root(n) as u128;
        assert!(r * r <= n);
        assert!((r + 1) * (r + 1) > n);
        n = n * 7 + 3;
    }
}
