use fireworks::fixed::SCALE;
use fireworks::vector::{Vector2, NEAR_ZERO, POLAR_REACH, POLAR_SLACK};

#[test]
fn new_and_zero() {
    assert_eq!(Vector2::new(3, -4), Vector2 { x: 3, y: -4 });
    assert_eq!(Vector2::zero(), Vector2 { x: 0, y: 0 });
}

#[test]
fn plus_and_minus_work_by_coordinate() {
    let a = Vector2::new(SCALE, -2 * SCALE);
    let b = Vector2::new(3 * SCALE, 5 * SCALE);
    assert_eq!(a.plus(b), Vector2::new(4 * SCALE, 3 * SCALE));
    assert_eq!(a.minus(b), Vector2::new(-2 * SCALE, -7 * SCALE));
    assert_eq!(a.plus(b).minus(b), a);
}

#[test]
fn plus_saturates_each_coordinate() {
    let a = Vector2::new(i64::MAX, i64::MIN);
    assert_eq!(a.plus(Vector2::new(1, -1)), a);
    assert_eq!(a.minus(Vector2::new(-1, 1)), a);
}

#[test]
fn scaled_stretches() {
    let v = Vector2::new(0, -60 * SCALE);
    assert_eq!(v.scaled(SCALE), v);
    assert_eq!(v.scaled(SCALE / 2), Vector2::new(0, -30 * SCALE));
    assert_eq!(v.scaled(0), Vector2::zero());
    assert_eq!(v.scaled(16_667), Vector2::new(0, -1_000_020));
}

#[test]
fn length_of_a_three_four_five_triangle() {
    assert_eq!(Vector2::new(3 * SCALE, 4 * SCALE).length(), 5 * SCALE);
    assert_eq!(Vector2::new(-3 * SCALE, 4 * SCALE).length(), 5 * SCALE);
    assert_eq!(Vector2::zero().length(), 0);
    assert_eq!(Vector2::new(1, 1).length(), 1);
}

#[test]
fn length_saturates() {
    assert_eq!(Vector2::new(i64::MIN, i64::MIN).length(), i64::MAX);
    assert_eq!(Vector2::new(i64::MAX, 0).length(), i64::MAX);
}

#[test]
fn direction_has_length_one() {
    let d = Vector2::new(3 * SCALE, 4 * SCALE).direction();
    assert_eq!(d, Some(Vector2::new(600_000, 800_000)));
    let d = Vector2::new(0, -250 * SCALE).direction();
    assert_eq!(d, Some(Vector2::new(0, -SCALE)));
}

#[test]
fn short_vector_has_no_direction() {
    assert_eq!(Vector2::zero().direction(), None);
    assert_eq!(Vector2::new(NEAR_ZERO - 1, 0).direction(), None);
    assert_eq!(Vector2::new(0, -(NEAR_ZERO - 1)).direction(), None);
    assert_eq!(Vector2::new(NEAR_ZERO, 0).direction(), Some(Vector2::new(SCALE, 0)));
}

#[test]
fn polar_points_along_the_angle() {
    assert_eq!(Vector2::polar(25 * SCALE, 0), Vector2::new(25 * SCALE, 0));
    assert_eq!(Vector2::polar(25 * SCALE, 250_000), Vector2::new(0, 25 * SCALE));
    assert_eq!(Vector2::polar(25 * SCALE, 500_000), Vector2::new(-25 * SCALE, 0));
    assert_eq!(Vector2::polar(25 * SCALE, 750_000), Vector2::new(0, -25 * SCALE));
    assert_eq!(Vector2::polar(50 * SCALE, 125_000), Vector2::new(35_355_339, 35_355_339));
    assert_eq!(Vector2::polar(50 * SCALE, 100_000), Vector2::new(40_442_933, 29_400_155));
    assert_eq!(Vector2::polar(50 * SCALE, -100_000), Vector2::new(40_442_933, -29_400_155));
    assert_eq!(Vector2::polar(25 * SCALE, 125_324), Vector2::new(17_641_695, 17_713_570));
}

#[test]
fn polar_keeps_within_its_length() {
    let mut turn: i64 = 0;
    while turn < SCALE {
        let v = Vector2::polar(50 * SCALE, turn);
        assert!(v.x.abs() <= 50 * SCALE);
        assert!(v.y.abs() <= 50 * SCALE);
        for length in [0, 1, 2, 3, 25 * SCALE, 37_123_457, 50 * SCALE, POLAR_REACH] {
            let reached = Vector2::polar(length, turn).length();
            assert!(length - POLAR_SLACK <= reached && reached <= length);
        }
        let exact = 2.0 * std::f64::consts::PI * turn as f64 / SCALE as f64;
        assert!((v.x as f64 / SCALE as f64 - 50.0 * exact.cos()).abs() < 0.1);
        assert!((v.y as f64 / SCALE as f64 - 50.0 * exact.sin()).abs() < 0.1);
        turn += 1009;
    }
}

#[test]
fn direction_is_of_length_one_to_a_thousandth() {
    let mut x: i64 = -7_000_000_007;
    while x < 7_000_000_000 {
        let mut y: i64 = -5_000_000_003;
        while y < 5_000_000_000 {
            if let Some(d) = Vector2::new(x, y).direction() {
                let square = (d.x as i128) * (d.x as i128) + (d.y as i128) * (d.y as i128);
                let s = SCALE as i128;
                assert!(square > s * s - 5 * s);
                assert!(square < 1_001_000 * 1_001_000);
            }
            y += 333_333_331;
        }
        x += 777_777_773;
    }
    let d = Vector2::new(1_000, 0).direction().unwrap();
    assert_eq!(d, Vector2::new(SCALE, 0));
    let d = Vector2::new(999, 999).direction().unwrap();
    assert_eq!(d.x, d.y);
    assert!((d.x as f64 / SCALE as f64 - std::f64::consts::FRAC_1_SQRT_2).abs() < 0.001);
}
