use fireworks::curve::{cosine, decay, sine, DECAY_TIME, HALF_TURN, QUARTER_TURN, RETENTION};
use fireworks::fixed::SCALE;

#[test]
fn sine_at_the_quarter_turns() {
    assert_eq!(sine(0), 0);
    assert_eq!(sine(QUARTER_TURN), SCALE);
    assert_eq!(sine(HALF_TURN), 0);
    assert_eq!(sine(HALF_TURN + QUARTER_TURN), -SCALE);
    assert_eq!(sine(SCALE), 0);
}

#[test]
fn cosine_at_the_quarter_turns() {
    assert_eq!(cosine(0), SCALE);
    assert_eq!(cosine(QUARTER_TURN), 0);
    assert_eq!(cosine(HALF_TURN), -SCALE);
    assert_eq!(cosine(HALF_TURN + QUARTER_TURN), 0);
}

#[test]
fn sine_exact_values() {
    assert_eq!(sine(100_000), 587_155);
    assert_eq!(sine(83_333), 499_998);
    assert_eq!(sine(600_000), -587_155);
    assert_eq!(cosine(100_000), 807_692);
}

#[test]
fn sine_wraps_around_the_turn() {
    assert_eq!(sine(-100_000), -587_155);
    assert_eq!(cosine(-100_000), 807_692);
    assert_eq!(sine(100_000 + 3 * SCALE), 587_155);
    assert_eq!(sine(100_000 - 5 * SCALE), 587_155);
    assert_eq!(sine(i64::MAX), sine(i64::MAX % SCALE));
    assert_eq!(sine(i64::MIN), sine(i64::MIN % SCALE + SCALE));
}

#[test]
fn sine_stays_close_to_the_true_sine() {
    let mut turn: i64 = 0;
    while turn < SCALE {
        let angle = 2.0 * std::f64::consts::PI * (turn as f64) / (SCALE as f64);
        let s = sine(turn) as f64 / SCALE as f64;
        let c = cosine(turn) as f64 / SCALE as f64;
        assert!((s - angle.sin()).abs() < 0.002);
        assert!((c - angle.cos()).abs() < 0.002);
        assert!(sine(turn).abs() <= SCALE);
        assert!(cosine(turn).abs() <= SCALE);
        turn += 997;
    }
}

#[test]
fn retention_is_the_quadratic_of_the_decay_time() {
    assert_eq!(
        RETENTION,
        SCALE - SCALE / DECAY_TIME + SCALE / (2 * DECAY_TIME * DECAY_TIME)
    );
}

#[test]
fn decay_exact_values() {
    assert_eq!(decay(0), 1_000_000);
    assert_eq!(decay(1), 998_002);
    assert_eq!(decay(2), 996_007);
    assert_eq!(decay(10), 980_198);
    assert_eq!(decay(500), 367_879);
    assert_eq!(decay(1000), 135_335);
    assert_eq!(decay(1500), 49_787);
    assert_eq!(decay(2000), 18_315);
}

#[test]
fn decay_dies_out() {
    assert_eq!(decay(5000), 45);
    assert_eq!(decay(6907), 1);
    assert_eq!(decay(6908), 0);
    assert_eq!(decay(20_000), 0);
    assert_eq!(decay(u64::MAX), 0);
}

#[test]
fn decay_never_grows() {
    let mut before = decay(0);
    let mut ms: u64 = 1;
    while ms < 7000 {
        let now = decay(ms);
        assert!(now <= before);
        assert!(now >= 0);
        before = now;
        ms += 1;
    }
}

#[test]
fn decay_stays_close_to_the_true_exponential() {
    let mut ms: u64 = 0;
    while ms < 8000 {
        let exact = (-(ms as f64) / 500.0).exp() * SCALE as f64;
        let d = decay(ms) as f64;
        assert!((d - exact).abs() < 1.0);
        ms += 7;
    }
}
