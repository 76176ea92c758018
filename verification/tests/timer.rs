use fireworks::timer::Timer;

#[test]
fn zero_duration_timer_is_finished_before_any_tick() {
    let timer = Timer::new(0);
    assert!(timer.finished());
    assert_eq!(timer.elapsed, 0);
    assert_eq!(timer.duration, 0);
}

#[test]
fn new_timer_has_not_run() {
    let timer = Timer::new(3_000_000);
    assert_eq!(timer, Timer { duration: 3_000_000, elapsed: 0 });
    assert!(!timer.finished());
    assert_eq!(timer.remaining(), 3_000_000);
}

#[test]
fn negative_duration_counts_as_none() {
    let timer = Timer::new(-5);
    assert_eq!(timer, Timer { duration: 0, elapsed: 0 });
    assert!(timer.finished());
}

#[test]
fn tick_adds_to_elapsed() {
    let mut timer = Timer::new(10_000_000);
    timer.tick(1_000_000);
    assert_eq!(timer.elapsed, 1_000_000);
    assert_eq!(timer.remaining(), 9_000_000);
    assert!(!timer.finished());
    timer.tick(2_500_000);
    assert_eq!(timer.elapsed, 3_500_000);
}

#[test]
fn tick_takes_negative_time_for_none() {
    let mut timer = Timer::new(10_000_000);
    timer.tick(4_000_000);
    timer.tick(-1_000_000);
    assert_eq!(timer.elapsed, 4_000_000);
    timer.tick(i64::MIN);
    assert_eq!(timer.elapsed, 4_000_000);
}

#[test]
fn timer_finishes_when_elapsed_reaches_duration() {
    let mut timer = Timer::new(3_000_000);
    timer.tick(2_999_999);
    assert!(!timer.finished());
    timer.tick(1);
    assert!(timer.finished());
    assert_eq!(timer.remaining(), 0);
}

#[test]
fn last_tick_may_overshoot() {
    let mut timer = Timer::new(3_000_000);
    timer.tick(2_000_000);
    timer.tick(5_000_000);
    assert!(timer.finished());
    assert_eq!(timer.elapsed, 7_000_000);
}

#[test]
fn finished_timer_stands_still() {
    let mut timer = Timer::new(3_000_000);
    timer.tick(3_000_000);
    let done = timer;
    timer.tick(1_000_000);
    assert_eq!(timer, done);
    let mut none = Timer::new(0);
    none.tick(1_000_000);
    assert_eq!(none, Timer { duration: 0, elapsed: 0 });
}

#[test]
fn tick_saturates() {
    let mut timer = Timer { duration: i64::MAX, elapsed: i64::MAX - 5 };
    timer.tick(100);
    assert_eq!(timer.elapsed, i64::MAX);
    assert!(timer.finished());
}

#[test]
fn reset_winds_back() {
    let mut timer = Timer::new(3_000_000);
    timer.tick(5_000_000);
    timer.reset();
    assert_eq!(timer, Timer { duration: 3_000_000, elapsed: 0 });
    assert!(!timer.finished());
}

#[test]
fn remaining_saturates() {
    let timer = Timer { duration: i64::MAX, elapsed: i64::MIN };
    assert_eq!(timer.remaining(), i64::MAX);
}
