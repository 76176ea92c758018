use fireworks::fixed::SCALE;
use fireworks::shells::accelerator::{
    exponential_accelerator, gravity, negative_gravity, randomize_accelerator, Accelerator,
    AcceleratorKind, GRAVITY_Y,
};
use fireworks::shells::movement::Velocity;
use fireworks::timer::Timer;
use fireworks::vector::Vector2;

#[test]
fn gravity_pulls_down_at_sixty() {
    assert_eq!(GRAVITY_Y, -60 * SCALE);
    assert_eq!(gravity(), Vector2::new(0, -60 * SCALE));
}

#[test]
fn negative_gravity_adds_what_gravity_takes() {
    let mut velocity = Velocity(Vector2::new(0, 40 * SCALE));
    negative_gravity(1000 * SCALE, &mut velocity, SCALE, &Timer::new(SCALE));
    assert_eq!(velocity, Velocity(Vector2::new(0, 100 * SCALE)));
}

#[test]
fn negative_gravity_cancels_gravity_in_the_same_tick() {
    let start = Vector2::new(7 * SCALE, 250 * SCALE);
    let dt = 16_667;
    let mut velocity = Velocity(start.plus(gravity().scaled(dt)));
    assert_eq!(velocity.0, Vector2::new(7 * SCALE, 248_999_980));
    negative_gravity(0, &mut velocity, dt, &Timer::new(SCALE));
    assert_eq!(velocity.0, start);
}

#[test]
fn negative_gravity_for_no_time_changes_nothing() {
    let mut velocity = Velocity(Vector2::new(-3, 9));
    negative_gravity(1000 * SCALE, &mut velocity, 0, &Timer::new(SCALE));
    assert_eq!(velocity.0, Vector2::new(-3, 9));
}

#[test]
fn randomize_gives_an_impulse_along_the_kick() {
    let mut velocity = Velocity(Vector2::new(25 * SCALE, 0));
    let kick = Vector2::new(SCALE, -999_998);
    randomize_accelerator(8 * SCALE, &mut velocity, 16_667, &Timer::new(SCALE), kick);
    assert_eq!(velocity.0, Vector2::new(33 * SCALE, -7_999_984));
}

#[test]
fn randomize_does_not_depend_on_time() {
    let kick = Vector2::new(-500_000, 250_000);
    let mut short = Velocity(Vector2::new(SCALE, SCALE));
    let mut long = Velocity(Vector2::new(SCALE, SCALE));
    randomize_accelerator(10 * SCALE, &mut short, 0, &Timer::new(SCALE), kick);
    randomize_accelerator(10 * SCALE, &mut long, 5 * SCALE, &Timer::new(SCALE), kick);
    assert_eq!(short, long);
    assert_eq!(short.0, Vector2::new(-4 * SCALE, 3_500_000));
}

#[test]
fn exponential_pushes_along_the_flight() {
    let mut velocity = Velocity(Vector2::new(0, 50 * SCALE));
    exponential_accelerator(1000 * SCALE, &mut velocity, SCALE / 10, &Timer::new(SCALE));
    assert_eq!(velocity.0, Vector2::new(0, 150 * SCALE));
}

#[test]
fn exponential_decays_with_the_burn_time() {
    let burn = Timer { duration: SCALE, elapsed: 250_000 };
    let mut velocity = Velocity(Vector2::new(3 * SCALE, 4 * SCALE));
    exponential_accelerator(1000 * SCALE, &mut velocity, 16_667, &burn);
    assert_eq!(velocity.0, Vector2::new(9_065_421, 12_087_228));
}

#[test]
fn exponential_reads_whole_milliseconds() {
    let early = Timer { duration: SCALE, elapsed: 250_000 };
    let late = Timer { duration: SCALE, elapsed: 250_999 };
    let mut a = Velocity(Vector2::new(3 * SCALE, 4 * SCALE));
    let mut b = Velocity(Vector2::new(3 * SCALE, 4 * SCALE));
    exponential_accelerator(1000 * SCALE, &mut a, 16_667, &early);
    exponential_accelerator(1000 * SCALE, &mut b, 16_667, &late);
    assert_eq!(a, b);
}

#[test]
fn exponential_leaves_a_velocity_without_direction_alone() {
    let mut still = Velocity(Vector2::zero());
    exponential_accelerator(1000 * SCALE, &mut still, SCALE, &Timer::new(SCALE));
    assert_eq!(still.0, Vector2::zero());
    let mut slow = Velocity(Vector2::new(600, -700));
    exponential_accelerator(1000 * SCALE, &mut slow, SCALE, &Timer::new(SCALE));
    assert_eq!(slow.0, Vector2::new(600, -700));
}

#[test]
fn exponential_matches_the_true_curve() {
    let burn = Timer { duration: 2 * SCALE, elapsed: 700_000 };
    let mut velocity = Velocity(Vector2::new(30 * SCALE, 40 * SCALE));
    exponential_accelerator(100 * SCALE, &mut velocity, 20_000, &burn);
    let gain = 100.0 * (-700.0f64 / 500.0).exp() * 0.02;
    let x = 30.0 + 0.6 * gain;
    let y = 40.0 + 0.8 * gain;
    assert!((velocity.0.x as f64 / SCALE as f64 - x).abs() < 0.001);
    assert!((velocity.0.y as f64 / SCALE as f64 - y).abs() < 0.001);
}

#[test]
fn get_velocity_follows_the_policy() {
    let burn_time = Timer { duration: SCALE, elapsed: 250_000 };
    let kick = Vector2::new(SCALE, -999_998);

    let holds = Accelerator { accelerator: AcceleratorKind::NegativeGravity, burn_time, thrust: 8 * SCALE };
    let mut velocity = Velocity(Vector2::new(0, 40 * SCALE));
    holds.get_velocity(&mut velocity, SCALE, kick);
    assert_eq!(velocity.0, Vector2::new(0, 100 * SCALE));

    let jolts = Accelerator { accelerator: AcceleratorKind::Randomize, burn_time, thrust: 8 * SCALE };
    let mut velocity = Velocity(Vector2::new(25 * SCALE, 0));
    jolts.get_velocity(&mut velocity, SCALE, kick);
    assert_eq!(velocity.0, Vector2::new(33 * SCALE, -7_999_984));

    let pushes = Accelerator { accelerator: AcceleratorKind::Exponential, burn_time, thrust: 1000 * SCALE };
    let mut velocity = Velocity(Vector2::new(3 * SCALE, 4 * SCALE));
    pushes.get_velocity(&mut velocity, 16_667, kick);
    assert_eq!(velocity.0, Vector2::new(9_065_421, 12_087_228));
}
