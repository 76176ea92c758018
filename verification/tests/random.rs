use fireworks::fixed::SCALE;
use fireworks::random::{bloom_draws, fraction, jitter, jitters, launch_draws, motor_draws};
use rand::rngs::StdRng;
use rand::SeedableRng;

#[test]
fn fractions_lie_between_zero_and_one() {
    let mut rng = StdRng::seed_from_u64(1);
    let mut low = 0;
    let mut high = 0;
    let mut n = 0;
    while n < 10_000 {
        let u = fraction(&mut rng);
        assert!(0 <= u && u < SCALE);
        if u < SCALE / 2 {
            low += 1;
        } else {
            high += 1;
        }
        n += 1;
    }
    assert!(low > 4_500 && high > 4_500);
}

#[test]
fn jitters_lie_between_minus_one_and_one() {
    let mut rng = StdRng::seed_from_u64(2);
    let mut n = 0;
    let mut negative = 0;
    while n < 10_000 {
        let kick = jitter(&mut rng);
        assert!(-SCALE < kick.x && kick.x <= SCALE);
        assert!(-SCALE < kick.y && kick.y <= SCALE);
        if kick.x < 0 {
            negative += 1;
        }
        n += 1;
    }
    assert!(negative > 4_500 && negative < 5_500);
}

#[test]
fn launch_and_motor_draws_are_fractions() {
    let mut rng = StdRng::seed_from_u64(3);
    let launch = launch_draws(&mut rng);
    for u in [launch.velocity_x, launch.velocity_y, launch.life, launch.thrust, launch.burn] {
        assert!(0 <= u && u < SCALE);
    }
    let motor = motor_draws(&mut rng);
    for u in [motor.thrust, motor.burn] {
        assert!(0 <= u && u < SCALE);
    }
}

#[test]
fn bloom_draws_come_in_the_number_asked_for() {
    let mut rng = StdRng::seed_from_u64(4);
    assert_eq!(bloom_draws(&mut rng, 0).len(), 0);
    let draws = bloom_draws(&mut rng, 50);
    assert_eq!(draws.len(), 50);
    for drawn in draws.iter() {
        for u in [drawn.speed, drawn.life, drawn.angle] {
            assert!(0 <= u && u < SCALE);
        }
        assert!(-SCALE < drawn.kick.x && drawn.kick.x <= SCALE);
        assert!(-SCALE < drawn.kick.y && drawn.kick.y <= SCALE);
    }
    assert_eq!(jitters(&mut rng, 7).len(), 7);
    assert_eq!(jitters(&mut rng, 0).len(), 0);
}

#[test]
fn same_seed_gives_the_same_draws() {
    let mut a = StdRng::seed_from_u64(99);
    let mut b = StdRng::seed_from_u64(99);
    assert_eq!(launch_draws(&mut a), launch_draws(&mut b));
    assert_eq!(motor_draws(&mut a), motor_draws(&mut b));
    assert_eq!(bloom_draws(&mut a, 40), bloom_draws(&mut b, 40));
    assert_eq!(jitters(&mut a, 40), jitters(&mut b, 40));
}

#[test]
fn angles_cover_the_turn_evenly() {
    let mut rng = StdRng::seed_from_u64(5);
    let draws = bloom_draws(&mut rng, 40_000);
    let mut sectors = [0u32; 8];
    for drawn in draws.iter() {
        sectors[(drawn.angle * 8 / SCALE) as usize] += 1;
    }
    for count in sectors {
        assert!(count > 4_500 && count < 5_500);
    }
}

#[test]
fn jitter_is_one_less_twice_a_fraction() {
    let mut rng = StdRng::seed_from_u64(6);
    let mut n = 0;
    while n < 10_000 {
        let kick = jitter(&mut rng);
        for coordinate in [kick.x, kick.y] {
            let twice = SCALE - coordinate;
            assert_eq!(twice % 2, 0);
            assert!(0 <= twice / 2 && twice / 2 < SCALE);
        }
        n += 1;
    }
}
