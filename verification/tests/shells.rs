use fireworks::fixed::SCALE;
use fireworks::random::{BloomDraws, LaunchDraws, MotorDraws};
use fireworks::shells::accelerator::{Accelerator, AcceleratorKind};
use fireworks::shells::movement::{Lifetime, Velocity};
use fireworks::shells::projectile::Projectile;
use fireworks::shells::{
    bees_firework, blooming_shells, classic_firework, drawn_firework, firework, shared_motor,
    weigh, Recipe, Shell, Shells,
};
use fireworks::timer::Timer;
use fireworks::vector::Vector2;
use rand::rngs::StdRng;
use rand::SeedableRng;

fn leaf() -> Shell {
    Shell {
        projectile: Projectile {
            velocity: Velocity(Vector2::zero()),
            life: Lifetime(Timer::new(SCALE)),
            image: 0,
            accelerator: None,
        },
        shells: None,
    }
}

fn node(children: Vec<Shell>) -> Shell {
    let mut shell = leaf();
    shell.shells = Some(Shells { shells: children });
    shell
}

fn still() -> BloomDraws {
    BloomDraws { speed: 0, life: 0, angle: 0, kick: Vector2::zero() }
}

#[test]
fn recipes_go_by_their_names() {
    assert_eq!(Recipe::from_name("classic"), Some(Recipe::Classic));
    assert_eq!(Recipe::from_name("bees"), Some(Recipe::Bees));
}

#[test]
fn unknown_recipe_name_is_not_found() {
    assert_eq!(Recipe::from_name(""), None);
    assert_eq!(Recipe::from_name("Classic"), None);
    assert_eq!(Recipe::from_name("classic "), None);
    assert_eq!(Recipe::from_name("swarm"), None);
    assert_eq!(Recipe::from_name("beesclassic"), None);
}

#[test]
fn recipes_differ_in_children_and_policy() {
    assert_eq!(Recipe::Classic.children(), 40);
    assert_eq!(Recipe::Bees.children(), 50);
    assert_eq!(Recipe::Classic.policy(), AcceleratorKind::NegativeGravity);
    assert_eq!(Recipe::Bees.policy(), AcceleratorKind::Randomize);
}

#[test]
fn default_shells_are_none() {
    assert_eq!(Shells::default().shells.len(), 0);
}

#[test]
fn shared_motor_spans() {
    let low = shared_motor(AcceleratorKind::Randomize, MotorDraws { thrust: 0, burn: 0 });
    assert_eq!(
        low,
        Accelerator {
            accelerator: AcceleratorKind::Randomize,
            burn_time: Timer::new(1_500_000),
            thrust: 8 * SCALE,
        }
    );
    let high = shared_motor(
        AcceleratorKind::NegativeGravity,
        MotorDraws { thrust: SCALE - 1, burn: SCALE - 1 },
    );
    assert_eq!(high.accelerator, AcceleratorKind::NegativeGravity);
    assert_eq!(high.thrust, 9_999_998);
    assert_eq!(high.burn_time, Timer::new(1_999_999));
    let middle = shared_motor(AcceleratorKind::Exponential, MotorDraws { thrust: 500_000, burn: 500_000 });
    assert_eq!(middle.thrust, 9 * SCALE);
    assert_eq!(middle.burn_time, Timer::new(1_750_000));
}

#[test]
fn child_with_the_lowest_draws() {
    let motor = shared_motor(AcceleratorKind::NegativeGravity, MotorDraws { thrust: 0, burn: 0 });
    let shells = blooming_shells(5, &motor, &vec![still()]);
    assert_eq!(shells.len(), 1);
    assert_eq!(shells[0].shells, None);
    assert_eq!(shells[0].projectile.velocity.0, Vector2::new(25 * SCALE, 0));
    assert_eq!(shells[0].projectile.life.0, Timer::new(2 * SCALE));
    assert_eq!(shells[0].projectile.image, 5);
    assert_eq!(shells[0].projectile.accelerator, Some(motor));
}

#[test]
fn child_leaves_at_its_angle() {
    let motor = shared_motor(AcceleratorKind::NegativeGravity, MotorDraws { thrust: 0, burn: 0 });
    let up = BloomDraws { speed: SCALE - 1, life: SCALE - 1, angle: 250_000, kick: Vector2::zero() };
    let left = BloomDraws { speed: 500_000, life: 500_000, angle: 500_000, kick: Vector2::zero() };
    let shells = blooming_shells(5, &motor, &vec![up, left]);
    assert_eq!(shells.len(), 2);
    assert_eq!(shells[0].projectile.velocity.0, Vector2::new(0, 49_999_975));
    assert_eq!(shells[0].projectile.life.0, Timer::new(2_999_999));
    assert_eq!(shells[1].projectile.velocity.0, Vector2::new(-37_500_000, 0));
    assert_eq!(shells[1].projectile.life.0, Timer::new(2_500_000));
}

#[test]
fn policy_that_holds_against_gravity_ignores_the_kick() {
    let motor = shared_motor(AcceleratorKind::NegativeGravity, MotorDraws { thrust: 0, burn: 0 });
    let kicked = BloomDraws { speed: 0, life: 0, angle: 0, kick: Vector2::new(SCALE, SCALE) };
    let shells = blooming_shells(5, &motor, &vec![kicked]);
    assert_eq!(shells[0].projectile.velocity.0, Vector2::new(25 * SCALE, 0));
}

#[test]
fn policy_that_jolts_kicks_each_child_once_as_it_is_built() {
    let motor = shared_motor(AcceleratorKind::Randomize, MotorDraws { thrust: 500_000, burn: 0 });
    let kicked = BloomDraws {
        speed: SCALE - 1,
        life: 0,
        angle: 250_000,
        kick: Vector2::new(SCALE, -SCALE / 2),
    };
    let shells = blooming_shells(5, &motor, &vec![kicked, still()]);
    assert_eq!(shells[0].projectile.velocity.0, Vector2::new(9 * SCALE, 45_499_975));
    assert_eq!(shells[1].projectile.velocity.0, Vector2::new(25 * SCALE, 0));
    assert_eq!(shells[0].projectile.accelerator, Some(motor));
    assert_eq!(shells[0].projectile.accelerator.unwrap().burn_time.elapsed, 0);
}

#[test]
fn no_draws_give_no_children() {
    let motor = shared_motor(AcceleratorKind::Randomize, MotorDraws { thrust: 0, burn: 0 });
    assert_eq!(blooming_shells(5, &motor, &Vec::new()).len(), 0);
}

#[test]
fn firework_is_a_launch_that_carries_its_children() {
    let launch = LaunchDraws { velocity_x: 500_000, velocity_y: 0, life: 0, thrust: 0, burn: 0 };
    let motor = MotorDraws { thrust: 0, burn: 500_000 };
    let bloom = vec![still(), still(), still()];
    let shell = firework(Recipe::Bees, 1, 2, launch, motor, &bloom);
    assert_eq!(shell.projectile.velocity.0, Vector2::new(0, 250 * SCALE));
    assert_eq!(shell.projectile.image, 1);
    assert_eq!(
        shell.projectile.accelerator.unwrap().accelerator,
        AcceleratorKind::NegativeGravity
    );
    let children = shell.shells.unwrap().shells;
    assert_eq!(children.len(), 3);
    for child in children.iter() {
        assert_eq!(child.projectile.image, 2);
        assert_eq!(child.shells, None);
        assert_eq!(
            child.projectile.accelerator,
            Some(Accelerator {
                accelerator: AcceleratorKind::Randomize,
                burn_time: Timer::new(1_750_000),
                thrust: 8 * SCALE,
            })
        );
    }
}

#[test]
fn firework_is_a_function_of_its_draws() {
    let launch = LaunchDraws { velocity_x: 1, velocity_y: 22, life: 333, thrust: 4_444, burn: 55_555 };
    let motor = MotorDraws { thrust: 666_666, burn: 777_777 };
    let bloom = vec![
        BloomDraws { speed: 10, life: 20, angle: 30, kick: Vector2::new(40, 50) },
        BloomDraws { speed: 999_999, life: 0, angle: 654_321, kick: Vector2::new(-999_999, SCALE) },
    ];
    let one = firework(Recipe::Bees, 1, 2, launch, motor, &bloom);
    let other = firework(Recipe::Bees, 1, 2, launch, motor, &bloom);
    assert_eq!(one, other);
    assert_ne!(one, firework(Recipe::Classic, 1, 2, launch, motor, &bloom));
}

#[test]
fn drawn_fireworks_have_the_children_of_their_recipe() {
    let mut rng = StdRng::seed_from_u64(11);
    let classic = classic_firework(1, 2, &mut rng);
    let bees = bees_firework(1, 3, &mut rng);
    assert_eq!(classic.shells.as_ref().unwrap().shells.len(), 40);
    assert_eq!(bees.shells.as_ref().unwrap().shells.len(), 50);
    for child in classic.shells.as_ref().unwrap().shells.iter() {
        assert_eq!(child.projectile.image, 2);
        assert_eq!(
            child.projectile.accelerator.unwrap().accelerator,
            AcceleratorKind::NegativeGravity
        );
    }
    for child in bees.shells.as_ref().unwrap().shells.iter() {
        assert_eq!(child.projectile.image, 3);
        assert_eq!(child.projectile.accelerator.unwrap().accelerator, AcceleratorKind::Randomize);
    }
}

#[test]
fn drawn_fireworks_keep_to_their_spans() {
    let mut rng = StdRng::seed_from_u64(12);
    let mut round = 0;
    while round < 50 {
        let shell = drawn_firework(Recipe::Classic, 1, 2, &mut rng);
        let root = shell.projectile;
        assert!(-25 * SCALE <= root.velocity.0.x && root.velocity.0.x <= 25 * SCALE);
        assert!(250 * SCALE <= root.velocity.0.y && root.velocity.0.y <= 300 * SCALE);
        assert!(3 * SCALE <= root.life.0.duration && root.life.0.duration <= 4 * SCALE);
        assert_eq!(root.life.0.elapsed, 0);
        let motor = root.accelerator.unwrap();
        assert_eq!(motor.accelerator, AcceleratorKind::NegativeGravity);
        assert!(1000 * SCALE <= motor.thrust && motor.thrust <= 1500 * SCALE);
        assert!(SCALE <= motor.burn_time.duration && motor.burn_time.duration <= 1_500_000);
        let children = shell.shells.unwrap().shells;
        let shared = children[0].projectile.accelerator.unwrap();
        assert!(8 * SCALE <= shared.thrust && shared.thrust <= 10 * SCALE);
        assert!(1_500_000 <= shared.burn_time.duration && shared.burn_time.duration <= 2 * SCALE);
        for child in children.iter() {
            let v = child.projectile.velocity.0;
            let speed = v.length();
            assert!(25 * SCALE - 2 <= speed && speed <= 50 * SCALE);
            let life = child.projectile.life.0;
            assert!(2 * SCALE <= life.duration && life.duration <= 3 * SCALE);
            assert_eq!(life.elapsed, 0);
            assert_eq!(child.projectile.accelerator, Some(shared));
        }
        round += 1;
    }
}

#[test]
fn same_seed_gives_the_same_firework() {
    let mut a = StdRng::seed_from_u64(7);
    let mut b = StdRng::seed_from_u64(7);
    assert_eq!(bees_firework(1, 2, &mut a), bees_firework(1, 2, &mut b));
    assert_eq!(classic_firework(1, 2, &mut a), classic_firework(1, 2, &mut b));
    let mut c = StdRng::seed_from_u64(8);
    assert_ne!(bees_firework(1, 2, &mut a), bees_firework(1, 2, &mut c));
}

#[test]
fn weigh_counts_the_shells_of_a_tree() {
    assert_eq!(weigh(&leaf(), 10), Some(9));
    assert_eq!(weigh(&leaf(), 1), Some(0));
    assert_eq!(weigh(&leaf(), 0), None);
    let tree = node(vec![leaf(), node(vec![leaf(), leaf()]), node(Vec::new())]);
    assert_eq!(weigh(&tree, 100), Some(94));
    assert_eq!(weigh(&tree, 6), Some(0));
    assert_eq!(weigh(&tree, 5), None);
    assert_eq!(weigh(&tree, u64::MAX), Some(u64::MAX - 6));
}

#[test]
fn child_leaves_at_its_speed_at_every_angle() {
    let motor = shared_motor(AcceleratorKind::NegativeGravity, MotorDraws { thrust: 0, burn: 0 });
    let mut draws = Vec::new();
    let mut angle: i64 = 0;
    while angle < SCALE {
        draws.push(BloomDraws { speed: 0, life: 0, angle, kick: Vector2::zero() });
        draws.push(BloomDraws { speed: SCALE - 1, life: 0, angle, kick: Vector2::zero() });
        angle += 991;
    }
    draws.push(BloomDraws { speed: 0, life: 0, angle: 125_324, kick: Vector2::zero() });
    let shells = blooming_shells(5, &motor, &draws);
    for (child, drawn) in shells.iter().zip(draws.iter()) {
        let speed = if drawn.speed == 0 { 25 * SCALE } else { 49_999_975 };
        let length = child.projectile.velocity.0.length();
        assert!(speed - 2 <= length && length <= speed);
    }
    assert_eq!(
        shells[shells.len() - 1].projectile.velocity.0,
        Vector2::new(17_641_695, 17_713_570)
    );
}

#[test]
fn jolted_child_stays_within_the_thrust_of_its_speed() {
    let mut rng = StdRng::seed_from_u64(13);
    let shell = bees_firework(1, 2, &mut rng);
    let children = shell.shells.unwrap().shells;
    let thrust = children[0].projectile.accelerator.unwrap().thrust as f64 / SCALE as f64;
    for child in children.iter() {
        let v = child.projectile.velocity.0;
        let length = ((v.x as f64).hypot(v.y as f64)) / SCALE as f64;
        assert!(length >= 25.0 - thrust * std::f64::consts::SQRT_2 - 0.001);
        assert!(length <= 50.0 + thrust * std::f64::consts::SQRT_2 + 0.001);
    }
}
