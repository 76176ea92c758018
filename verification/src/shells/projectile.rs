//! A shell in flight.

use vstd::prelude::*;
use crate::fixed::{elapse, elapse_spec, span, span_spec};
use crate::random::LaunchDraws;
use crate::shells::accelerator::{gravity, gravity_spec, Accelerator, AcceleratorKind};
use crate::shells::movement::{Lifetime, Velocity};
use crate::timer::Timer;
use crate::vector::Vector2;

verus! {

/// A shell in flight: its velocity, the countdown to its burst, the image
/// that shows it, and its motor while that burns.
///
/// `image` is the host's handle for what it draws; nothing here reads it.
#[derive(Clone, Copy, Debug, PartialEq, Eq)]
pub struct Projectile {
    pub velocity: Velocity,
    pub life: Lifetime,
    pub image: u64,
    pub accelerator: Option<Accelerator>,
}

impl Projectile {
    /// The projectile after `duration` of flight, with `kick` as the jitter
    /// of this step; a negative `duration` counts as none.
    ///
    /// Gravity pulls first. A motor that still burns then burns on for the
    /// same time and works on the velocity that gravity left. A motor that
    /// has burnt out, now or before, is dropped for good.
    pub open spec fn accelerate_spec(&self, duration: int, kick: Vector2) -> Projectile {
        let dt = elapse_spec(duration);
        let pulled = self.velocity.0.plus_spec(gravity_spec().scaled_spec(dt));
        match self.accelerator {
            None => Projectile {
                velocity: Velocity(pulled),
                life: self.life,
                image: self.image,
                accelerator: None,
            },
            Some(motor) => {
                if motor.burn_time.finished_spec() {
                    Projectile {
                        velocity: Velocity(pulled),
                        life: self.life,
                        image: self.image,
                        accelerator: None,
                    }
                } else {
                    let burning = Accelerator {
                        accelerator: motor.accelerator,
                        burn_time: motor.burn_time.tick_spec(dt),
                        thrust: motor.thrust,
                    };
                    Projectile {
                        velocity: Velocity(burning.get_velocity_spec(pulled, dt, kick)),
                        life: self.life,
                        image: self.image,
                        accelerator: if burning.burn_time.finished_spec() {
                            None
                        } else {
                            Some(burning)
                        },
                    }
                }
            },
        }
    }

    /// The projectile with its countdowns wound back to their start.
    pub open spec fn rewound_spec(&self) -> Projectile {
        Projectile {
            velocity: self.velocity,
            life: Lifetime(Timer { duration: self.life.0.duration, elapsed: 0 }),
            image: self.image,
            accelerator: match self.accelerator {
                None => None,
                Some(motor) => Some(
                    Accelerator {
                        accelerator: motor.accelerator,
                        burn_time: Timer { duration: motor.burn_time.duration, elapsed: 0 },
                        thrust: motor.thrust,
                    },
                ),
            },
        }
    }

    /// Winds the countdowns back to their start, as for a shell that a burst
    /// has just released.
    pub fn rewound(&self) -> (projectile: Projectile)
        ensures
            projectile == self.rewound_spec(),
    {
        let mut life = self.life;
        life.0.reset();
        let accelerator = match self.accelerator {
            None => None,
            Some(motor) => {
                let mut motor = motor;
                motor.burn_time.reset();
                Some(motor)
            },
        };
        Projectile { velocity: self.velocity, life, image: self.image, accelerator }
    }

    /// Lets `duration` of flight pass for the velocity and the motor.
    pub fn accelerate(&mut self, duration: i64, kick: Vector2)
        ensures
            *final(self) == old(self).accelerate_spec(duration as int, kick),
    {
        let dt = elapse(duration);
        self.velocity.0 = self.velocity.0.plus(gravity().scaled(dt));
        match self.accelerator {
            None => {},
            Some(motor) => {
                let mut motor = motor;
                if !motor.burn_time.finished() {
                    motor.burn_time.tick(dt);
                    motor.get_velocity(&mut self.velocity, dt, kick);
                }
                if motor.burn_time.finished() {
                    self.accelerator = None;
                } else {
                    self.accelerator = Some(motor);
                }
            },
        }
    }

    /// The projectile after a tick of `dt`: its velocity and its motor as
    /// [`Projectile::accelerate_spec`] leaves them, and its lifetime `dt`
    /// further on.
    pub open spec fn step_spec(&self, dt: int, kick: Vector2) -> Projectile {
        let flown = self.accelerate_spec(dt, kick);
        Projectile {
            velocity: flown.velocity,
            life: Lifetime(flown.life.0.tick_spec(dt)),
            image: flown.image,
            accelerator: flown.accelerator,
        }
    }

    /// The way that the projectile makes in `dt` at the velocity it has:
    /// `velocity * dt`, and none for a negative `dt`.
    pub open spec fn displacement_spec(&self, dt: int) -> Vector2 {
        self.velocity.0.scaled_spec(elapse_spec(dt))
    }

    /// Lets a tick of `dt` pass: the velocity and the motor go first, then
    /// the lifetime. Gives back the way made in this tick, which is taken at
    /// the velocity that the tick has left.
    pub fn step(&mut self, dt: i64, kick: Vector2) -> (way: Vector2)
        ensures
            *final(self) == old(self).step_spec(dt as int, kick),
            way == final(self).displacement_spec(dt as int),
    {
        self.accelerate(dt, kick);
        self.life.0.tick(dt);
        self.velocity.0.scaled(elapse(dt))
    }
}

/// The shell that a launch from the ground sends up, for the given draws.
///
/// It rises at 250 to 300 units per second, drifts sideways at up to 25,
/// lives for three to four seconds, and holds against gravity for the first
/// one to one and a half of them.
pub open spec fn launch_spec(image: u64, draws: LaunchDraws) -> Projectile {
    let velocity = Vector2 {
        x: span_spec(-25_000_000, 50_000_000, draws.velocity_x as int) as i64,
        y: span_spec(250_000_000, 50_000_000, draws.velocity_y as int) as i64,
    };
    let motor = Accelerator {
        accelerator: AcceleratorKind::NegativeGravity,
        burn_time: Timer::new_spec(span_spec(1_000_000, 500_000, draws.burn as int)),
        thrust: span_spec(1_000_000_000, 500_000_000, draws.thrust as int) as i64,
    };
    Projectile {
        velocity: Velocity(motor.get_velocity_spec(velocity, 0, Vector2::zero_spec())),
        life: Lifetime(Timer::new_spec(span_spec(3_000_000, 1_000_000, draws.life as int))),
        image,
        accelerator: Some(motor),
    }
}

/// Builds the shell that a launch from the ground sends up.
pub fn straight_upward_moving_projectile(image: u64, draws: LaunchDraws) -> (projectile: Projectile)
    ensures
        projectile == launch_spec(image, draws),
{
    let mut velocity = Velocity(
        Vector2 {
            x: span(-25_000_000, 50_000_000, draws.velocity_x),
            y: span(250_000_000, 50_000_000, draws.velocity_y),
        },
    );
    let life = Lifetime(Timer::new(span(3_000_000, 1_000_000, draws.life)));
    let thrust = span(1_000_000_000, 500_000_000, draws.thrust);
    let burn_time = Timer::new(span(1_000_000, 500_000, draws.burn));
    let accelerator = Accelerator { accelerator: AcceleratorKind::NegativeGravity, burn_time, thrust };
    accelerator.get_velocity(&mut velocity, 0, Vector2::zero());
    Projectile { velocity, life, image, accelerator: Some(accelerator) }
}

/// A projectile without a motor never gets one: each step adds what gravity
/// adds, and nothing else.
pub proof fn lemma_detached_stays_detached(projectile: Projectile, duration: int, kick: Vector2)
    requires
        projectile.accelerator is None,
    ensures
        projectile.accelerate_spec(duration, kick).accelerator is None,
        projectile.accelerate_spec(duration, kick).velocity.0 == projectile.velocity.0.plus_spec(
            gravity_spec().scaled_spec(elapse_spec(duration)),
        ),
{
}

/// A motor that has burnt out is dropped in the next step without being
/// applied.
pub proof fn lemma_spent_motor_is_dropped(projectile: Projectile, duration: int, kick: Vector2)
    requires
        projectile.accelerator is Some,
        projectile.accelerator->0.burn_time.finished_spec(),
    ensures
        projectile.accelerate_spec(duration, kick).accelerator is None,
        projectile.accelerate_spec(duration, kick).velocity.0 == projectile.velocity.0.plus_spec(
            gravity_spec().scaled_spec(elapse_spec(duration)),
        ),
{
}

/// After a step, a motor that is still attached still burns; and a motor is
/// attached after a step only if the same motor was attached before and, with
/// the time of this step added, has not burnt out.
pub proof fn lemma_attached_motor_burns(projectile: Projectile, duration: int, kick: Vector2)
    requires
        projectile.accelerate_spec(duration, kick).accelerator is Some,
    ensures
        !projectile.accelerate_spec(duration, kick).accelerator->0.burn_time.finished_spec(),
        projectile.accelerator is Some,
        !projectile.accelerator->0.burn_time.finished_spec(),
        projectile.accelerate_spec(duration, kick).accelerator->0.burn_time
            == projectile.accelerator->0.burn_time.tick_spec(elapse_spec(duration)),
        projectile.accelerate_spec(duration, kick).accelerator->0.accelerator
            == projectile.accelerator->0.accelerator,
        projectile.accelerate_spec(duration, kick).accelerator->0.thrust
            == projectile.accelerator->0.thrust,
{
}

/// No step touches the lifetime or the image.
pub proof fn lemma_accelerate_keeps_life(projectile: Projectile, duration: int, kick: Vector2)
    ensures
        projectile.accelerate_spec(duration, kick).life == projectile.life,
        projectile.accelerate_spec(duration, kick).image == projectile.image,
{
}

/// What a launch with fractions for draws sends up lies in the spans that
/// the recipe names, and its timers have not started.
pub proof fn lemma_launch_ranges(image: u64, draws: LaunchDraws)
    requires
        draws.valid(),
    ensures
        -25_000_000 <= launch_spec(image, draws).velocity.0.x <= 25_000_000,
        250_000_000 <= launch_spec(image, draws).velocity.0.y <= 300_000_000,
        3_000_000 <= launch_spec(image, draws).life.0.duration <= 4_000_000,
        launch_spec(image, draws).life.0.elapsed == 0,
        launch_spec(image, draws).image == image,
        launch_spec(image, draws).accelerator is Some,
        launch_spec(image, draws).accelerator->0.accelerator == AcceleratorKind::NegativeGravity,
        1_000_000_000 <= launch_spec(image, draws).accelerator->0.thrust <= 1_500_000_000,
        1_000_000 <= launch_spec(image, draws).accelerator->0.burn_time.duration <= 1_500_000,
        launch_spec(image, draws).accelerator->0.burn_time.elapsed == 0,
{
    crate::fixed::lemma_span_bounds(-25_000_000, 50_000_000, draws.velocity_x as int);
    crate::fixed::lemma_span_bounds(250_000_000, 50_000_000, draws.velocity_y as int);
    crate::fixed::lemma_span_bounds(3_000_000, 1_000_000, draws.life as int);
    crate::fixed::lemma_span_bounds(1_000_000_000, 500_000_000, draws.thrust as int);
    crate::fixed::lemma_span_bounds(1_000_000, 500_000, draws.burn as int);
}

} // verus!
