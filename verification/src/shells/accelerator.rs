//! The acceleration policies: what a motor does to a velocity while it burns.

use vstd::prelude::*;
use crate::curve::{decay, decay_spec};
use crate::fixed::{product, product_spec};
use crate::shells::movement::Velocity;
use crate::timer::Timer;
use crate::vector::Vector2;

verus! {

/// The pull of gravity along the y axis, in millionths of a unit per second
/// squared. There is none along the x axis.
pub const GRAVITY_Y: i64 = -60_000_000;

/// The pull of gravity.
pub open spec fn gravity_spec() -> Vector2 {
    Vector2 { x: 0, y: GRAVITY_Y }
}

/// The pull of gravity.
pub fn gravity() -> (g: Vector2)
    ensures
        g == gravity_spec(),
{
    Vector2 { x: 0, y: GRAVITY_Y }
}

/// The whole milliseconds in `elapsed` millionths of a second.
pub open spec fn millis_spec(elapsed: int) -> nat {
    if elapsed <= 0 {
        0
    } else {
        (elapsed / 1000) as nat
    }
}

/// The velocity after a motor has held against gravity for `d_time`:
/// `velocity - gravity * d_time`.
pub open spec fn negative_gravity_spec(velocity: Vector2, d_time: int) -> Vector2 {
    velocity.minus_spec(gravity_spec().scaled_spec(d_time))
}

/// The velocity after an impulse of the strength `thrust` along `kick`:
/// `velocity + thrust * kick`, whatever time has passed.
pub open spec fn randomize_spec(thrust: int, velocity: Vector2, kick: Vector2) -> Vector2 {
    velocity.plus_spec(kick.scaled_spec(thrust))
}

/// The velocity after a motor whose thrust decays has pushed along the
/// flight for `d_time`: `velocity + thrust * direction * decay * d_time`, the
/// decay taken at the milliseconds that `burn_time` has elapsed. A velocity
/// without direction is left as it is.
pub open spec fn exponential_spec(
    thrust: int,
    velocity: Vector2,
    d_time: int,
    burn_time: Timer,
) -> Vector2 {
    match velocity.direction_spec() {
        None => velocity,
        Some(direction) => {
            let gain = product_spec(thrust, decay_spec(millis_spec(burn_time.elapsed as int)));
            velocity.plus_spec(direction.scaled_spec(gain).scaled_spec(d_time))
        },
    }
}

/// Cancels what gravity adds to `velocity` in `d_time`.
pub fn negative_gravity(thrust: i64, velocity: &mut Velocity, d_time: i64, burn_time: &Timer)
    ensures
        final(velocity).0 == negative_gravity_spec(old(velocity).0, d_time as int),
{
    velocity.0 = velocity.0.minus(gravity().scaled(d_time));
}

/// Gives `velocity` an impulse of the strength `thrust` along `kick`.
pub fn randomize_accelerator(
    thrust: i64,
    velocity: &mut Velocity,
    d_time: i64,
    burn_time: &Timer,
    kick: Vector2,
)
    ensures
        final(velocity).0 == randomize_spec(thrust as int, old(velocity).0, kick),
{
    velocity.0 = velocity.0.plus(kick.scaled(thrust));
}

/// Pushes `velocity` along its own direction with a thrust that decays.
pub fn exponential_accelerator(
    thrust: i64,
    velocity: &mut Velocity,
    d_time: i64,
    burn_time: &Timer,
)
    ensures
        final(velocity).0 == exponential_spec(
            thrust as int,
            old(velocity).0,
            d_time as int,
            *burn_time,
        ),
{
    match velocity.0.direction() {
        None => {},
        Some(direction) => {
            let ms: u64 = if burn_time.elapsed <= 0 {
                0
            } else {
                (burn_time.elapsed / 1000) as u64
            };
            let gain = product(thrust, decay(ms));
            velocity.0 = velocity.0.plus(direction.scaled(gain).scaled(d_time));
        },
    }
}

/// The policies that a motor can follow.
#[derive(Clone, Copy, Debug, PartialEq, Eq)]
pub enum AcceleratorKind {
    /// Holds against gravity: see [`negative_gravity`].
    NegativeGravity,
    /// Jolts at random: see [`randomize_accelerator`].
    Randomize,
    /// Pushes along the flight, ever weaker: see [`exponential_accelerator`].
    Exponential,
}

/// A motor: a policy, the time for which it burns, and its thrust.
#[derive(Clone, Copy, Debug, PartialEq, Eq)]
pub struct Accelerator {
    pub accelerator: AcceleratorKind,
    pub burn_time: Timer,
    pub thrust: i64,
}

impl Accelerator {
    /// The velocity after the motor has worked on `velocity` for `d_time`,
    /// with `kick` as the jitter of this step.
    pub open spec fn get_velocity_spec(&self, velocity: Vector2, d_time: int, kick: Vector2)
        -> Vector2 {
        match self.accelerator {
            AcceleratorKind::NegativeGravity => negative_gravity_spec(velocity, d_time),
            AcceleratorKind::Randomize => randomize_spec(self.thrust as int, velocity, kick),
            AcceleratorKind::Exponential => exponential_spec(
                self.thrust as int,
                velocity,
                d_time,
                self.burn_time,
            ),
        }
    }

    /// Lets the motor work on `velocity` for `d_time`. Only the policy
    /// [`AcceleratorKind::Randomize`] reads `kick`.
    pub fn get_velocity(&self, velocity: &mut Velocity, d_time: i64, kick: Vector2)
        ensures
            final(velocity).0 == self.get_velocity_spec(old(velocity).0, d_time as int, kick),
    {
        match self.accelerator {
            AcceleratorKind::NegativeGravity => {
                negative_gravity(self.thrust, velocity, d_time, &self.burn_time)
            },
            AcceleratorKind::Randomize => {
                randomize_accelerator(self.thrust, velocity, d_time, &self.burn_time, kick)
            },
            AcceleratorKind::Exponential => {
                exponential_accelerator(self.thrust, velocity, d_time, &self.burn_time)
            },
        }
    }
}

/// A motor that holds against gravity undoes, to the millionth, what gravity
/// adds in the same span of time.
pub proof fn lemma_negative_gravity_cancels(velocity: Vector2, d_time: int)
    requires
        i64::MIN <= velocity.y + product_spec(GRAVITY_Y as int, d_time) <= i64::MAX,
    ensures
        negative_gravity_spec(velocity.plus_spec(gravity_spec().scaled_spec(d_time)), d_time)
            == velocity,
{
}

/// An impulse does not depend on the time that has passed.
pub proof fn lemma_randomize_ignores_time(
    motor: Accelerator,
    velocity: Vector2,
    d_time: int,
    other: int,
    kick: Vector2,
)
    requires
        motor.accelerator == AcceleratorKind::Randomize,
    ensures
        motor.get_velocity_spec(velocity, d_time, kick) == motor.get_velocity_spec(
            velocity,
            other,
            kick,
        ),
{
}

/// A motor that decays leaves a velocity without direction alone.
pub proof fn lemma_exponential_skips_rest(thrust: int, velocity: Vector2, d_time: int, burn_time: Timer)
    requires
        velocity.length_spec() < crate::vector::NEAR_ZERO,
    ensures
        exponential_spec(thrust, velocity, d_time, burn_time) == velocity,
{
}

} // verus!
