//! The numbers that are left to chance.
//!
//! Nothing else in this crate draws a number. The recipes and the simulation
//! take what was drawn as plain values, so each of them is a function of its
//! arguments; the functions here draw those values from a generator that the
//! caller owns, and state the range of each.

use rand::Rng;
use vstd::prelude::*;
use crate::fixed::SCALE;
use crate::vector::Vector2;

verus! {

/// `rand::rngs::StdRng`, the generator that the caller owns. Nothing is known
/// of what is inside it.
#[verifier::external_type_specification]
#[verifier::external_body]
pub struct ExStdRng(rand::rngs::StdRng);

/// Whether `u` is a fraction of a whole: at least zero and less than one.
pub open spec fn is_fraction(u: int) -> bool {
    0 <= u < SCALE
}

/// Whether `kick` is a jitter: each coordinate above minus one and at most
/// one.
pub open spec fn is_jitter(kick: Vector2) -> bool {
    -SCALE < kick.x <= SCALE && -SCALE < kick.y <= SCALE
}

/// The coordinate of a jitter that belongs to the fraction `u`: `1 - 2 u`.
pub open spec fn swing_spec(u: int) -> int {
    SCALE - 2 * u
}

/// Whether `kick` is the jitter that the fractions `u` and `v` give:
/// `(1 - 2 u, 1 - 2 v)`.
pub open spec fn is_swing(kick: Vector2, u: int, v: int) -> bool {
    &&& is_fraction(u)
    &&& is_fraction(v)
    &&& kick.x == swing_spec(u)
    &&& kick.y == swing_spec(v)
}

/// What a shell that is launched from the ground leaves to chance, each a
/// fraction of the span from which it is taken.
#[derive(Clone, Copy, Debug, PartialEq, Eq)]
pub struct LaunchDraws {
    pub velocity_x: i64,
    pub velocity_y: i64,
    pub life: i64,
    pub thrust: i64,
    pub burn: i64,
}

/// What the motor that the children of one firework share leaves to chance.
#[derive(Clone, Copy, Debug, PartialEq, Eq)]
pub struct MotorDraws {
    pub thrust: i64,
    pub burn: i64,
}

/// What one child of a bursting shell leaves to chance: three fractions, and
/// the jitter for its first kick.
#[derive(Clone, Copy, Debug, PartialEq, Eq)]
pub struct BloomDraws {
    pub speed: i64,
    pub life: i64,
    pub angle: i64,
    pub kick: Vector2,
}

impl LaunchDraws {
    /// Whether every draw is a fraction.
    pub open spec fn valid(&self) -> bool {
        &&& is_fraction(self.velocity_x as int)
        &&& is_fraction(self.velocity_y as int)
        &&& is_fraction(self.life as int)
        &&& is_fraction(self.thrust as int)
        &&& is_fraction(self.burn as int)
    }
}

impl MotorDraws {
    /// Whether every draw is a fraction.
    pub open spec fn valid(&self) -> bool {
        is_fraction(self.thrust as int) && is_fraction(self.burn as int)
    }
}

impl BloomDraws {
    /// Whether the three draws are fractions and the kick is a jitter.
    pub open spec fn valid(&self) -> bool {
        &&& is_fraction(self.speed as int)
        &&& is_fraction(self.life as int)
        &&& is_fraction(self.angle as int)
        &&& is_jitter(self.kick)
    }
}

/// Calls `rand::Rng::gen_range` on the half-open range from zero to `bound`.
/// Trusted, from the method's documentation: the value lies in the range; it
/// panics on an empty range, which `bound > 0` rules out.
#[verifier::external_body]
fn below(rng: &mut rand::rngs::StdRng, bound: u32) -> (drawn: u32)
    requires
        bound > 0,
    ensures
        drawn < bound,
{
    rng.gen_range(0..bound)
}

/// Draws a fraction.
pub fn fraction(rng: &mut rand::rngs::StdRng) -> (u: i64)
    ensures
        is_fraction(u as int),
{
    below(rng, 1_000_000) as i64
}

/// The jitter that two fractions give: `(1 - 2 u, 1 - 2 v)`.
fn swing(u: i64, v: i64) -> (kick: Vector2)
    requires
        is_fraction(u as int),
        is_fraction(v as int),
    ensures
        is_swing(kick, u as int, v as int),
        is_jitter(kick),
{
    Vector2 { x: SCALE - 2 * u, y: SCALE - 2 * v }
}

/// Draws a jitter: two fractions `u` and `v`, and of them the kick
/// `(1 - 2 u, 1 - 2 v)`.
pub fn jitter(rng: &mut rand::rngs::StdRng) -> (kick: Vector2)
    ensures
        is_jitter(kick),
        exists|u: int, v: int| is_swing(kick, u, v),
{
    let u = fraction(rng);
    let v = fraction(rng);
    swing(u, v)
}

/// Draws what a launch leaves to chance.
pub fn launch_draws(rng: &mut rand::rngs::StdRng) -> (draws: LaunchDraws)
    ensures
        draws.valid(),
{
    let velocity_x = fraction(rng);
    let velocity_y = fraction(rng);
    let life = fraction(rng);
    let thrust = fraction(rng);
    let burn = fraction(rng);
    LaunchDraws { velocity_x, velocity_y, life, thrust, burn }
}

/// Draws what a shared motor leaves to chance.
pub fn motor_draws(rng: &mut rand::rngs::StdRng) -> (draws: MotorDraws)
    ensures
        draws.valid(),
{
    let thrust = fraction(rng);
    let burn = fraction(rng);
    MotorDraws { thrust, burn }
}

/// Draws what `count` children leave to chance.
pub fn bloom_draws(rng: &mut rand::rngs::StdRng, count: usize) -> (draws: Vec<BloomDraws>)
    ensures
        draws@.len() == count,
        forall|i: int| 0 <= i < count ==> (#[trigger] draws@[i]).valid(),
{
    let mut draws: Vec<BloomDraws> = Vec::new();
    while draws.len() < count
        invariant
            draws@.len() <= count,
            forall|i: int| 0 <= i < draws@.len() ==> (#[trigger] draws@[i]).valid(),
        decreases count - draws@.len(),
    {
        let speed = fraction(rng);
        let life = fraction(rng);
        let angle = fraction(rng);
        let kick = jitter(rng);
        draws.push(BloomDraws { speed, life, angle, kick });
    }
    draws
}

/// Draws `count` jitters.
pub fn jitters(rng: &mut rand::rngs::StdRng, count: usize) -> (kicks: Vec<Vector2>)
    ensures
        kicks@.len() == count,
        forall|i: int| 0 <= i < count ==> is_jitter(#[trigger] kicks@[i]),
{
    let mut kicks: Vec<Vector2> = Vec::new();
    while kicks.len() < count
        invariant
            kicks@.len() <= count,
            forall|i: int| 0 <= i < kicks@.len() ==> is_jitter(#[trigger] kicks@[i]),
        decreases count - kicks@.len(),
    {
        let kick = jitter(rng);
        kicks.push(kick);
    }
    kicks
}

} // verus!
