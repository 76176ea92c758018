//! What a shell carries from tick to tick.

use vstd::prelude::*;
use crate::timer::Timer;
use crate::vector::Vector2;

verus! {

/// The velocity of a shell, in units per second.
#[derive(Clone, Copy, Debug, PartialEq, Eq)]
pub struct Velocity(pub Vector2);

/// The countdown to a shell's burst.
#[derive(Clone, Copy, Debug, PartialEq, Eq)]
pub struct Lifetime(pub Timer);

} // verus!
