//! Shells and the recipes that build them.
//!
//! A shell is a projectile together with the shells that it releases when it
//! bursts. A recipe builds such a tree once, from numbers drawn for it, and
//! nothing changes the tree afterwards.

use vstd::prelude::*;
use crate::fixed::{span, span_spec};
use crate::random::{bloom_draws, launch_draws, motor_draws, BloomDraws, LaunchDraws, MotorDraws};
use crate::shells::accelerator::{Accelerator, AcceleratorKind};
use crate::shells::movement::{Lifetime, Velocity};
use crate::shells::projectile::{launch_spec, straight_upward_moving_projectile, Projectile};
use crate::timer::Timer;
use crate::vector::{Vector2, POLAR_SLACK};

pub mod accelerator;
pub mod movement;
pub mod projectile;

verus! {

/// The shells that a burst releases, in the order of their release.
#[derive(Debug, PartialEq, Eq)]
pub struct Shells {
    pub shells: Vec<Shell>,
}

impl Default for Shells {
    /// No shells.
    fn default() -> (shells: Shells)
        ensures
            shells.shells@.len() == 0,
    {
        Shells { shells: Vec::new() }
    }
}

/// A projectile and what it releases when it bursts.
#[derive(Debug, PartialEq, Eq)]
pub struct Shell {
    pub projectile: Projectile,
    pub shells: Option<Shells>,
}

impl Shell {
    /// The shells that this one releases; none where it carries none.
    pub open spec fn payload(&self) -> Seq<Shell> {
        match self.shells {
            None => Seq::empty(),
            Some(inner) => inner.shells@,
        }
    }

    /// The number of shells in the tree that starts here.
    pub open spec fn size(&self) -> nat
        decreases self,
    {
        match self.shells {
            None => 1,
            Some(inner) => 1 + forest_size(inner.shells@),
        }
    }
}

/// The number of shells in the trees that start in `forest`.
pub open spec fn forest_size(forest: Seq<Shell>) -> nat
    decreases forest,
{
    if forest.len() == 0 {
        0
    } else {
        forest_size(forest.drop_last()) + forest.last().size()
    }
}

/// A forest grows with each tree: the first `i + 1` trees hold what the first
/// `i` hold, and the tree at place `i`.
pub proof fn lemma_forest_step(forest: Seq<Shell>, i: int)
    requires
        0 <= i < forest.len(),
    ensures
        forest_size(forest.take(i + 1)) == forest_size(forest.take(i)) + forest[i].size(),
{
    assert(forest.take(i + 1).drop_last() =~= forest.take(i));
}

/// No part of a forest holds more than the whole, and no forest holds fewer
/// shells than it has trees.
pub proof fn lemma_forest_prefix(forest: Seq<Shell>, i: int)
    requires
        0 <= i <= forest.len(),
    ensures
        forest_size(forest.take(i)) <= forest_size(forest),
        forest.len() <= forest_size(forest),
    decreases forest.len(),
{
    if forest.len() > 0 {
        let front = forest.drop_last();
        assert(forest.last().size() >= 1);
        if i == forest.len() {
            assert(forest.take(i) =~= forest);
            lemma_forest_prefix(front, 0);
        } else {
            lemma_forest_prefix(front, i);
            assert(front.take(i) =~= forest.take(i));
        }
    } else {
        assert(forest.take(i) =~= forest);
    }
}

/// Takes the shells of the tree at `shell` out of `budget`: what is left of
/// it, or `None` where the tree holds more shells than `budget` allows.
pub fn weigh(shell: &Shell, budget: u64) -> (left: Option<u64>)
    ensures
        left is Some <==> shell.size() <= budget,
        left is Some ==> left->0 == budget - shell.size(),
    decreases shell,
{
    if budget == 0 {
        return None;
    }
    let mut left: u64 = budget - 1;
    match &shell.shells {
        None => Some(left),
        Some(inner) => {
            let mut i: usize = 0;
            while i < inner.shells.len()
                invariant
                    i <= inner.shells@.len(),
                    shell.shells == Some(*inner),
                    forest_size(inner.shells@.take(i as int)) <= budget - 1,
                    left == budget - 1 - forest_size(inner.shells@.take(i as int)),
                decreases inner.shells@.len() - i,
            {
                proof {
                    lemma_forest_step(inner.shells@, i as int);
                    lemma_forest_prefix(inner.shells@, i + 1);
                    assert(decreases_to!(shell => shell.shells->0.shells));
                    assert(decreases_to!(inner.shells => inner.shells[i as int]));
                }
                match weigh(&inner.shells[i], left) {
                    None => {
                        return None;
                    },
                    Some(rest) => {
                        left = rest;
                    },
                }
                i = i + 1;
            }
            proof {
                assert(inner.shells@.take(i as int) =~= inner.shells@);
            }
            Some(left)
        },
    }
}

/// The named recipes.
#[derive(Clone, Copy, Debug, PartialEq, Eq)]
pub enum Recipe {
    /// Forty children that hold against gravity while their motors burn.
    Classic,
    /// Fifty children that jolt about at random.
    Bees,
}

impl Recipe {
    /// The number of children of the recipe's firework.
    pub open spec fn children_spec(&self) -> nat {
        match self {
            Recipe::Classic => 40,
            Recipe::Bees => 50,
        }
    }

    /// The policy of the motor that the children share.
    pub open spec fn policy_spec(&self) -> AcceleratorKind {
        match self {
            Recipe::Classic => AcceleratorKind::NegativeGravity,
            Recipe::Bees => AcceleratorKind::Randomize,
        }
    }

    /// The recipe that goes by `name`: `"classic"` or `"bees"`.
    pub open spec fn from_name_spec(name: Seq<char>) -> Option<Recipe> {
        if name == "classic"@ {
            Some(Recipe::Classic)
        } else if name == "bees"@ {
            Some(Recipe::Bees)
        } else {
            None
        }
    }

    /// The number of children of the recipe's firework.
    pub fn children(&self) -> (count: usize)
        ensures
            count == self.children_spec(),
    {
        match self {
            Recipe::Classic => 40,
            Recipe::Bees => 50,
        }
    }

    /// The policy of the motor that the children share.
    pub fn policy(&self) -> (kind: AcceleratorKind)
        ensures
            kind == self.policy_spec(),
    {
        match self {
            Recipe::Classic => AcceleratorKind::NegativeGravity,
            Recipe::Bees => AcceleratorKind::Randomize,
        }
    }

    /// Looks a recipe up by its name. A name that no recipe goes by gives
    /// `None`.
    pub fn from_name(name: &str) -> (recipe: Option<Recipe>)
        ensures
            recipe == Recipe::from_name_spec(name@),
    {
        let given = name.to_owned();
        if given == "classic".to_owned() {
            Some(Recipe::Classic)
        } else if given == "bees".to_owned() {
            Some(Recipe::Bees)
        } else {
            None
        }
    }
}

/// The motor that the children of a firework share, for the given draws: a
/// thrust of eight to ten, burning for one and a half to two seconds.
pub open spec fn motor_spec(kind: AcceleratorKind, draws: MotorDraws) -> Accelerator {
    Accelerator {
        accelerator: kind,
        burn_time: Timer::new_spec(span_spec(1_500_000, 500_000, draws.burn as int)),
        thrust: span_spec(8_000_000, 2_000_000, draws.thrust as int) as i64,
    }
}

/// The child that a burst releases, for the given draws.
///
/// It leaves at 25 to 50 units per second at the drawn angle, lives for two
/// to three seconds, and carries `motor`, which has kicked it once, for no
/// time at all, before it flies.
pub open spec fn bloom_spec(image: u64, motor: Accelerator, draws: BloomDraws) -> Shell {
    let speed = span_spec(25_000_000, 25_000_000, draws.speed as int);
    let outward = Vector2::polar_spec(speed, draws.angle as int);
    Shell {
        projectile: Projectile {
            velocity: Velocity(motor.get_velocity_spec(outward, 0, draws.kick)),
            life: Lifetime(Timer::new_spec(span_spec(2_000_000, 1_000_000, draws.life as int))),
            image,
            accelerator: Some(motor),
        },
        shells: None,
    }
}

/// Whether `shell` is the firework of `recipe` for the given images and
/// draws: a launched shell that carries one child for each entry of `bloom`.
pub open spec fn is_firework(
    shell: Shell,
    recipe: Recipe,
    root_image: u64,
    child_image: u64,
    launch: LaunchDraws,
    motor: MotorDraws,
    bloom: Seq<BloomDraws>,
) -> bool {
    &&& shell.projectile == launch_spec(root_image, launch)
    &&& shell.shells is Some
    &&& shell.payload().len() == bloom.len()
    &&& forall|i: int|
        0 <= i < bloom.len() ==> #[trigger] shell.payload()[i] == bloom_spec(
            child_image,
            motor_spec(recipe.policy_spec(), motor),
            bloom[i],
        )
}

/// Equal draws give equal fireworks: two fireworks of one recipe for the same
/// images and the same draws have the same first shell and the same
/// children, in the same order, field by field.
pub proof fn lemma_firework_determined(
    one: Shell,
    other: Shell,
    recipe: Recipe,
    root_image: u64,
    child_image: u64,
    launch: LaunchDraws,
    motor: MotorDraws,
    bloom: Seq<BloomDraws>,
)
    requires
        is_firework(one, recipe, root_image, child_image, launch, motor, bloom),
        is_firework(other, recipe, root_image, child_image, launch, motor, bloom),
    ensures
        one.projectile == other.projectile,
        one.payload() == other.payload(),
{
    assert(one.payload() =~= other.payload());
}

/// A firework holds its first shell and one shell for each child.
pub proof fn lemma_firework_size(
    shell: Shell,
    recipe: Recipe,
    root_image: u64,
    child_image: u64,
    launch: LaunchDraws,
    motor: MotorDraws,
    bloom: Seq<BloomDraws>,
)
    requires
        is_firework(shell, recipe, root_image, child_image, launch, motor, bloom),
    ensures
        shell.size() == 1 + bloom.len(),
{
    lemma_leaves_size(shell.payload());
}

/// A forest of shells that carry nothing holds one shell for each tree.
pub proof fn lemma_leaves_size(forest: Seq<Shell>)
    requires
        forall|i: int| 0 <= i < forest.len() ==> (#[trigger] forest[i]).shells is None,
    ensures
        forest_size(forest) == forest.len(),
    decreases forest.len(),
{
    if forest.len() > 0 {
        lemma_leaves_size(forest.drop_last());
        assert(forest.last().size() == 1);
    }
}

/// The motor that the children share keeps to the spans that the recipes name,
/// for draws that are fractions, and has not started to burn.
pub proof fn lemma_motor_ranges(kind: AcceleratorKind, draws: MotorDraws)
    requires
        draws.valid(),
    ensures
        motor_spec(kind, draws).accelerator == kind,
        8_000_000 <= motor_spec(kind, draws).thrust <= 10_000_000,
        1_500_000 <= motor_spec(kind, draws).burn_time.duration <= 2_000_000,
        motor_spec(kind, draws).burn_time.elapsed == 0,
{
    crate::fixed::lemma_span_bounds(8_000_000, 2_000_000, draws.thrust as int);
    crate::fixed::lemma_span_bounds(1_500_000, 500_000, draws.burn as int);
}

/// Whether `velocity` is one that a child may leave with: within `reach`,
/// along either axis, of a vector whose length is 25 to 50 units per second
/// (less [`POLAR_SLACK`] at the lower end, for rounding).
pub open spec fn is_bloom_velocity(velocity: Vector2, reach: int) -> bool {
    exists|outward: Vector2|
        {
            &&& 25_000_000 - POLAR_SLACK <= #[trigger] outward.length_spec() <= 50_000_000
            &&& -reach <= velocity.x - outward.x <= reach
            &&& -reach <= velocity.y - outward.y <= reach
        }
}

/// A child keeps to the spans that the recipes name, for draws that are
/// fractions: it lives for two to three seconds, has not started its
/// countdown, carries the motor and nothing else, and got its velocity from
/// one kick of the motor, for no time, on a velocity of the length of 25 to
/// 50 units per second at the drawn angle. Only a motor that jolts changes
/// that velocity.
pub proof fn lemma_bloom_ranges(image: u64, motor: Accelerator, draws: BloomDraws)
    requires
        draws.valid(),
    ensures
        ({
            let child = bloom_spec(image, motor, draws);
            let speed = span_spec(25_000_000, 25_000_000, draws.speed as int);
            let outward = Vector2::polar_spec(speed, draws.angle as int);
            &&& 25_000_000 <= speed <= 50_000_000
            &&& speed - POLAR_SLACK <= outward.length_spec() <= speed
            &&& -speed <= outward.x <= speed
            &&& -speed <= outward.y <= speed
            &&& child.projectile.velocity.0 == motor.get_velocity_spec(outward, 0, draws.kick)
            &&& motor.accelerator != AcceleratorKind::Randomize
                ==> child.projectile.velocity.0 == outward
            &&& 2_000_000 <= child.projectile.life.0.duration <= 3_000_000
            &&& child.projectile.life.0.elapsed == 0
            &&& child.projectile.image == image
            &&& child.projectile.accelerator == Some(motor)
            &&& child.shells is None
        }),
{
    let speed = span_spec(25_000_000, 25_000_000, draws.speed as int);
    crate::fixed::lemma_span_bounds(25_000_000, 25_000_000, draws.speed as int);
    crate::fixed::lemma_span_bounds(2_000_000, 1_000_000, draws.life as int);
    crate::vector::lemma_polar_length(speed, draws.angle as int);
}

/// Builds the motor that the children of a firework share.
pub fn shared_motor(kind: AcceleratorKind, draws: MotorDraws) -> (motor: Accelerator)
    ensures
        motor == motor_spec(kind, draws),
{
    let thrust = span(8_000_000, 2_000_000, draws.thrust);
    let burn_time = Timer::new(span(1_500_000, 500_000, draws.burn));
    Accelerator { accelerator: kind, burn_time, thrust }
}

/// Builds the children of a burst, one for each entry of `draws`.
pub fn blooming_shells(image: u64, accelerator: &Accelerator, draws: &Vec<BloomDraws>) -> (shells:
    Vec<Shell>)
    ensures
        shells@.len() == draws@.len(),
        forall|i: int|
            0 <= i < draws@.len() ==> #[trigger] shells@[i] == bloom_spec(
                image,
                *accelerator,
                draws@[i],
            ),
{
    let mut shells: Vec<Shell> = Vec::new();
    let mut i: usize = 0;
    while i < draws.len()
        invariant
            i <= draws@.len(),
            shells@.len() == i,
            forall|j: int|
                0 <= j < i ==> #[trigger] shells@[j] == bloom_spec(image, *accelerator, draws@[j]),
        decreases draws@.len() - i,
    {
        let drawn = draws[i];
        let speed = span(25_000_000, 25_000_000, drawn.speed);
        let life = Lifetime(Timer::new(span(2_000_000, 1_000_000, drawn.life)));
        let mut velocity = Velocity(Vector2::polar(speed, drawn.angle));
        accelerator.get_velocity(&mut velocity, 0, drawn.kick);
        let projectile = Projectile { velocity, life, image, accelerator: Some(*accelerator) };
        shells.push(Shell { projectile, shells: None });
        i = i + 1;
    }
    shells
}

/// Builds the firework of `recipe` from the given draws.
pub fn firework(
    recipe: Recipe,
    root_image: u64,
    child_image: u64,
    launch: LaunchDraws,
    motor: MotorDraws,
    bloom: &Vec<BloomDraws>,
) -> (shell: Shell)
    ensures
        is_firework(shell, recipe, root_image, child_image, launch, motor, bloom@),
{
    let projectile = straight_upward_moving_projectile(root_image, launch);
    let accelerator = shared_motor(recipe.policy(), motor);
    let shells = blooming_shells(child_image, &accelerator, bloom);
    Shell { projectile, shells: Some(Shells { shells }) }
}

/// Whether `shell` is a firework of `recipe` for some draws that chance may
/// give: fractions and jitters, with as many children as the recipe has.
pub open spec fn is_drawn_firework(shell: Shell, recipe: Recipe, root_image: u64, child_image: u64)
    -> bool {
    exists|launch: LaunchDraws, motor: MotorDraws, bloom: Seq<BloomDraws>|
        {
            &&& launch.valid()
            &&& motor.valid()
            &&& bloom.len() == recipe.children_spec()
            &&& forall|i: int| 0 <= i < bloom.len() ==> (#[trigger] bloom[i]).valid()
            &&& #[trigger] is_firework(shell, recipe, root_image, child_image, launch, motor, bloom)
        }
}

/// What chance may give keeps to the recipe. The first shell of a drawn
/// firework rises at 250 to 300 units per second, drifts sideways at up to
/// 25, lives for three to four seconds, and holds against gravity for the
/// first one to one and a half of them. It carries as many children as the
/// recipe has. They share one motor of the recipe's policy, with a thrust of
/// eight to ten that burns for one and a half to two seconds; each lives for
/// two to three seconds and carries nothing. Where the motor holds against
/// gravity, a child leaves at 25 to 50 units per second; where it jolts, the
/// child leaves within the thrust, along either axis, of such a velocity. No
/// countdown has started.
pub proof fn lemma_drawn_firework(shell: Shell, recipe: Recipe, root_image: u64, child_image: u64)
    requires
        is_drawn_firework(shell, recipe, root_image, child_image),
    ensures
        ({
            let root = shell.projectile;
            &&& -25_000_000 <= root.velocity.0.x <= 25_000_000
            &&& 250_000_000 <= root.velocity.0.y <= 300_000_000
            &&& 3_000_000 <= root.life.0.duration <= 4_000_000
            &&& root.life.0.elapsed == 0
            &&& root.image == root_image
            &&& root.accelerator is Some
            &&& root.accelerator->0.accelerator == AcceleratorKind::NegativeGravity
            &&& 1_000_000_000 <= root.accelerator->0.thrust <= 1_500_000_000
            &&& 1_000_000 <= root.accelerator->0.burn_time.duration <= 1_500_000
            &&& root.accelerator->0.burn_time.elapsed == 0
        }),
        shell.payload().len() == recipe.children_spec(),
        shell.size() == 1 + recipe.children_spec(),
        forall|i: int|
            0 <= i < shell.payload().len() ==> {
                let child = (#[trigger] shell.payload()[i]).projectile;
                &&& shell.payload()[i].shells is None
                &&& child.image == child_image
                &&& -60_000_000 <= child.velocity.0.x <= 60_000_000
                &&& -60_000_000 <= child.velocity.0.y <= 60_000_000
                &&& recipe == Recipe::Classic ==> 25_000_000 - POLAR_SLACK
                    <= child.velocity.0.length_spec() <= 50_000_000
                &&& is_bloom_velocity(
                    child.velocity.0,
                    if recipe == Recipe::Classic {
                        0
                    } else {
                        child.accelerator->0.thrust as int
                    },
                )
                &&& 2_000_000 <= child.life.0.duration <= 3_000_000
                &&& child.life.0.elapsed == 0
                &&& child.accelerator is Some
                &&& child.accelerator == shell.payload()[0].projectile.accelerator
                &&& child.accelerator->0.accelerator == recipe.policy_spec()
                &&& 8_000_000 <= child.accelerator->0.thrust <= 10_000_000
                &&& 1_500_000 <= child.accelerator->0.burn_time.duration <= 2_000_000
                &&& child.accelerator->0.burn_time.elapsed == 0
            },
{
    let (launch, motor, bloom) = choose|
        launch: LaunchDraws,
        motor: MotorDraws,
        bloom: Seq<BloomDraws>,
    |
        {
            &&& launch.valid()
            &&& motor.valid()
            &&& bloom.len() == recipe.children_spec()
            &&& forall|i: int| 0 <= i < bloom.len() ==> (#[trigger] bloom[i]).valid()
            &&& #[trigger] is_firework(shell, recipe, root_image, child_image, launch, motor, bloom)
        };
    let shared = motor_spec(recipe.policy_spec(), motor);
    crate::shells::projectile::lemma_launch_ranges(root_image, launch);
    lemma_motor_ranges(recipe.policy_spec(), motor);
    lemma_firework_size(shell, recipe, root_image, child_image, launch, motor, bloom);
    assert(shell.payload()[0] == bloom_spec(child_image, shared, bloom[0]));
    assert forall|i: int| 0 <= i < shell.payload().len() implies {
        let child = (#[trigger] shell.payload()[i]).projectile;
        &&& -60_000_000 <= child.velocity.0.x <= 60_000_000
        &&& -60_000_000 <= child.velocity.0.y <= 60_000_000
        &&& 2_000_000 <= child.life.0.duration <= 3_000_000
        &&& child.accelerator == Some(shared)
        &&& recipe == Recipe::Classic ==> 25_000_000 - POLAR_SLACK
            <= child.velocity.0.length_spec() <= 50_000_000
        &&& is_bloom_velocity(
            child.velocity.0,
            if recipe == Recipe::Classic {
                0
            } else {
                shared.thrust as int
            },
        )
    } by {
        assert(bloom[i].valid());
        lemma_bloom_ranges(child_image, shared, bloom[i]);
        let kick = bloom[i].kick;
        crate::fixed::lemma_product_commutes(kick.x as int, shared.thrust as int);
        crate::fixed::lemma_product_commutes(kick.y as int, shared.thrust as int);
        crate::fixed::lemma_product_bounds(shared.thrust as int, kick.x as int);
        crate::fixed::lemma_product_bounds(shared.thrust as int, kick.y as int);
        let speed = span_spec(25_000_000, 25_000_000, bloom[i].speed as int);
        let outward = Vector2::polar_spec(speed, bloom[i].angle as int);
        let velocity = shell.payload()[i].projectile.velocity.0;
        let reach = if recipe == Recipe::Classic {
            0
        } else {
            shared.thrust as int
        };
        assert(25_000_000 - POLAR_SLACK <= outward.length_spec() <= 50_000_000);
        assert(-reach <= velocity.x - outward.x <= reach);
        assert(-reach <= velocity.y - outward.y <= reach);
    }
}

/// Draws and builds the firework of `recipe`.
pub fn drawn_firework(
    recipe: Recipe,
    root_image: u64,
    child_image: u64,
    rng: &mut rand::rngs::StdRng,
) -> (shell: Shell)
    ensures
        is_drawn_firework(shell, recipe, root_image, child_image),
{
    let launch = launch_draws(rng);
    let motor = motor_draws(rng);
    let bloom = bloom_draws(rng, recipe.children());
    let shell = firework(recipe, root_image, child_image, launch, motor, &bloom);
    assert(is_firework(shell, recipe, root_image, child_image, launch, motor, bloom@));
    shell
}

/// Draws and builds a firework whose fifty children jolt about at random.
pub fn bees_firework(root_image: u64, child_image: u64, rng: &mut rand::rngs::StdRng) -> (shell:
    Shell)
    ensures
        is_drawn_firework(shell, Recipe::Bees, root_image, child_image),
{
    drawn_firework(Recipe::Bees, root_image, child_image, rng)
}

/// Draws and builds a firework whose forty children hold against gravity
/// while their motors burn.
pub fn classic_firework(root_image: u64, child_image: u64, rng: &mut rand::rngs::StdRng) -> (shell:
    Shell)
    ensures
        is_drawn_firework(shell, Recipe::Classic, root_image, child_image),
{
    drawn_firework(Recipe::Classic, root_image, child_image, rng)
}

} // verus!
