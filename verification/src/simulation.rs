//! The simulation: the shells that are in flight, and what a tick does to
//! them.
//!
//! The host hands shells in and lets time pass; it is told which shells to
//! take off the stage and which to put on it. A shell that bursts leaves in
//! the tick in which its lifetime runs out, and its children enter in that
//! tick, where it was, without having flown yet.

use vstd::prelude::*;
use crate::random::{is_jitter, jitters, BloomDraws, LaunchDraws, MotorDraws};
use crate::shells::projectile::Projectile;
use crate::shells::{
    drawn_firework, forest_size, is_drawn_firework, is_firework, lemma_firework_size, weigh, Recipe,
    Shell,
};
use crate::simulation::laws::{
    lemma_offspring_step, lemma_pending_advanced, lemma_room_for_children, lemma_sorting_empty,
    lemma_sorting_step, lemma_tick_well_formed,
};
use crate::vector::Vector2;

pub mod laws;

verus! {

/// A shell in flight, as the contracts speak of it.
pub struct Active {
    /// The number by which the host knows the shell.
    pub id: int,
    pub position: Vector2,
    pub projectile: Projectile,
    /// The shells that it releases when it bursts.
    pub payload: Seq<Shell>,
}

/// What the host needs to show a shell.
#[derive(Clone, Copy, Debug, PartialEq, Eq)]
pub struct EntityState {
    pub id: u64,
    pub position: Vector2,
    pub velocity: Vector2,
    pub image: u64,
}

/// What a tick asks of the host: the shells to take off the stage, and the
/// shells to put on it.
#[derive(Debug, PartialEq, Eq)]
pub struct TickReport {
    pub despawned: Vec<u64>,
    pub spawned: Vec<EntityState>,
}

/// Why a request for a firework was turned down.
#[derive(Clone, Copy, Debug, PartialEq, Eq)]
pub enum TriggerError {
    /// No recipe goes by the name that was given.
    UnknownRecipe,
    /// The numbers that a `u64` has do not suffice for the firework.
    Exhausted,
}

/// A tick, as the contracts speak of it: the shells in flight after it, the
/// number that the next shell gets, and what the host is told.
pub struct Outcome {
    pub population: Seq<Active>,
    pub next_id: int,
    pub despawned: Seq<u64>,
    pub spawned: Seq<EntityState>,
}

/// Whether the shell's lifetime has run out.
pub open spec fn expired(shell: Active) -> bool {
    shell.projectile.life.0.finished_spec()
}

/// What the host is shown of a shell.
pub open spec fn state_spec(shell: Active) -> EntityState {
    EntityState {
        id: shell.id as u64,
        position: shell.position,
        velocity: shell.projectile.velocity.0,
        image: shell.projectile.image,
    }
}

/// The number by which the host knows a shell.
pub open spec fn id_spec(shell: Active) -> u64 {
    shell.id as u64
}

/// The jitter for the shell at place `i`: the one at that place of `kicks`,
/// and none where `kicks` is too short.
pub open spec fn kick_at(kicks: Seq<Vector2>, i: int) -> Vector2 {
    if 0 <= i < kicks.len() {
        kicks[i]
    } else {
        Vector2::zero_spec()
    }
}

/// The shell after a tick of `dt`, with `kick` as the jitter of this tick:
/// the projectile a step further, and the position moved by the way that the
/// step gives.
pub open spec fn advance_spec(shell: Active, dt: int, kick: Vector2) -> Active {
    let flown = shell.projectile.step_spec(dt, kick);
    Active {
        id: shell.id,
        position: shell.position.plus_spec(flown.displacement_spec(dt)),
        projectile: flown,
        payload: shell.payload,
    }
}

/// Every shell of `population` after `dt` of flight, the shell at place `i`
/// with the jitter at place `i`.
pub open spec fn advanced(population: Seq<Active>, dt: int, kicks: Seq<Vector2>) -> Seq<Active> {
    Seq::new(population.len(), |i: int| advance_spec(population[i], dt, kick_at(kicks, i)))
}

/// The shells of `moved` that fly on, in their order.
pub open spec fn survivors(moved: Seq<Active>) -> Seq<Active> {
    moved.filter(|shell: Active| !expired(shell))
}

/// The shells of `moved` that burst, in their order.
pub open spec fn casualties(moved: Seq<Active>) -> Seq<Active> {
    moved.filter(|shell: Active| expired(shell))
}

/// The shell `shell` as it enters the simulation at `position` under the
/// number `id`: its countdowns at their start, its velocity as it was built.
pub open spec fn admitted(shell: Shell, id: int, position: Vector2) -> Active {
    Active { id, position, projectile: shell.projectile.rewound_spec(), payload: shell.payload() }
}

/// The shells of `forest` as they enter at `position`, numbered from
/// `first_id` on.
pub open spec fn hatch(forest: Seq<Shell>, first_id: int, position: Vector2) -> Seq<Active> {
    Seq::new(forest.len(), |j: int| admitted(forest[j], first_id + j, position))
}

/// The children of the shells of `burst`, each where its parent burst, in the
/// order of the parents and then of the children, numbered from `first_id`
/// on.
pub open spec fn offspring(burst: Seq<Active>, first_id: int) -> Seq<Active>
    decreases burst.len(),
{
    if burst.len() == 0 {
        Seq::empty()
    } else {
        let before = offspring(burst.drop_last(), first_id);
        before + hatch(burst.last().payload, first_id + before.len(), burst.last().position)
    }
}

/// What the host is shown of each shell of `population`.
pub open spec fn states_spec(population: Seq<Active>) -> Seq<EntityState> {
    population.map_values(|shell: Active| state_spec(shell))
}

/// The numbers of the shells of `population`.
pub open spec fn ids_spec(population: Seq<Active>) -> Seq<u64> {
    population.map_values(|shell: Active| id_spec(shell))
}

/// What a tick of `dt` does to `population`, with `kicks` as the jitters of
/// this tick and `next_id` as the first number that is free.
///
/// Every shell flies for `dt`. Those whose lifetime has then run out leave,
/// and their children enter behind the shells that fly on.
pub open spec fn tick_spec(population: Seq<Active>, next_id: int, dt: int, kicks: Seq<Vector2>)
    -> Outcome {
    let moved = advanced(population, dt, kicks);
    let born = offspring(casualties(moved), next_id);
    Outcome {
        population: survivors(moved) + born,
        next_id: next_id + born.len(),
        despawned: ids_spec(casualties(moved)),
        spawned: states_spec(born),
    }
}

/// The number of shells that the shells of `population` still hold back: all
/// that a burst of theirs, or of what they release, will ever put on the
/// stage.
pub open spec fn pending(population: Seq<Active>) -> nat
    decreases population.len(),
{
    if population.len() == 0 {
        0
    } else {
        pending(population.drop_last()) + forest_size(population.last().payload)
    }
}

/// Whether a shell waits for its burst: its lifetime has not run out, or has
/// not started to run.
pub open spec fn waiting(shell: Active) -> bool {
    !expired(shell) || shell.projectile.life.0.elapsed == 0
}

/// Whether `population` is one that the simulation can hold with `next_id` as
/// the first number that is free.
///
/// The numbers of its shells rise along it and lie below `next_id`, so no
/// two shells share one; numbers are left for every shell that is held back;
/// and every shell waits for its burst.
pub open spec fn well_formed(population: Seq<Active>, next_id: int) -> bool {
    &&& 0 <= next_id
    &&& next_id + pending(population) <= u64::MAX
    &&& forall|i: int| 0 <= i < population.len() ==> 0 <= (#[trigger] population[i]).id < next_id
    &&& forall|i: int, j: int|
        0 <= i < j < population.len() ==> (#[trigger] population[i]).id < (
        #[trigger] population[j]).id
    &&& forall|i: int| 0 <= i < population.len() ==> waiting(#[trigger] population[i])
}

/// Whether a shell with the number `id` is among `population`.
pub open spec fn in_flight(population: Seq<Active>, id: int) -> bool {
    exists|k: int| 0 <= k < population.len() && (#[trigger] population[k]).id == id
}

/// Whether `outcome` is what a tick of `dt` does to `population` for some
/// jitters that chance may give, one for each shell.
pub open spec fn is_drawn_tick(population: Seq<Active>, next_id: int, dt: int, outcome: Outcome)
    -> bool {
    exists|kicks: Seq<Vector2>|
        {
            &&& kicks.len() == population.len()
            &&& forall|i: int| 0 <= i < kicks.len() ==> is_jitter(#[trigger] kicks[i])
            &&& #[trigger] tick_spec(population, next_id, dt, kicks) == outcome
        }
}

/// Whether `after` and `state` are what is in flight, and what the host is
/// shown, once a firework of `recipe` that chance may give has entered
/// `before` at `position` under the number `next_id`.
pub open spec fn is_triggered(
    before: Seq<Active>,
    next_id: int,
    recipe: Recipe,
    position: Vector2,
    root_image: u64,
    child_image: u64,
    after: Seq<Active>,
    state: EntityState,
) -> bool {
    exists|shell: Shell|
        {
            &&& is_drawn_firework(shell, recipe, root_image, child_image)
            &&& after == before.push(#[trigger] admitted(shell, next_id, position))
            &&& state == state_spec(admitted(shell, next_id, position))
        }
}

/// A shell in flight, as the simulation holds it.
struct Entry {
    id: u64,
    position: Vector2,
    projectile: Projectile,
    shells: Vec<Shell>,
}

impl Entry {
    /// The shell, as the contracts speak of it.
    spec fn model(&self) -> Active {
        Active {
            id: self.id as int,
            position: self.position,
            projectile: self.projectile,
            payload: self.shells@,
        }
    }

    /// Lets a tick of `dt` pass for the shell.
    fn advance(&mut self, dt: i64, kick: Vector2)
        ensures
            final(self).model() == advance_spec(old(self).model(), dt as int, kick),
    {
        let way = self.projectile.step(dt, kick);
        self.position = self.position.plus(way);
    }

    /// The shell as it enters at `position` under the number `id`.
    fn enter(shell: Shell, id: u64, position: Vector2) -> (entry: Entry)
        ensures
            entry.model() == admitted(shell, id as int, position),
    {
        let Shell { projectile, shells } = shell;
        let payload: Vec<Shell> = match shells {
            None => Vec::new(),
            Some(inner) => inner.shells,
        };
        Entry { id, position, projectile: projectile.rewound(), shells: payload }
    }

    /// What the host is shown of the shell.
    fn state(&self) -> (state: EntityState)
        ensures
            state == state_spec(self.model()),
    {
        EntityState {
            id: self.id,
            position: self.position,
            velocity: self.projectile.velocity.0,
            image: self.projectile.image,
        }
    }
}

/// The shells of `entries`, as the contracts speak of them.
spec fn models(entries: Seq<Entry>) -> Seq<Active> {
    entries.map_values(|entry: Entry| entry.model())
}

/// The shells that are in flight.
pub struct Simulation {
    entries: Vec<Entry>,
    next_id: u64,
    reserved: u64,
}

impl Simulation {
    /// The shells in flight, in the order in which the host is shown them.
    pub closed spec fn population(&self) -> Seq<Active> {
        models(self.entries@)
    }

    /// The number that the next shell gets.
    pub closed spec fn next_id(&self) -> int {
        self.next_id as int
    }

    #[verifier::type_invariant]
    spec fn inv(&self) -> bool {
        &&& well_formed(self.population(), self.next_id as int)
        &&& self.reserved == pending(self.population())
    }

    /// A simulation without shells.
    pub fn new() -> (simulation: Simulation)
        ensures
            simulation.population() == Seq::<Active>::empty(),
            simulation.next_id() == 0,
            well_formed(simulation.population(), simulation.next_id()),
    {
        let simulation = Simulation { entries: Vec::new(), next_id: 0, reserved: 0 };
        assert(simulation.population() =~= Seq::<Active>::empty());
        simulation
    }

    /// A simulation without shells that numbers its shells from `first_id`
    /// on, for a host that has given out the numbers below.
    pub fn starting_at(first_id: u64) -> (simulation: Simulation)
        ensures
            simulation.population() == Seq::<Active>::empty(),
            simulation.next_id() == first_id,
            well_formed(simulation.population(), simulation.next_id()),
    {
        let simulation = Simulation { entries: Vec::new(), next_id: first_id, reserved: 0 };
        assert(simulation.population() =~= Seq::<Active>::empty());
        simulation
    }

    /// The number of shells in flight.
    pub fn len(&self) -> (count: usize)
        ensures
            count == self.population().len(),
    {
        self.entries.len()
    }

    /// What the host is shown of the shells in flight. Nothing changes.
    pub fn active_states(&self) -> (states: Vec<EntityState>)
        ensures
            states@ == states_spec(self.population()),
    {
        let mut states: Vec<EntityState> = Vec::new();
        let mut i: usize = 0;
        while i < self.entries.len()
            invariant
                i <= self.entries@.len(),
                states@.len() == i,
                forall|j: int| 0 <= j < i ==> states@[j] == state_spec(self.entries@[j].model()),
            decreases self.entries@.len() - i,
        {
            states.push(self.entries[i].state());
            i = i + 1;
        }
        assert(states@ =~= states_spec(self.population()));
        states
    }

    /// Puts `shell` on the stage at `position`, and holds back what it
    /// carries until it bursts.
    ///
    /// The shell enters as the last of the shells in flight, with its
    /// countdowns at their start. Nothing happens, and `None` comes back,
    /// only where the numbers that a `u64` has do not suffice for the shell
    /// and all that it carries.
    pub fn spawn(&mut self, shell: Shell, position: Vector2) -> (state: Option<EntityState>)
        ensures
            state is Some <==> old(self).next_id() + pending(old(self).population()) + shell.size()
                <= u64::MAX,
            state is Some ==> {
                let entered = admitted(shell, old(self).next_id(), position);
                &&& final(self).population() == old(self).population().push(entered)
                &&& final(self).next_id() == old(self).next_id() + 1
                &&& state->0 == state_spec(entered)
            },
            state is None ==> {
                &&& final(self).population() == old(self).population()
                &&& final(self).next_id() == old(self).next_id()
            },
            well_formed(final(self).population(), final(self).next_id()),
    {
        proof {
            use_type_invariant(&*self);
        }
        let room: u64 = u64::MAX - self.next_id - self.reserved;
        match weigh(&shell, room) {
            None => None,
            Some(left) => {
                let mut taken = Simulation::new();
                std::mem::swap(self, &mut taken);
                let Simulation { entries, next_id, reserved } = taken;
                let mut entries = entries;
                let ghost before = models(entries@);
                let entry = Entry::enter(shell, next_id, position);
                let state = entry.state();
                proof {
                    assert(models(entries@.push(entry)) =~= before.push(entry.model()));
                    assert(before.push(entry.model()).drop_last() =~= before);
                }
                entries.push(entry);
                *self = Simulation {
                    entries,
                    next_id: next_id + 1,
                    reserved: reserved + (room - left - 1),
                };
                Some(state)
            },
        }
    }

    /// Lets a tick of `dt` pass, with `kicks` as the jitters of this tick:
    /// the shell at place `i` takes the jitter at place `i`, and none where
    /// `kicks` is too short.
    ///
    /// Every shell in flight makes its step. Those whose lifetime has then
    /// run out leave, and their children enter where they burst, behind the
    /// shells that fly on; the children make no step in this tick.
    pub fn tick_with(&mut self, dt: i64, kicks: &Vec<Vector2>) -> (report: TickReport)
        ensures
            ({
                let outcome = tick_spec(
                    old(self).population(),
                    old(self).next_id(),
                    dt as int,
                    kicks@,
                );
                &&& final(self).population() == outcome.population
                &&& final(self).next_id() == outcome.next_id
                &&& report.despawned@ == outcome.despawned
                &&& report.spawned@ == outcome.spawned
            }),
            well_formed(final(self).population(), final(self).next_id()),
    {
        proof {
            use_type_invariant(&*self);
        }
        let mut taken = Simulation::new();
        std::mem::swap(self, &mut taken);
        let Simulation { entries, next_id, reserved } = taken;
        let ghost all = entries@;
        let ghost population = models(all);
        let ghost moved = advanced(population, dt as int, kicks@);
        let ghost first = next_id as int;
        let mut kept: Vec<Entry> = Vec::new();
        let mut born: Vec<Entry> = Vec::new();
        let mut despawned: Vec<u64> = Vec::new();
        let mut spawned: Vec<EntityState> = Vec::new();
        let mut next: u64 = next_id;
        let mut i: usize = 0;
        proof {
            assert(all.len() == entries.len());
            lemma_pending_advanced(population, dt as int, kicks@);
            lemma_sorting_empty();
            assert(moved.take(0) =~= Seq::<Active>::empty());
            assert(models(kept@) =~= Seq::<Active>::empty());
            assert(models(born@) =~= Seq::<Active>::empty());
            assert(despawned@ =~= ids_spec(Seq::<Active>::empty()));
            assert(spawned@ =~= states_spec(Seq::<Active>::empty()));
        }
        for entry in it: entries
            invariant
                it.seq() == all,
                i == it.index(),
                all.len() <= usize::MAX,
                population == models(all),
                moved == advanced(population, dt as int, kicks@),
                first == next_id,
                first + pending(moved) <= u64::MAX,
                models(kept@) == survivors(moved.take(i as int)),
                models(born@) == offspring(casualties(moved.take(i as int)), first),
                despawned@ == ids_spec(casualties(moved.take(i as int))),
                spawned@ == states_spec(models(born@)),
                next == first + born@.len(),
        {
            let mut entry = entry;
            let kick = if i < kicks.len() {
                kicks[i]
            } else {
                Vector2::zero()
            };
            let ghost seen = moved.take(i as int);
            proof {
                assert(entry.model() == population[i as int]);
                assert(moved.take(i + 1) =~= seen.push(moved[i as int]));
                lemma_sorting_step(seen, moved[i as int]);
            }
            entry.advance(dt, kick);
            assert(entry.model() == moved[i as int]);
            if entry.projectile.life.0.finished() {
                proof {
                    lemma_room_for_children(moved, i as int, first);
                    lemma_offspring_step(casualties(seen), moved[i as int], first);
                    assert(ids_spec(casualties(seen).push(moved[i as int])) =~= ids_spec(
                        casualties(seen),
                    ).push(id_spec(moved[i as int])));
                }
                despawned.push(entry.id);
                let Entry { position, shells, .. } = entry;
                let ghost before = models(born@);
                let ghost forest = shells@;
                let ghost base = next as int;
                let mut j: usize = 0;
                proof {
                    assert(forest.len() == shells.len());
                    assert(hatch(forest.take(0), base, position) =~= Seq::<Active>::empty());
                    assert(before + Seq::<Active>::empty() =~= before);
                }
                for child in inner: shells
                    invariant
                        inner.seq() == forest,
                        j == inner.index(),
                        forest.len() <= usize::MAX,
                        base + forest.len() <= u64::MAX,
                        models(born@) == before + hatch(forest.take(j as int), base, position),
                        spawned@ == states_spec(models(born@)),
                        next == base + j,
                        born@.len() == before.len() + j,
                {
                    let ghost entered = models(born@);
                    let newcomer = Entry::enter(child, next, position);
                    let state = newcomer.state();
                    proof {
                        assert(models(born@.push(newcomer)) =~= entered.push(newcomer.model()));
                        assert(hatch(forest.take(j + 1), base, position) =~= hatch(
                            forest.take(j as int),
                            base,
                            position,
                        ).push(newcomer.model()));
                        assert(before + hatch(forest.take(j + 1), base, position) =~= entered.push(
                            newcomer.model(),
                        ));
                        assert(states_spec(entered.push(newcomer.model())) =~= states_spec(
                            entered,
                        ).push(state));
                    }
                    spawned.push(state);
                    born.push(newcomer);
                    next = next + 1;
                    j = j + 1;
                }
                proof {
                    assert(forest.take(forest.len() as int) =~= forest);
                }
            } else {
                proof {
                    assert(models(kept@.push(entry)) =~= models(kept@).push(entry.model()));
                }
                kept.push(entry);
            }
            i = i + 1;
        }
        proof {
            assert(moved.take(moved.len() as int) =~= moved);
            lemma_tick_well_formed(population, first, dt as int, kicks@);
            assert(models(kept@ + born@) =~= models(kept@) + models(born@));
        }
        let count: u64 = next - next_id;
        kept.append(&mut born);
        *self = Simulation { entries: kept, next_id: next, reserved: reserved - count };
        TickReport { despawned, spawned }
    }

    /// Lets a tick of `dt` pass, and draws the jitters of this tick from
    /// `rng`: one for each shell in flight.
    pub fn tick(&mut self, dt: i64, rng: &mut rand::rngs::StdRng) -> (report: TickReport)
        ensures
            is_drawn_tick(
                old(self).population(),
                old(self).next_id(),
                dt as int,
                (Outcome {
                    population: final(self).population(),
                    next_id: final(self).next_id(),
                    despawned: report.despawned@,
                    spawned: report.spawned@,
                }),
            ),
            well_formed(final(self).population(), final(self).next_id()),
    {
        let kicks = jitters(rng, self.len());
        let ghost before = self.population();
        let ghost first = self.next_id();
        let report = self.tick_with(dt, &kicks);
        proof {
            let outcome = Outcome {
                population: self.population(),
                next_id: self.next_id(),
                despawned: report.despawned@,
                spawned: report.spawned@,
            };
            assert(tick_spec(before, first, dt as int, kicks@) == outcome);
        }
        report
    }

    /// Builds the firework of the recipe that goes by `name`, from numbers
    /// drawn from `rng`, and puts it on the stage at `position`.
    ///
    /// A name that no recipe goes by is turned down, and so is a firework for
    /// which the numbers do not suffice; nothing changes then.
    pub fn trigger(
        &mut self,
        name: &str,
        position: Vector2,
        root_image: u64,
        child_image: u64,
        rng: &mut rand::rngs::StdRng,
    ) -> (result: Result<EntityState, TriggerError>)
        ensures
            match Recipe::from_name_spec(name@) {
                None => {
                    &&& result == Err::<EntityState, TriggerError>(TriggerError::UnknownRecipe)
                    &&& final(self).population() == old(self).population()
                    &&& final(self).next_id() == old(self).next_id()
                },
                Some(recipe) => if old(self).next_id() + pending(old(self).population()) + 1
                    + recipe.children_spec() <= u64::MAX {
                    &&& result is Ok
                    &&& is_triggered(
                        old(self).population(),
                        old(self).next_id(),
                        recipe,
                        position,
                        root_image,
                        child_image,
                        final(self).population(),
                        result->Ok_0,
                    )
                    &&& final(self).next_id() == old(self).next_id() + 1
                } else {
                    &&& result == Err::<EntityState, TriggerError>(TriggerError::Exhausted)
                    &&& final(self).population() == old(self).population()
                    &&& final(self).next_id() == old(self).next_id()
                },
            },
            well_formed(final(self).population(), final(self).next_id()),
    {
        proof {
            use_type_invariant(&*self);
        }
        match Recipe::from_name(name) {
            None => Err(TriggerError::UnknownRecipe),
            Some(recipe) => {
                let shell = drawn_firework(recipe, root_image, child_image, rng);
                proof {
                    let (launch, motor, bloom) = choose|
                        launch: LaunchDraws,
                        motor: MotorDraws,
                        bloom: Seq<BloomDraws>,
                    |
                        {
                            &&& bloom.len() == recipe.children_spec()
                            &&& #[trigger] is_firework(
                                shell,
                                recipe,
                                root_image,
                                child_image,
                                launch,
                                motor,
                                bloom,
                            )
                        };
                    lemma_firework_size(
                        shell,
                        recipe,
                        root_image,
                        child_image,
                        launch,
                        motor,
                        bloom,
                    );
                }
                let ghost entered = admitted(shell, self.next_id(), position);
                match self.spawn(shell, position) {
                    None => Err(TriggerError::Exhausted),
                    Some(state) => {
                        assert(state == state_spec(entered));
                        Ok(state)
                    },
                }
            },
        }
    }
}

} // verus!
