//! What holds of every tick.
//!
//! The first lemmas say how the parts of a tick go along a row of shells,
//! one shell at a time; the simulation's own loop leans on them. The laws
//! that follow say what a host may rely on: a population stays well formed, a
//! shell bursts once and in the right tick, and what a burst releases takes
//! no part in the tick of the burst.

use vstd::prelude::*;
use crate::fixed::elapse_spec;
use crate::shells::{forest_size, Shell};
use crate::simulation::{
    admitted, advance_spec, advanced, casualties, expired, hatch, id_spec, in_flight, kick_at,
    offspring, pending, state_spec, states_spec, survivors, tick_spec, waiting, well_formed,
    Active, EntityState,
};
use crate::vector::Vector2;

verus! {

/// A shell that joins the end of a row joins the survivors or the casualties
/// of the row, as its lifetime tells.
pub proof fn lemma_sorting_step(seen: Seq<Active>, shell: Active)
    ensures
        survivors(seen.push(shell)) == if expired(shell) {
            survivors(seen)
        } else {
            survivors(seen).push(shell)
        },
        casualties(seen.push(shell)) == if expired(shell) {
            casualties(seen).push(shell)
        } else {
            casualties(seen)
        },
{
    seen.lemma_filter_push(shell, |shell: Active| !expired(shell));
    seen.lemma_filter_push(shell, |shell: Active| expired(shell));
}

/// An empty row has no survivors and no casualties.
pub proof fn lemma_sorting_empty()
    ensures
        survivors(Seq::<Active>::empty()) == Seq::<Active>::empty(),
        casualties(Seq::<Active>::empty()) == Seq::<Active>::empty(),
{
    let none = Seq::<Active>::empty();
    none.lemma_filter_len(|shell: Active| !expired(shell));
    none.lemma_filter_len(|shell: Active| expired(shell));
    assert(survivors(none) =~= none);
    assert(casualties(none) =~= none);
}

/// The children of a row of bursts are those of the row without its last,
/// and then those of the last.
pub proof fn lemma_offspring_step(burst: Seq<Active>, shell: Active, first_id: int)
    ensures
        offspring(burst.push(shell), first_id) == offspring(burst, first_id) + hatch(
            shell.payload,
            first_id + offspring(burst, first_id).len(),
            shell.position,
        ),
{
    assert(burst.push(shell).drop_last() =~= burst);
}

/// A shell that joins a row adds what it holds back.
pub proof fn lemma_pending_step(population: Seq<Active>, shell: Active)
    ensures
        pending(population.push(shell)) == pending(population) + forest_size(shell.payload),
{
    assert(population.push(shell).drop_last() =~= population);
}

/// Two rows in a row hold back what each of them holds back.
pub proof fn lemma_pending_concat(front: Seq<Active>, back: Seq<Active>)
    ensures
        pending(front + back) == pending(front) + pending(back),
    decreases back.len(),
{
    if back.len() == 0 {
        assert(front + back =~= front);
    } else {
        lemma_pending_concat(front, back.drop_last());
        assert((front + back).drop_last() =~= front + back.drop_last());
    }
}

/// No part of a row holds back more than the whole.
pub proof fn lemma_pending_prefix(population: Seq<Active>, i: int)
    requires
        0 <= i <= population.len(),
    ensures
        pending(population.take(i)) <= pending(population),
{
    lemma_pending_concat(population.take(i), population.skip(i));
    assert(population.take(i) + population.skip(i) =~= population);
}

/// What survivors and casualties hold back is what the row holds back.
pub proof fn lemma_pending_sorted(moved: Seq<Active>)
    ensures
        pending(survivors(moved)) + pending(casualties(moved)) == pending(moved),
    decreases moved.len(),
{
    if moved.len() == 0 {
        lemma_sorting_empty();
        assert(moved =~= Seq::<Active>::empty());
    } else {
        let front = moved.drop_last();
        lemma_pending_sorted(front);
        lemma_sorting_step(front, moved.last());
        assert(front.push(moved.last()) =~= moved);
        lemma_pending_step(survivors(front), moved.last());
        lemma_pending_step(casualties(front), moved.last());
    }
}

/// A tick changes nothing in what the shells hold back.
pub proof fn lemma_pending_advanced(population: Seq<Active>, dt: int, kicks: Seq<Vector2>)
    ensures
        pending(advanced(population, dt, kicks)) == pending(population),
    decreases population.len(),
{
    let moved = advanced(population, dt, kicks);
    if population.len() > 0 {
        lemma_pending_advanced(population.drop_last(), dt, kicks);
        assert(moved.drop_last() =~= advanced(population.drop_last(), dt, kicks));
    }
}

/// The shells that a forest puts on the stage, and what they hold back, are
/// the shells of the forest.
pub proof fn lemma_pending_hatch(forest: Seq<Shell>, first_id: int, position: Vector2)
    ensures
        pending(hatch(forest, first_id, position)) + forest.len() == forest_size(forest),
    decreases forest.len(),
{
    let entered = hatch(forest, first_id, position);
    if forest.len() > 0 {
        lemma_pending_hatch(forest.drop_last(), first_id, position);
        assert(entered.drop_last() =~= hatch(forest.drop_last(), first_id, position));
        assert(entered.last().payload == forest.last().payload());
        assert(forest.last().size() == 1 + forest_size(forest.last().payload()));
    }
}

/// The children of a row of bursts, and what they hold back, are what the
/// row held back.
pub proof fn lemma_pending_offspring(burst: Seq<Active>, first_id: int)
    ensures
        pending(offspring(burst, first_id)) + offspring(burst, first_id).len() == pending(burst),
    decreases burst.len(),
{
    if burst.len() > 0 {
        let before = offspring(burst.drop_last(), first_id);
        let last = hatch(burst.last().payload, first_id + before.len(), burst.last().position);
        lemma_pending_offspring(burst.drop_last(), first_id);
        lemma_pending_hatch(burst.last().payload, first_id + before.len(), burst.last().position);
        lemma_pending_concat(before, last);
    }
}

/// The children of a row of bursts are numbered in their order from
/// `first_id` on, and none of them has started its countdowns.
pub proof fn lemma_offspring_fresh(burst: Seq<Active>, first_id: int)
    ensures
        forall|k: int|
            0 <= k < offspring(burst, first_id).len() ==> {
                &&& (#[trigger] offspring(burst, first_id)[k]).id == first_id + k
                &&& offspring(burst, first_id)[k].projectile.life.0.elapsed == 0
            },
    decreases burst.len(),
{
    if burst.len() > 0 {
        lemma_offspring_fresh(burst.drop_last(), first_id);
    }
}

/// While a burst waits its turn, the numbers for its children are free: the
/// children of the bursts before it and its own are no more than the row
/// holds back.
pub proof fn lemma_room_for_children(moved: Seq<Active>, i: int, first_id: int)
    requires
        0 <= i < moved.len(),
        expired(moved[i]),
    ensures
        offspring(casualties(moved.take(i)), first_id).len() + moved[i].payload.len() <= pending(
            moved,
        ),
{
    let seen = moved.take(i);
    let burst = casualties(seen).push(moved[i]);
    assert(moved.take(i + 1) =~= seen.push(moved[i]));
    lemma_sorting_step(seen, moved[i]);
    lemma_offspring_step(casualties(seen), moved[i], first_id);
    lemma_pending_offspring(burst, first_id);
    lemma_pending_sorted(moved.take(i + 1));
    lemma_pending_prefix(moved, i + 1);
}

/// The survivors of a row whose numbers rise below a bound are such a row
/// again, each of them with its lifetime still running and each of them a
/// shell of the row.
pub proof fn lemma_survivors_ordered(moved: Seq<Active>, bound: int)
    requires
        forall|i: int| 0 <= i < moved.len() ==> 0 <= (#[trigger] moved[i]).id < bound,
        forall|i: int, j: int|
            0 <= i < j < moved.len() ==> (#[trigger] moved[i]).id < (#[trigger] moved[j]).id,
    ensures
        forall|i: int|
            0 <= i < survivors(moved).len() ==> 0 <= (#[trigger] survivors(moved)[i]).id < bound,
        forall|i: int, j: int|
            0 <= i < j < survivors(moved).len() ==> (#[trigger] survivors(moved)[i]).id < (
            #[trigger] survivors(moved)[j]).id,
        forall|i: int|
            0 <= i < survivors(moved).len() ==> !expired(#[trigger] survivors(moved)[i]),
        forall|i: int|
            0 <= i < survivors(moved).len() ==> moved.contains(#[trigger] survivors(moved)[i]),
    decreases moved.len(),
{
    if moved.len() == 0 {
        lemma_sorting_empty();
        assert(moved =~= Seq::<Active>::empty());
    } else {
        let front = moved.drop_last();
        let last = moved.last();
        lemma_survivors_ordered(front, bound);
        lemma_sorting_step(front, last);
        assert(front.push(last) =~= moved);
        let kept = survivors(moved);
        assert forall|i: int| 0 <= i < kept.len() implies moved.contains(#[trigger] kept[i]) by {
            if i < survivors(front).len() {
                let k = choose|k: int| 0 <= k < front.len() && front[k] == survivors(front)[i];
                assert(moved[k] == kept[i]);
            } else {
                assert(moved[moved.len() - 1] == kept[i]);
            }
        }
        assert forall|i: int, j: int| 0 <= i < j < kept.len() implies (#[trigger] kept[i]).id < (
        #[trigger] kept[j]).id by {
            if j == survivors(front).len() {
                let k = choose|k: int| 0 <= k < front.len() && front[k] == survivors(front)[i];
                assert(moved[k].id < moved[moved.len() - 1].id);
            }
        }
    }
}

/// A tick leaves a population that the simulation can hold, and takes from
/// what is held back exactly the shells that it puts on the stage.
pub proof fn lemma_tick_well_formed(
    population: Seq<Active>,
    next_id: int,
    dt: int,
    kicks: Seq<Vector2>,
)
    requires
        well_formed(population, next_id),
    ensures
        well_formed(
            tick_spec(population, next_id, dt, kicks).population,
            tick_spec(population, next_id, dt, kicks).next_id,
        ),
        pending(tick_spec(population, next_id, dt, kicks).population) + tick_spec(
            population,
            next_id,
            dt,
            kicks,
        ).spawned.len() == pending(population),
{
    let moved = advanced(population, dt, kicks);
    let kept = survivors(moved);
    let born = offspring(casualties(moved), next_id);
    let after = kept + born;
    lemma_pending_advanced(population, dt, kicks);
    lemma_pending_sorted(moved);
    lemma_pending_offspring(casualties(moved), next_id);
    lemma_pending_concat(kept, born);
    lemma_offspring_fresh(casualties(moved), next_id);
    lemma_survivors_ordered(moved, next_id);
    assert forall|i: int| 0 <= i < after.len() implies 0 <= (#[trigger] after[i]).id < next_id
        + born.len() && waiting(after[i]) by {
        if i >= kept.len() {
            assert(after[i] == born[i - kept.len()]);
        }
    }
    assert forall|i: int, j: int| 0 <= i < j < after.len() implies (#[trigger] after[i]).id < (
    #[trigger] after[j]).id by {
        if j >= kept.len() {
            assert(after[j] == born[j - kept.len()]);
            if i >= kept.len() {
                assert(after[i] == born[i - kept.len()]);
            }
        }
    }
}

/// The casualties of a row are its shells whose lifetime has run out, and
/// the survivors are the others.
pub proof fn lemma_sorted_member(moved: Seq<Active>, shell: Active)
    ensures
        casualties(moved).contains(shell) <==> moved.contains(shell) && expired(shell),
        survivors(moved).contains(shell) <==> moved.contains(shell) && !expired(shell),
{
    let gone = |shell: Active| expired(shell);
    let stays = |shell: Active| !expired(shell);
    if casualties(moved).contains(shell) {
        moved.lemma_filter_contains_rev(gone, shell);
        let k = choose|k: int| 0 <= k < casualties(moved).len() && casualties(moved)[k] == shell;
        moved.lemma_filter_pred(gone, k);
    }
    if survivors(moved).contains(shell) {
        moved.lemma_filter_contains_rev(stays, shell);
        let k = choose|k: int| 0 <= k < survivors(moved).len() && survivors(moved)[k] == shell;
        moved.lemma_filter_pred(stays, k);
    }
    if moved.contains(shell) {
        let m = choose|m: int| 0 <= m < moved.len() && moved[m] == shell;
        if expired(shell) {
            moved.lemma_filter_contains(gone, m);
        } else {
            moved.lemma_filter_contains(stays, m);
        }
    }
}

/// What a tick does where one shell is in flight: the shell makes its step,
/// and either flies on alone, or leaves and its payload enters where it is.
pub proof fn lemma_tick_of_one(shell: Active, next_id: int, dt: int, kicks: Seq<Vector2>)
    ensures
        ({
            let moved = advance_spec(shell, dt, kick_at(kicks, 0));
            let born = hatch(moved.payload, next_id, moved.position);
            let outcome = tick_spec(seq![shell], next_id, dt, kicks);
            if expired(moved) {
                &&& outcome.population == born
                &&& outcome.next_id == next_id + moved.payload.len()
                &&& outcome.despawned == seq![id_spec(moved)]
                &&& outcome.spawned == states_spec(born)
            } else {
                &&& outcome.population == seq![moved]
                &&& outcome.next_id == next_id
                &&& outcome.despawned == Seq::<u64>::empty()
                &&& outcome.spawned == Seq::<EntityState>::empty()
            }
        }),
{
    let none = Seq::<Active>::empty();
    let moved = advance_spec(shell, dt, kick_at(kicks, 0));
    let born = hatch(moved.payload, next_id, moved.position);
    let row = advanced(seq![shell], dt, kicks);
    let outcome = tick_spec(seq![shell], next_id, dt, kicks);
    assert(row =~= none.push(moved));
    lemma_sorting_empty();
    lemma_sorting_step(none, moved);
    if expired(moved) {
        lemma_offspring_step(none, moved, next_id);
        assert(offspring(none, next_id) =~= none);
        assert(none + born =~= born);
        assert(outcome.population =~= born);
        assert(outcome.despawned =~= seq![id_spec(moved)]);
    } else {
        assert(offspring(none, next_id) =~= none);
        assert(outcome.population =~= seq![moved]);
        assert(outcome.despawned =~= Seq::<u64>::empty());
        assert(outcome.spawned =~= Seq::<EntityState>::empty());
    }
}

/// A shell in flight bursts in exactly the tick in which the time that its
/// lifetime has run first reaches the lifetime's length: in that tick the
/// host is told to take it off the stage and it is in flight no more, and in
/// every other tick it flies on and the host is told nothing of it.
pub proof fn lemma_single_fire(
    population: Seq<Active>,
    next_id: int,
    dt: int,
    kicks: Seq<Vector2>,
    i: int,
)
    requires
        well_formed(population, next_id),
        0 <= i < population.len(),
    ensures
        ({
            let outcome = tick_spec(population, next_id, dt, kicks);
            let life = population[i].projectile.life.0;
            let due = life.elapsed + elapse_spec(dt) >= life.duration;
            &&& outcome.despawned.contains(population[i].id as u64) <==> due
            &&& in_flight(outcome.population, population[i].id) <==> !due
        }),
{
    let outcome = tick_spec(population, next_id, dt, kicks);
    let moved = advanced(population, dt, kicks);
    let id = population[i].id;
    let life = population[i].projectile.life.0;
    let due = life.elapsed + elapse_spec(dt) >= life.duration;
    let born = offspring(casualties(moved), next_id);
    assert(moved[i].id == id);
    assert(waiting(population[i]));
    assert(expired(moved[i]) <==> due);
    assert(moved.contains(moved[i]));
    lemma_sorted_member(moved, moved[i]);
    lemma_offspring_fresh(casualties(moved), next_id);
    if outcome.despawned.contains(id as u64) {
        let k = choose|k: int|
            0 <= k < outcome.despawned.len() && outcome.despawned[k] == id as u64;
        let gone = casualties(moved)[k];
        assert(casualties(moved).contains(gone));
        lemma_sorted_member(moved, gone);
        let m = choose|m: int| 0 <= m < moved.len() && moved[m] == gone;
        assert(moved[m].id == population[m].id);
        assert(m == i) by {
            if m < i {
                assert(population[m].id < population[i].id);
            } else if i < m {
                assert(population[i].id < population[m].id);
            }
        }
    }
    if due {
        let k = choose|k: int| 0 <= k < casualties(moved).len() && casualties(moved)[k] == moved[i];
        assert(outcome.despawned[k] == id as u64);
    }
    if in_flight(outcome.population, id) {
        let k = choose|k: int|
            0 <= k < outcome.population.len() && (#[trigger] outcome.population[k]).id == id;
        if k < survivors(moved).len() {
            let stays = survivors(moved)[k];
            assert(survivors(moved).contains(stays));
            lemma_sorted_member(moved, stays);
            let m = choose|m: int| 0 <= m < moved.len() && moved[m] == stays;
            assert(moved[m].id == population[m].id);
            assert(m == i) by {
                if m < i {
                    assert(population[m].id < population[i].id);
                } else if i < m {
                    assert(population[i].id < population[m].id);
                }
            }
        } else {
            assert(outcome.population[k] == born[k - survivors(moved).len()]);
        }
    }
    if !due {
        let k = choose|k: int| 0 <= k < survivors(moved).len() && survivors(moved)[k] == moved[i];
        assert(outcome.population[k].id == id);
    }
}

/// A number that has been given out and whose shell is no longer in flight
/// never comes back: no later tick has a shell of that number in flight,
/// takes one off the stage or puts one on it. So no shell bursts twice.
pub proof fn lemma_gone_stays_gone(
    population: Seq<Active>,
    next_id: int,
    dt: int,
    kicks: Seq<Vector2>,
    id: int,
)
    requires
        well_formed(population, next_id),
        0 <= id < next_id,
        !in_flight(population, id),
    ensures
        ({
            let outcome = tick_spec(population, next_id, dt, kicks);
            &&& next_id <= outcome.next_id
            &&& !in_flight(outcome.population, id)
            &&& !outcome.despawned.contains(id as u64)
            &&& forall|k: int| 0 <= k < outcome.spawned.len() ==> outcome.spawned[k].id != id
        }),
{
    let outcome = tick_spec(population, next_id, dt, kicks);
    let moved = advanced(population, dt, kicks);
    let born = offspring(casualties(moved), next_id);
    lemma_offspring_fresh(casualties(moved), next_id);
    lemma_tick_well_formed(population, next_id, dt, kicks);
    if in_flight(outcome.population, id) {
        let k = choose|k: int|
            0 <= k < outcome.population.len() && (#[trigger] outcome.population[k]).id == id;
        if k < survivors(moved).len() {
            let stays = survivors(moved)[k];
            assert(survivors(moved).contains(stays));
            lemma_sorted_member(moved, stays);
            let m = choose|m: int| 0 <= m < moved.len() && moved[m] == stays;
            assert(population[m].id == id);
        } else {
            assert(outcome.population[k] == born[k - survivors(moved).len()]);
        }
    }
    if outcome.despawned.contains(id as u64) {
        let k = choose|k: int|
            0 <= k < outcome.despawned.len() && outcome.despawned[k] == id as u64;
        let gone = casualties(moved)[k];
        assert(casualties(moved).contains(gone));
        lemma_sorted_member(moved, gone);
        let m = choose|m: int| 0 <= m < moved.len() && moved[m] == gone;
        assert(population[m].id == moved[m].id);
    }
    assert forall|k: int| 0 <= k < outcome.spawned.len() implies outcome.spawned[k].id != id by {
        assert(outcome.spawned[k] == state_spec(born[k]));
    }
}

/// The motors of the children of a row of bursts have not started to burn.
pub proof fn lemma_offspring_rewound(burst: Seq<Active>, first_id: int)
    ensures
        forall|k: int|
            0 <= k < offspring(burst, first_id).len() ==> (#[trigger] offspring(
                burst,
                first_id,
            )[k]).projectile.accelerator is Some ==> offspring(
                burst,
                first_id,
            )[k].projectile.accelerator->0.burn_time.elapsed == 0,
    decreases burst.len(),
{
    if burst.len() > 0 {
        lemma_offspring_rewound(burst.drop_last(), first_id);
    }
}

/// Whether `child` is what the shell at place `j` of the payload of `parent`
/// becomes when `parent` bursts and the shell enters under the number `id`:
/// the shell as it was built, its countdowns at their start, where `parent`
/// is.
pub open spec fn released_by(child: Active, parent: Active, j: int, id: int) -> bool {
    &&& 0 <= j < parent.payload.len()
    &&& child == admitted(parent.payload[j], id, parent.position)
}

/// Each child of a row of bursts is a shell of the payload of one of the
/// bursts, as it was built, and enters where that burst is.
pub proof fn lemma_offspring_origin(burst: Seq<Active>, first_id: int, k: int)
    requires
        0 <= k < offspring(burst, first_id).len(),
    ensures
        exists|p: int, j: int|
            0 <= p < burst.len() && #[trigger] released_by(
                offspring(burst, first_id)[k],
                burst[p],
                j,
                first_id + k,
            ),
    decreases burst.len(),
{
    let before = offspring(burst.drop_last(), first_id);
    if k < before.len() {
        lemma_offspring_origin(burst.drop_last(), first_id, k);
        let (p, j) = choose|p: int, j: int|
            0 <= p < burst.drop_last().len() && #[trigger] released_by(
                before[k],
                burst.drop_last()[p],
                j,
                first_id + k,
            );
        assert(released_by(offspring(burst, first_id)[k], burst[p], j, first_id + k));
    } else {
        let p = burst.len() - 1;
        let j = k - before.len();
        assert(released_by(offspring(burst, first_id)[k], burst[p], j, first_id + k));
    }
}

/// A shell that a burst puts on the stage takes no part in the tick of the
/// burst. It gets a number that no shell had before; the host is not told to
/// take it off the stage in that tick; it is in flight when the tick is
/// over, as the host was shown it; and it is still the shell that was built
/// into the payload of a shell that burst in this tick, with its countdowns
/// at their start, at the place to which the tick has taken that shell.
pub proof fn lemma_no_same_tick_cascade(
    population: Seq<Active>,
    next_id: int,
    dt: int,
    kicks: Seq<Vector2>,
    k: int,
)
    requires
        well_formed(population, next_id),
        0 <= k < tick_spec(population, next_id, dt, kicks).spawned.len(),
    ensures
        ({
            let outcome = tick_spec(population, next_id, dt, kicks);
            let place = outcome.population.len() - outcome.spawned.len() + k;
            let child = outcome.population[place];
            &&& 0 <= place < outcome.population.len()
            &&& child.id == next_id + k
            &&& outcome.spawned[k] == state_spec(child)
            &&& !in_flight(population, child.id)
            &&& !outcome.despawned.contains(outcome.spawned[k].id)
            &&& child.projectile.life.0.elapsed == 0
            &&& child.projectile.accelerator is Some
                ==> child.projectile.accelerator->0.burn_time.elapsed == 0
            &&& exists|p: int, j: int|
                {
                    &&& 0 <= p < population.len()
                    &&& expired(advance_spec(population[p], dt, kick_at(kicks, p)))
                    &&& #[trigger] released_by(
                        child,
                        advance_spec(population[p], dt, kick_at(kicks, p)),
                        j,
                        next_id + k,
                    )
                }
        }),
{
    let outcome = tick_spec(population, next_id, dt, kicks);
    let moved = advanced(population, dt, kicks);
    let born = offspring(casualties(moved), next_id);
    let place = outcome.population.len() - outcome.spawned.len() + k;
    lemma_offspring_fresh(casualties(moved), next_id);
    lemma_offspring_rewound(casualties(moved), next_id);
    lemma_tick_well_formed(population, next_id, dt, kicks);
    lemma_offspring_origin(casualties(moved), next_id, k);
    let (c, j) = choose|c: int, j: int|
        0 <= c < casualties(moved).len() && #[trigger] released_by(
            born[k],
            casualties(moved)[c],
            j,
            next_id + k,
        );
    let parent = casualties(moved)[c];
    assert(casualties(moved).contains(parent));
    lemma_sorted_member(moved, parent);
    let p = choose|p: int| 0 <= p < moved.len() && moved[p] == parent;
    assert(released_by(born[k], advance_spec(population[p], dt, kick_at(kicks, p)), j, next_id + k));
    assert(outcome.population[place] == born[k]);
    assert(outcome.spawned[k] == state_spec(born[k]));
    if outcome.despawned.contains(outcome.spawned[k].id) {
        let d = choose|d: int|
            0 <= d < outcome.despawned.len() && outcome.despawned[d] == outcome.spawned[k].id;
        let gone = casualties(moved)[d];
        assert(casualties(moved).contains(gone));
        lemma_sorted_member(moved, gone);
        let m = choose|m: int| 0 <= m < moved.len() && moved[m] == gone;
        assert(population[m].id == moved[m].id);
    }
}

} // verus!
