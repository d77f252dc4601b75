//! The commit phase of a tick: the staged batch is applied to the store and
//! the grid, one decision after the other, strictly after the last decision
//! has been taken.

use vstd::prelude::*;
use crate::staging::{is_move, Move, Staged, Updates};
use crate::world::{
    cells_distinct, holds, lemma_grid_store_bijection, lemma_occupancy_move, Particle, World,
};

verus! {

/// Whether a staged decision still applies to a store: its particle exists
/// and is where the decision found it, and the destination is the
/// particle's own cell or an unoccupied one.
pub open spec fn applies(particles: Seq<Particle>, staged: Staged) -> bool {
    &&& staged.id < particles.len()
    &&& particles[staged.id as int].cell == staged.from
    &&& (staged.to == staged.from || !holds(particles, staged.to))
}

/// A store after one staged decision: applied if it still applies, dropped
/// otherwise.
pub open spec fn committed_one(particles: Seq<Particle>, staged: Staged) -> Seq<Particle> {
    if applies(particles, staged) {
        particles.update(staged.id as int, Particle { cell: staged.to, pixel: staged.pixel })
    } else {
        particles
    }
}

/// A store after a batch of decisions, applied one after the other.
pub open spec fn committed(particles: Seq<Particle>, batch: Seq<Staged>) -> Seq<Particle>
    decreases batch.len(),
{
    if batch.len() == 0 {
        particles
    } else {
        committed_one(committed(particles, batch.drop_last()), batch.last())
    }
}

/// The changes of cell that committing a batch performs, in batch order.
pub open spec fn committed_moves(particles: Seq<Particle>, batch: Seq<Staged>) -> Seq<Move>
    decreases batch.len(),
{
    if batch.len() == 0 {
        Seq::empty()
    } else {
        let before = committed(particles, batch.drop_last());
        let earlier = committed_moves(particles, batch.drop_last());
        let staged = batch.last();
        if applies(before, staged) && is_move(staged) {
            earlier.push(Move { id: staged.id, from: staged.from, to: staged.to })
        } else {
            earlier
        }
    }
}

/// The moves of a batch, in batch order.
pub open spec fn staged_moves(batch: Seq<Staged>) -> Seq<Move>
    decreases batch.len(),
{
    if batch.len() == 0 {
        Seq::empty()
    } else {
        let earlier = staged_moves(batch.drop_last());
        let staged = batch.last();
        if is_move(staged) {
            earlier.push(Move { id: staged.id, from: staged.from, to: staged.to })
        } else {
            earlier
        }
    }
}

/// Committing any batch whatever keeps the store the same size and its
/// cells distinct: no particle is lost or duplicated, and no cell gets a
/// second occupant.
pub proof fn lemma_committed_distinct(particles: Seq<Particle>, batch: Seq<Staged>)
    requires
        cells_distinct(particles),
        particles.len() <= usize::MAX,
    ensures
        committed(particles, batch).len() == particles.len(),
        cells_distinct(committed(particles, batch)),
    decreases batch.len(),
{
    if batch.len() > 0 {
        let before = committed(particles, batch.drop_last());
        let staged = batch.last();
        lemma_committed_distinct(particles, batch.drop_last());
        if applies(before, staged) {
            lemma_occupancy_move(
                before,
                staged.id as int,
                Particle { cell: staged.to, pixel: staged.pixel },
            );
        }
    }
}

/// The commit phase: applies a staged batch to the world, decision by
/// decision, and returns the changes of cell it performed.
///
/// A decision whose particle no longer exists or is no longer in the cell
/// where the decision found it is dropped, and so is one whose destination
/// has meanwhile been taken; dropping is silent.
pub fn commit(world: &mut World, updates: &Updates) -> (moves: Vec<Move>)
    ensures
        final(world)@.wf(),
        final(world)@.floor_row == old(world)@.floor_row,
        final(world)@.particles == committed(old(world)@.particles, updates@),
        final(world)@.particles.len() == old(world)@.particles.len(),
        moves@ == committed_moves(old(world)@.particles, updates@),
{
    let mut moves: Vec<Move> = Vec::new();
    let mut k: usize = 0;
    proof {
        use_type_invariant(&*world);
        lemma_committed_distinct(world@.particles, updates@);
        assert(updates@.take(0) =~= Seq::<Staged>::empty());
    }
    while k < updates.len()
        invariant
            k <= updates@.len(),
            world@.wf(),
            world@.floor_row == old(world)@.floor_row,
            world@.particles == committed(old(world)@.particles, updates@.take(k as int)),
            moves@ == committed_moves(old(world)@.particles, updates@.take(k as int)),
        decreases updates@.len() - k,
    {
        proof {
            assert(updates@.take(k + 1).drop_last() =~= updates@.take(k as int));
            assert(updates@.take(k + 1).last() == updates@[k as int]);
            lemma_grid_store_bijection(world@);
        }
        if let Some(staged) = updates.get(k) {
            if world.occupant(staged.from) == Some(staged.id) {
                let stays = staged.to.x == staged.from.x && staged.to.y == staged.from.y;
                let done = world.relocate(staged.id, staged.to, staged.pixel);
                if done && !stays {
                    moves.push(Move { id: staged.id, from: staged.from, to: staged.to });
                }
            }
        }
        k = k + 1;
    }
    assert(updates@.take(k as int) =~= updates@);
    moves
}

} // verus!
