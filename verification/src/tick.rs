//! The tick as a whole: what committing the decisions of one pass achieves.
//!
//! The decision pass only ever stages moves into cells that are free in
//! the committed grid and unclaimed so far. The commit therefore finds
//! every decision still applicable, drops none, and leaves every particle
//! in a cell of its own.

use vstd::prelude::*;
use crate::cell::Cell;
use crate::commit::{applies, committed, committed_moves, staged_moves};
use crate::order::{is_processing_order, lemma_processing_order, processing_order};
use crate::resolver::{
    decision_respects, lemma_resolution, lemma_resolved, lemma_resolved_prefix, resolution,
    resolved,
};
use crate::staging::{claims_of, is_move, Move, Staged};
use crate::world::{holds, lemma_grid_store_bijection, Particle, WorldView};

verus! {

/// Whether `after` is `particles` with the first `count` decisions of a
/// pass carried out: each resolved particle is where its decision put it,
/// in the state its decision gave it, and every other particle is untouched.
pub open spec fn carried_out(
    particles: Seq<Particle>,
    order: Seq<usize>,
    batch: Seq<Staged>,
    after: Seq<Particle>,
    count: int,
) -> bool {
    &&& after.len() == particles.len()
    &&& forall|j: int|
        0 <= j < count ==> after[(#[trigger] order[j]) as int] == Particle {
            cell: batch[j].to,
            pixel: batch[j].pixel,
        }
    &&& forall|j: int|
        count <= j < order.len() ==> after[(#[trigger] order[j]) as int]
            == particles[order[j] as int]
}

/// Committing the decisions of a pass drops none of them.
proof fn lemma_commit_resolved(world: WorldView, coins: Seq<bool>, count: int)
    requires
        world.wf(),
        0 <= count <= world.particles.len(),
    ensures
        ({
            let order = processing_order(world.particles);
            let batch = resolved(world, order, coins, count);
            &&& carried_out(
                world.particles,
                order,
                batch,
                committed(world.particles, batch),
                count,
            )
            &&& committed_moves(world.particles, batch) == staged_moves(batch)
        }),
    decreases count,
{
    let particles = world.particles;
    let order = processing_order(particles);
    let batch = resolved(world, order, coins, count);
    lemma_processing_order(particles);
    if count > 0 {
        let last = count - 1;
        let earlier = resolved(world, order, coins, last);
        let staged = batch.last();
        let before = committed(particles, earlier);
        lemma_commit_resolved(world, coins, last);
        lemma_resolved(world, order, coins, count);
        lemma_resolved(world, order, coins, last);
        lemma_resolved_prefix(world, order, coins, count, last);
        assert(batch.drop_last() =~= earlier);
        assert(decision_respects(world, order, batch, last));
        assert(batch.take(last) =~= earlier);
        assert(order[last] < particles.len());
        assert(before[order[last] as int] == particles[order[last] as int]);
        if is_move(staged) && holds(before, staged.to) {
            let i = choose|i: int|
                0 <= i < before.len() && (#[trigger] before[i]).cell == staged.to;
            assert(order.contains(i as usize));
            let j = order.index_of(i as usize);
            assert(order[j] == i);
            if j < last {
                assert(decision_respects(world, order, earlier, j));
                if is_move(earlier[j]) {
                    assert(claims_of(earlier).contains(staged.to));
                } else {
                    assert(particles[i].cell == staged.to);
                }
            } else {
                assert(particles[i].cell == staged.to);
            }
            // An occupied destination contradicts the decision: it was taken
            // for a cell that the grid did not hold.
            assert(holds(particles, staged.to));
        }
        assert(applies(before, staged));
        let after = committed(particles, batch);
        assert(after == before.update(
            staged.id as int,
            Particle { cell: staged.to, pixel: staged.pixel },
        ));
        assert forall|j: int| 0 <= j < count implies after[(#[trigger] order[j]) as int]
            == (Particle { cell: batch[j].to, pixel: batch[j].pixel }) by {
            if j < last {
                assert(order[j] != order[last]);
                assert(batch[j] == earlier[j]);
            }
        }
        assert forall|j: int| count <= j < order.len() implies after[(#[trigger] order[j]) as int]
            == particles[order[j] as int] by {
            assert(order[last] != order[j]);
        }
    }
}

/// What a tick does, said particle by particle. Every decision of the
/// pass is committed, none is dropped: afterwards each particle is in the
/// cell, and in the state, that its decision named, and the changes of
/// cell are exactly the staged moves.
pub proof fn lemma_tick(world: WorldView, coins: Seq<bool>)
    requires
        world.wf(),
    ensures
        ({
            let order = processing_order(world.particles);
            let batch = resolution(world, coins);
            &&& is_processing_order(world.particles, order)
            &&& carried_out(
                world.particles,
                order,
                batch,
                committed(world.particles, batch),
                world.particles.len() as int,
            )
            &&& committed_moves(world.particles, batch) == staged_moves(batch)
        }),
{
    lemma_processing_order(world.particles);
    lemma_commit_resolved(world, coins, world.particles.len() as int);
}

/// Whether a list of committed moves is free of conflicts with the grid it
/// was decided on: every move leaves an occupied cell for one that was
/// unoccupied, no two moves share a destination, no move goes upwards or
/// further than one column aside, and no move that loses height ends below
/// the floor row.
pub open spec fn conflict_free(grid: Map<Cell, usize>, floor_row: i32, moves: Seq<Move>) -> bool {
    &&& forall|i: int|
        0 <= i < moves.len() ==> {
            let m = #[trigger] moves[i];
            &&& grid.contains_key(m.from) && grid[m.from] == m.id
            &&& !grid.contains_key(m.to)
            &&& m.from.x - 1 <= m.to.x <= m.from.x + 1
            &&& m.to.y <= m.from.y
            &&& m.to.y < m.from.y ==> floor_row <= m.to.y
        }
    &&& forall|i: int, j: int|
        0 <= i < j < moves.len() ==> (#[trigger] moves[i]).to != (#[trigger] moves[j]).to
}

/// The moves of a batch inherit what holds of its decisions.
proof fn lemma_staged_moves(world: WorldView, order: Seq<usize>, batch: Seq<Staged>, count: int)
    requires
        world.wf(),
        is_processing_order(world.particles, order),
        0 <= count <= batch.len() <= order.len(),
        forall|k: int|
            0 <= k < batch.len() ==> #[trigger] decision_respects(world, order, batch, k),
    ensures
        conflict_free(world.grid, world.floor_row, staged_moves(batch.take(count))),
        forall|i: int|
            0 <= i < staged_moves(batch.take(count)).len() ==> claims_of(
                batch.take(count),
            ).contains((#[trigger] staged_moves(batch.take(count))[i]).to),
    decreases count,
{
    let moves = staged_moves(batch.take(count));
    if count > 0 {
        let last = count - 1;
        lemma_staged_moves(world, order, batch, last);
        assert(batch.take(count).drop_last() =~= batch.take(last));
        assert(batch.take(count).last() == batch[last]);
        let earlier = staged_moves(batch.take(last));
        let staged = batch[last];
        assert(decision_respects(world, order, batch, last));
        lemma_grid_store_bijection(world);
        assert forall|i: int| 0 <= i < moves.len() implies claims_of(batch.take(count)).contains(
            (#[trigger] moves[i]).to,
        ) by {
            if i < earlier.len() {
                assert(moves[i] == earlier[i]);
                assert(claims_of(batch.take(last)).contains(earlier[i].to));
                let k = choose|k: int|
                    0 <= k < batch.take(last).len() && is_move(#[trigger] batch.take(last)[k])
                        && batch.take(last)[k].to == earlier[i].to;
                assert(batch.take(count)[k] == batch.take(last)[k]);
            } else {
                assert(batch.take(count)[last] == staged);
            }
        }
        assert forall|i: int| 0 <= i < moves.len() implies {
            let m = #[trigger] moves[i];
            &&& world.grid.contains_key(m.from) && world.grid[m.from] == m.id
            &&& !world.grid.contains_key(m.to)
            &&& m.from.x - 1 <= m.to.x <= m.from.x + 1
            &&& m.to.y <= m.from.y
            &&& m.to.y < m.from.y ==> world.floor_row <= m.to.y
        } by {
            if i < earlier.len() {
                assert(moves[i] == earlier[i]);
            } else {
                assert(world.particles[order[last] as int].cell == staged.from);
            }
        }
        assert forall|i: int, j: int| 0 <= i < j < moves.len() implies (#[trigger] moves[i]).to != (
        #[trigger] moves[j]).to by {
            assert(moves[i] == earlier[i]);
            if j < earlier.len() {
                assert(moves[j] == earlier[j]);
            } else {
                assert(claims_of(batch.take(last)).contains(earlier[i].to));
            }
        }
    }
}

/// The committed moves of a tick are free of conflicts with the grid the
/// tick began on.
pub proof fn lemma_tick_conflict_free(world: WorldView, coins: Seq<bool>)
    requires
        world.wf(),
    ensures
        conflict_free(world.grid, world.floor_row, staged_moves(resolution(world, coins))),
{
    let batch = resolution(world, coins);
    lemma_resolution(world, coins);
    lemma_staged_moves(world, processing_order(world.particles), batch, batch.len() as int);
    assert(batch.take(batch.len() as int) =~= batch);
}

} // verus!
