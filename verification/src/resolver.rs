//! The decision pass of a tick: every particle is resolved once, in
//! resolution order, against the committed grid and the destinations that
//! the particles resolved before it have claimed.

use vstd::prelude::*;
use crate::order::{is_processing_order, lemma_processing_order, processing_order, sorted_ids};
use crate::rules::{decide, decision, lemma_decision};
use crate::staging::{claims_of, is_free, is_move, Staged, Updates};
use crate::world::{World, WorldView};

verus! {

/// The coin of the `k`-th resolved particle; a sequence that is too short
/// reads as tails from its end on.
pub open spec fn coin_at(coins: Seq<bool>, k: int) -> bool {
    0 <= k < coins.len() && coins[k]
}

/// The decisions for the first `count` particles of `order`, each taken with
/// the claims of those before it.
pub open spec fn resolved(
    world: WorldView,
    order: Seq<usize>,
    coins: Seq<bool>,
    count: int,
) -> Seq<Staged>
    decreases count,
{
    if count <= 0 {
        Seq::empty()
    } else {
        let earlier = resolved(world, order, coins, count - 1);
        let id = order[count - 1];
        let particle = world.particles[id as int];
        earlier.push(
            decision(
                id,
                particle.cell,
                particle.pixel,
                world.grid,
                claims_of(earlier),
                world.floor_row,
                coin_at(coins, count - 1),
            ),
        )
    }
}

/// The batch that one tick stages: one decision per particle, taken in
/// resolution order, the `k`-th with the `k`-th coin.
pub open spec fn resolution(world: WorldView, coins: Seq<bool>) -> Seq<Staged> {
    resolved(world, processing_order(world.particles), coins, world.particles.len() as int)
}

/// A decision pass is built front to back: its first decisions are the pass
/// over fewer particles.
pub proof fn lemma_resolved_prefix(
    world: WorldView,
    order: Seq<usize>,
    coins: Seq<bool>,
    count: int,
    shorter: int,
)
    requires
        0 <= shorter <= count,
    ensures
        resolved(world, order, coins, count).len() == count,
        resolved(world, order, coins, count).take(shorter) == resolved(
            world,
            order,
            coins,
            shorter,
        ),
    decreases count,
{
    if count > 0 {
        lemma_resolved_prefix(world, order, coins, count - 1, 0);
        if shorter < count {
            lemma_resolved_prefix(world, order, coins, count - 1, shorter);
            assert(resolved(world, order, coins, count).take(shorter) =~= resolved(
                world,
                order,
                coins,
                count - 1,
            ).take(shorter));
        } else {
            assert(resolved(world, order, coins, count).take(shorter) =~= resolved(
                world,
                order,
                coins,
                count,
            ));
        }
    } else {
        assert(resolved(world, order, coins, count).take(shorter) =~= resolved(
            world,
            order,
            coins,
            shorter,
        ));
    }
}

/// What holds of the decision staged at position `k` of a pass over
/// `order`: it is about the `k`-th particle of the order, and if it is a
/// move, it goes to a cell that neither the grid nor an earlier decision
/// has, at most one column aside, not upwards, and not below the floor row
/// if it loses height.
pub open spec fn decision_respects(
    world: WorldView,
    order: Seq<usize>,
    batch: Seq<Staged>,
    k: int,
) -> bool {
    let staged = batch[k];
    &&& staged.id == order[k]
    &&& staged.from == world.particles[order[k] as int].cell
    &&& is_move(staged) ==> is_free(world.grid, claims_of(batch.take(k)), staged.to)
    &&& staged.from.x - 1 <= staged.to.x <= staged.from.x + 1
    &&& staged.to.y <= staged.from.y
    &&& staged.to.y < staged.from.y ==> world.floor_row <= staged.to.y
}

/// Every decision of a pass is about its own particle, and every move goes
/// to a cell that was neither occupied in the grid nor claimed by an
/// earlier decision of the pass, never upwards, and never to a row below
/// the floor row unless it keeps its row.
pub proof fn lemma_resolved(world: WorldView, order: Seq<usize>, coins: Seq<bool>, count: int)
    requires
        0 <= count,
    ensures
        resolved(world, order, coins, count).len() == count,
        forall|k: int|
            0 <= k < count ==> #[trigger] decision_respects(
                world,
                order,
                resolved(world, order, coins, count),
                k,
            ),
    decreases count,
{
    let batch = resolved(world, order, coins, count);
    lemma_resolved_prefix(world, order, coins, count, 0);
    if count > 0 {
        let earlier = resolved(world, order, coins, count - 1);
        lemma_resolved(world, order, coins, count - 1);
        assert forall|k: int| 0 <= k < count implies #[trigger] decision_respects(
            world,
            order,
            batch,
            k,
        ) by {
            if k < count - 1 {
                assert(decision_respects(world, order, earlier, k));
                assert(batch[k] == earlier[k]);
                assert(batch.take(k) =~= earlier.take(k));
            } else {
                let id = order[k];
                let particle = world.particles[id as int];
                lemma_decision(
                    id,
                    particle.cell,
                    particle.pixel,
                    world.grid,
                    claims_of(earlier),
                    world.floor_row,
                    coin_at(coins, k),
                );
                assert(batch.take(k) =~= earlier);
            }
        }
    }
}

/// The moves of one tick never collide: each goes to a cell that the grid
/// did not hold when the tick began, no two go to the same cell, none goes
/// upwards or more than one column aside, and none that loses height ends
/// below the floor row. Every particle is resolved exactly once, in
/// resolution order.
pub proof fn lemma_resolution(world: WorldView, coins: Seq<bool>)
    requires
        world.wf(),
    ensures
        ({
            let batch = resolution(world, coins);
            let order = processing_order(world.particles);
            &&& is_processing_order(world.particles, order)
            &&& batch.len() == world.particles.len()
            &&& forall|k: int|
                0 <= k < batch.len() ==> #[trigger] decision_respects(world, order, batch, k)
            &&& forall|k: int|
                0 <= k < batch.len() && is_move(#[trigger] batch[k]) ==> !world.grid.contains_key(
                    batch[k].to,
                )
            &&& forall|j: int, k: int|
                0 <= j < k < batch.len() && is_move(#[trigger] batch[j]) && is_move(
                    #[trigger] batch[k],
                ) ==> batch[j].to != batch[k].to
        }),
{
    let batch = resolution(world, coins);
    let order = processing_order(world.particles);
    lemma_processing_order(world.particles);
    lemma_resolved(world, order, coins, world.particles.len() as int);
    assert forall|k: int|
        0 <= k < batch.len() && is_move(#[trigger] batch[k]) implies !world.grid.contains_key(
        batch[k].to,
    ) by {
        assert(decision_respects(world, order, batch, k));
    }
    assert forall|j: int, k: int|
        0 <= j < k < batch.len() && is_move(#[trigger] batch[j]) && is_move(
            #[trigger] batch[k],
        ) implies batch[j].to != batch[k].to by {
        assert(decision_respects(world, order, batch, k));
        assert(batch.take(k)[j] == batch[j]);
        assert(claims_of(batch.take(k)).contains(batch[j].to));
    }
}

/// The decision pass of one tick. Reads the world, changes nothing, and
/// returns the staged batch.
pub fn resolve_moves(world: &World, coins: &Vec<bool>) -> (updates: Updates)
    ensures
        updates@ == resolution(world@, coins@),
{
    proof {
        use_type_invariant(world);
    }
    let particles = world.particles();
    let order = sorted_ids(world);
    let mut updates = Updates::new();
    let mut k: usize = 0;
    while k < order.len()
        invariant
            order@ == processing_order(world@.particles),
            order@.len() == world@.particles.len(),
            forall|j: int|
                0 <= j < order@.len() ==> (#[trigger] order@[j]) < world@.particles.len(),
            particles@ == world@.particles,
            k <= order@.len(),
            updates@ == resolved(world@, order@, coins@, k as int),
        decreases order@.len() - k,
    {
        let id = order[k];
        let particle = particles[id];
        let coin = k < coins.len() && coins[k];
        let staged = decide(
            id,
            particle.cell,
            &particle.pixel,
            world.grid(),
            &updates,
            world.floor_row(),
            coin,
        );
        updates.stage(staged);
        k = k + 1;
    }
    updates
}

} // verus!
