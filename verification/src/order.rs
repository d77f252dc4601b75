//! The order in which the particles of a tick are resolved: by ascending
//! row, and within a row by ascending column.

use vstd::prelude::*;
use crate::cell::{precedes, Cell};
use crate::world::{cells_distinct, Particle, World};

verus! {

/// Whether `order` lists the identifiers of `particles` in resolution order:
/// every identifier once, their cells strictly ascending by (row, column).
pub open spec fn is_processing_order(particles: Seq<Particle>, order: Seq<usize>) -> bool {
    &&& order.len() == particles.len()
    &&& forall|k: int| 0 <= k < order.len() ==> (#[trigger] order[k]) < particles.len()
    &&& forall|id: usize| id < particles.len() ==> #[trigger] order.contains(id)
    &&& forall|j: int, k: int|
        0 <= j < k < order.len() ==> precedes(
            particles[(#[trigger] order[j]) as int].cell,
            particles[(#[trigger] order[k]) as int].cell,
        )
}

/// The resolution order of a store whose cells are distinct.
pub open spec fn processing_order(particles: Seq<Particle>) -> Seq<usize> {
    choose|order: Seq<usize>| is_processing_order(particles, order)
}

/// Going through one resolution order, the place of each identifier in
/// another resolution order never falls behind.
proof fn lemma_position_lower(particles: Seq<Particle>, a: Seq<usize>, b: Seq<usize>, i: int)
    requires
        is_processing_order(particles, a),
        is_processing_order(particles, b),
        0 <= i < a.len(),
    ensures
        b.contains(a[i]),
        i <= b.index_of(a[i]),
    decreases i,
{
    assert(b.contains(a[i]));
    if i > 0 {
        lemma_position_lower(particles, a, b, i - 1);
        let p = b.index_of(a[i - 1]);
        let q = b.index_of(a[i]);
        assert(b[p] == a[i - 1] && b[q] == a[i]);
        assert(precedes(particles[a[i - 1] as int].cell, particles[a[i] as int].cell));
        if q < p {
            assert(precedes(particles[b[q] as int].cell, particles[b[p] as int].cell));
        }
    }
}

/// Going through one resolution order, the place of each identifier in
/// another resolution order never runs ahead.
proof fn lemma_position_upper(particles: Seq<Particle>, a: Seq<usize>, b: Seq<usize>, i: int)
    requires
        is_processing_order(particles, a),
        is_processing_order(particles, b),
        0 <= i < a.len(),
    ensures
        b.contains(a[i]),
        b.index_of(a[i]) <= i,
    decreases a.len() - i,
{
    assert(b.contains(a[i]));
    if i + 1 < a.len() {
        lemma_position_upper(particles, a, b, i + 1);
        let p = b.index_of(a[i]);
        let q = b.index_of(a[i + 1]);
        assert(b[p] == a[i] && b[q] == a[i + 1]);
        assert(precedes(particles[a[i] as int].cell, particles[a[i + 1] as int].cell));
        if q < p {
            assert(precedes(particles[b[q] as int].cell, particles[b[p] as int].cell));
        }
    }
}

/// A store has at most one resolution order.
pub proof fn lemma_processing_order_unique(particles: Seq<Particle>, a: Seq<usize>, b: Seq<usize>)
    requires
        is_processing_order(particles, a),
        is_processing_order(particles, b),
    ensures
        a == b,
{
    assert forall|i: int| 0 <= i < a.len() implies a[i] == b[i] by {
        lemma_position_lower(particles, a, b, i);
        lemma_position_upper(particles, a, b, i);
    }
    assert(a =~= b);
}

/// Whether `a` comes before `b` in resolution order.
pub fn cell_precedes(a: &Cell, b: &Cell) -> (before: bool)
    ensures
        before == precedes(*a, *b),
{
    a.y < b.y || (a.y == b.y && a.x < b.x)
}

/// The first `count` identifiers, in resolution order among themselves.
spec fn is_partial_order(particles: Seq<Particle>, order: Seq<usize>, count: int) -> bool {
    &&& order.len() == count
    &&& forall|k: int| 0 <= k < order.len() ==> (#[trigger] order[k]) < count
    &&& forall|id: usize| id < count ==> #[trigger] order.contains(id)
    &&& forall|j: int, k: int|
        0 <= j < k < order.len() ==> precedes(
            particles[(#[trigger] order[j]) as int].cell,
            particles[(#[trigger] order[k]) as int].cell,
        )
}

/// Inserting the next identifier at the place where its cell belongs keeps
/// the order.
proof fn lemma_insert_in_order(particles: Seq<Particle>, order: Seq<usize>, count: usize, at: int)
    requires
        cells_distinct(particles),
        count < particles.len(),
        is_partial_order(particles, order, count as int),
        0 <= at <= order.len(),
        forall|k: int|
            at <= k < order.len() ==> precedes(
                particles[count as int].cell,
                particles[(#[trigger] order[k]) as int].cell,
            ),
        forall|k: int|
            0 <= k < at ==> precedes(
                particles[(#[trigger] order[k]) as int].cell,
                particles[count as int].cell,
            ),
    ensures
        is_partial_order(particles, order.insert(at, count), count + 1),
{
    let after = order.insert(at, count);
    order.insert_ensures(at, count);
    assert forall|id: usize| id < count + 1 implies #[trigger] after.contains(id) by {
        if id < count {
            assert(order.contains(id));
            let k = order.index_of(id);
            if k < at {
                assert(after[k] == id);
            } else {
                assert(after[k + 1] == id);
            }
        } else {
            assert(after[at] == id);
        }
    }
    assert forall|j: int, k: int| 0 <= j < k < after.len() implies precedes(
        particles[(#[trigger] after[j]) as int].cell,
        particles[(#[trigger] after[k]) as int].cell,
    ) by {
        let jj = if j < at {
            j
        } else {
            j - 1
        };
        let kk = if k < at {
            k
        } else {
            k - 1
        };
        if j != at {
            assert(after[j] == order[jj]);
        }
        if k != at {
            assert(after[k] == order[kk]);
        }
    }
}

/// Where the cell of particle `count` belongs among the first `count`
/// identifiers in order: after every cell that precedes it.
proof fn lemma_insertion_point(
    particles: Seq<Particle>,
    order: Seq<usize>,
    count: usize,
    bound: int,
) -> (at: int)
    requires
        cells_distinct(particles),
        count < particles.len(),
        is_partial_order(particles, order, count as int),
        0 <= bound <= order.len(),
        forall|k: int|
            bound <= k < order.len() ==> precedes(
                particles[count as int].cell,
                particles[(#[trigger] order[k]) as int].cell,
            ),
    ensures
        0 <= at <= order.len(),
        forall|k: int|
            at <= k < order.len() ==> precedes(
                particles[count as int].cell,
                particles[(#[trigger] order[k]) as int].cell,
            ),
        forall|k: int|
            0 <= k < at ==> precedes(
                particles[(#[trigger] order[k]) as int].cell,
                particles[count as int].cell,
            ),
    decreases bound,
{
    if bound > 0 && precedes(
        particles[count as int].cell,
        particles[order[bound - 1] as int].cell,
    ) {
        lemma_insertion_point(particles, order, count, bound - 1)
    } else {
        if bound > 0 {
            let last = order[bound - 1];
            assert(particles[last as int].cell != particles[count as int].cell);
            assert forall|k: int| 0 <= k < bound implies precedes(
                particles[(#[trigger] order[k]) as int].cell,
                particles[count as int].cell,
            ) by {
                if k < bound - 1 {
                    assert(precedes(
                        particles[order[k] as int].cell,
                        particles[order[bound - 1] as int].cell,
                    ));
                }
            }
        }
        bound
    }
}

/// The first `count` identifiers of a store of distinct cells can be put in
/// resolution order.
proof fn lemma_partial_order_exists(particles: Seq<Particle>, count: usize) -> (order: Seq<usize>)
    requires
        cells_distinct(particles),
        count <= particles.len(),
    ensures
        is_partial_order(particles, order, count as int),
    decreases count,
{
    if count == 0 {
        Seq::empty()
    } else {
        let shorter = lemma_partial_order_exists(particles, (count - 1) as usize);
        let at = lemma_insertion_point(
            particles,
            shorter,
            (count - 1) as usize,
            shorter.len() as int,
        );
        lemma_insert_in_order(particles, shorter, (count - 1) as usize, at);
        shorter.insert(at, (count - 1) as usize)
    }
}

/// A store of distinct cells has a resolution order, and `processing_order`
/// is it: it lists every identifier once, and no identifier twice.
pub proof fn lemma_processing_order(particles: Seq<Particle>)
    requires
        cells_distinct(particles),
        particles.len() <= usize::MAX,
    ensures
        is_processing_order(particles, processing_order(particles)),
        forall|j: int, k: int|
            0 <= j < k < particles.len() ==> (#[trigger] processing_order(particles)[j]) != (
            #[trigger] processing_order(particles)[k]),
{
    let witness = lemma_partial_order_exists(particles, particles.len() as usize);
    assert(is_processing_order(particles, witness));
    let order = processing_order(particles);
    assert forall|j: int, k: int| 0 <= j < k < particles.len() implies (#[trigger] order[j]) != (
    #[trigger] order[k]) by {
        assert(precedes(particles[order[j] as int].cell, particles[order[k] as int].cell));
    }
}

/// Lists the identifiers of the particles of `world` in resolution order.
pub fn sorted_ids(world: &World) -> (order: Vec<usize>)
    ensures
        is_processing_order(world@.particles, order@),
        order@ == processing_order(world@.particles),
{
    proof {
        use_type_invariant(world);
    }
    let particles = world.particles();
    let mut order: Vec<usize> = Vec::new();
    let mut next: usize = 0;
    while next < particles.len()
        invariant
            cells_distinct(particles@),
            next <= particles@.len(),
            is_partial_order(particles@, order@, next as int),
        decreases particles@.len() - next,
    {
        let cell = particles[next].cell;
        let mut at: usize = order.len();
        while at > 0 && cell_precedes(&cell, &particles[order[at - 1]].cell)
            invariant
                next < particles@.len(),
                cell == particles@[next as int].cell,
                is_partial_order(particles@, order@, next as int),
                at <= order@.len(),
                forall|k: int|
                    at <= k < order@.len() ==> precedes(
                        cell,
                        particles@[(#[trigger] order@[k]) as int].cell,
                    ),
            decreases at,
        {
            at = at - 1;
        }
        proof {
            assert forall|k: int| 0 <= k < at implies precedes(
                particles@[(#[trigger] order@[k]) as int].cell,
                cell,
            ) by {
                let last = order@[at - 1];
                assert(last < next);
                assert(particles@[last as int].cell != particles@[next as int].cell);
                if k < at - 1 {
                    assert(precedes(
                        particles@[order@[k] as int].cell,
                        particles@[order@[at - 1] as int].cell,
                    ));
                }
            }
            lemma_insert_in_order(particles@, order@, next, at as int);
        }
        order.insert(at, next);
        next = next + 1;
    }
    proof {
        let witness = order@;
        assert(is_processing_order(particles@, witness));
        lemma_processing_order_unique(particles@, witness, processing_order(particles@));
    }
    order
}

} // verus!
