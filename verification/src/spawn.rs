//! Spawning: new particles are created in the cells of a brush that are
//! still unoccupied; occupied cells are passed over in silence.

use vstd::prelude::*;
use crate::brush::{in_ring, lemma_ring_complete, lemma_ring_members, ring, ring_cells};
use crate::cell::Cell;
use crate::pixel_types::{fresh_pixel, Pixel, PixelType};
use crate::world::{cells_distinct, holds, lemma_grid_store_bijection, Particle, World};

verus! {

/// The roll for the `k`-th cell of a brush; a sequence that is too short
/// reads as zero from its end on.
pub open spec fn roll_at(rolls: Seq<u32>, k: int) -> u32 {
    if 0 <= k < rolls.len() {
        rolls[k]
    } else {
        0
    }
}

/// A store after spawning over `cells`, one after the other: each cell that
/// is unoccupied when its turn comes receives a fresh particle of the
/// selected material, the `k`-th cell using the `k`-th roll.
pub open spec fn spawned(
    particles: Seq<Particle>,
    cells: Seq<Cell>,
    selected: PixelType,
    rolls: Seq<u32>,
) -> Seq<Particle>
    decreases cells.len(),
{
    if cells.len() == 0 {
        particles
    } else {
        let before = spawned(particles, cells.drop_last(), selected, rolls);
        if holds(before, cells.last()) {
            before
        } else {
            before.push(
                Particle {
                    cell: cells.last(),
                    pixel: fresh_pixel(selected, roll_at(rolls, cells.len() - 1)),
                },
            )
        }
    }
}

/// Spawning only ever appends: the particles that existed keep their
/// identifiers, cells and state. Every new particle sits in one of the
/// given cells, in one that was unoccupied; no two particles share a cell
/// afterwards; and every given cell is occupied afterwards.
pub proof fn lemma_spawned(
    particles: Seq<Particle>,
    cells: Seq<Cell>,
    selected: PixelType,
    rolls: Seq<u32>,
)
    requires
        cells_distinct(particles),
    ensures
        ({
            let after = spawned(particles, cells, selected, rolls);
            &&& particles.len() <= after.len() <= particles.len() + cells.len()
            &&& after.take(particles.len() as int) == particles
            &&& cells_distinct(after)
            &&& forall|k: int|
                particles.len() <= k < after.len() ==> cells.contains((#[trigger] after[k]).cell)
                    && !holds(particles, after[k].cell)
            &&& forall|j: int| 0 <= j < cells.len() ==> holds(after, #[trigger] cells[j])
        }),
    decreases cells.len(),
{
    let after = spawned(particles, cells, selected, rolls);
    if cells.len() == 0 {
        assert(after.take(particles.len() as int) =~= particles);
    } else {
        let front = cells.drop_last();
        let before = spawned(particles, front, selected, rolls);
        lemma_spawned(particles, front, selected, rolls);
        assert(after.take(particles.len() as int) =~= before.take(particles.len() as int));
        assert forall|k: int| particles.len() <= k < after.len() implies cells.contains(
            (#[trigger] after[k]).cell,
        ) && !holds(particles, after[k].cell) by {
            if k < before.len() {
                assert(after[k] == before[k]);
                let j = front.index_of(before[k].cell);
                assert(front.contains(before[k].cell));
                assert(cells[j] == before[k].cell);
            } else {
                assert(after[k].cell == cells.last());
                assert(cells[cells.len() - 1] == cells.last());
                if holds(particles, cells.last()) {
                    let i = choose|i: int|
                        0 <= i < particles.len() && (#[trigger] particles[i]).cell == cells.last();
                    assert(before.take(particles.len() as int)[i] == before[i]);
                }
            }
        }
        assert forall|i: int, j: int| 0 <= i < j < after.len() implies (#[trigger] after[i]).cell
            != (#[trigger] after[j]).cell by {
            if j < before.len() {
                assert(after[i] == before[i] && after[j] == before[j]);
            } else {
                assert(after[i] == before[i]);
            }
        }
        assert forall|j: int| 0 <= j < cells.len() implies holds(after, #[trigger] cells[j]) by {
            if j < front.len() {
                assert(front[j] == cells[j]);
                let i = choose|i: int|
                    0 <= i < before.len() && (#[trigger] before[i]).cell == front[j];
                assert(after[i] == before[i]);
            } else if holds(before, cells.last()) {
            } else {
                assert(after[after.len() - 1].cell == cells.last());
            }
        }
    }
}

/// Spawning over a brush creates particles only in cells of the ring, which
/// lie at a squared distance between `(radius - 1)²` and `radius²` from the
/// origin, and only in cells that were unoccupied; the particles that
/// existed are left exactly as they were. Afterwards every cell of the
/// ring is occupied.
pub proof fn lemma_spawned_ring(
    particles: Seq<Particle>,
    origin: Cell,
    radius: int,
    selected: PixelType,
    rolls: Seq<u32>,
)
    requires
        cells_distinct(particles),
    ensures
        ({
            let after = spawned(particles, ring(origin, radius), selected, rolls);
            &&& particles.len() <= after.len()
            &&& after.take(particles.len() as int) == particles
            &&& cells_distinct(after)
            &&& forall|k: int|
                particles.len() <= k < after.len() ==> {
                    let cell = (#[trigger] after[k]).cell;
                    &&& in_ring(cell.x - origin.x, cell.y - origin.y, radius)
                    &&& !holds(particles, cell)
                }
            &&& forall|cell: Cell|
                in_ring(cell.x - origin.x, cell.y - origin.y, radius) ==> #[trigger] holds(
                    after,
                    cell,
                )
        }),
{
    let cells = ring(origin, radius);
    let after = spawned(particles, cells, selected, rolls);
    lemma_spawned(particles, cells, selected, rolls);
    lemma_ring_members(origin, radius, radius + 1);
    assert forall|cell: Cell|
        in_ring(cell.x - origin.x, cell.y - origin.y, radius) implies #[trigger] holds(
        after,
        cell,
    ) by {
        lemma_ring_complete(origin, radius, cell);
        let j = cells.index_of(cell);
        assert(cells[j] == cell);
    }
    assert forall|k: int| particles.len() <= k < after.len() implies {
        let cell = (#[trigger] after[k]).cell;
        &&& in_ring(cell.x - origin.x, cell.y - origin.y, radius)
        &&& !holds(particles, cell)
    } by {
        let cell = after[k].cell;
        assert(cells.contains(cell));
        let j = cells.index_of(cell);
        assert(cells[j] == cell);
    }
}

/// Whether `after` is `before` with particles added in the ring around
/// `origin` only, and only in cells that `grid` did not hold: nothing that
/// existed has been touched, and every new particle lies at a squared
/// distance between `(radius - 1)²` and `radius²` from the origin.
pub open spec fn only_ring_added(
    before: Seq<Particle>,
    grid: Map<Cell, usize>,
    after: Seq<Particle>,
    origin: Cell,
    radius: int,
) -> bool {
    &&& before.len() <= after.len()
    &&& after.take(before.len() as int) == before
    &&& forall|k: int|
        before.len() <= k < after.len() ==> {
            let cell = (#[trigger] after[k]).cell;
            &&& in_ring(cell.x - origin.x, cell.y - origin.y, radius)
            &&& !grid.contains_key(cell)
        }
}

/// Spawns over the given cells with the given rolls and returns the number
/// of particles created; their identifiers are the next free ones, in the
/// order of the cells.
pub fn spawn_cells(
    world: &mut World,
    cells: &Vec<Cell>,
    selected: &PixelType,
    rolls: &Vec<u32>,
) -> (created: usize)
    ensures
        final(world)@.wf(),
        final(world)@.floor_row == old(world)@.floor_row,
        final(world)@.particles == spawned(old(world)@.particles, cells@, *selected, rolls@),
        created == final(world)@.particles.len() - old(world)@.particles.len(),
{
    let mut created: usize = 0;
    let mut k: usize = 0;
    proof {
        use_type_invariant(&*world);
        assert(cells@.take(0) =~= Seq::<Cell>::empty());
    }
    while k < cells.len()
        invariant
            k <= cells@.len(),
            world@.wf(),
            world@.floor_row == old(world)@.floor_row,
            world@.particles == spawned(
                old(world)@.particles,
                cells@.take(k as int),
                *selected,
                rolls@,
            ),
            created == world@.particles.len() - old(world)@.particles.len(),
        decreases cells@.len() - k,
    {
        proof {
            assert(cells@.take(k + 1).drop_last() =~= cells@.take(k as int));
            assert(cells@.take(k + 1).last() == cells@[k as int]);
            lemma_grid_store_bijection(world@);
        }
        let roll: u32 = if k < rolls.len() {
            rolls[k]
        } else {
            0
        };
        if world.insert(cells[k], Pixel::fresh(selected, roll)).is_some() {
            created = created + 1;
        }
        k = k + 1;
    }
    assert(cells@.take(k as int) =~= cells@);
    created
}

/// Spawns over the brush of the given radius around `origin`.
pub fn spawn_ring(
    world: &mut World,
    origin: Cell,
    radius: i32,
    selected: &PixelType,
    rolls: &Vec<u32>,
) -> (created: usize)
    ensures
        final(world)@.wf(),
        final(world)@.floor_row == old(world)@.floor_row,
        final(world)@.particles == spawned(
            old(world)@.particles,
            ring(origin, radius as int),
            *selected,
            rolls@,
        ),
        created == final(world)@.particles.len() - old(world)@.particles.len(),
        only_ring_added(
            old(world)@.particles,
            old(world)@.grid,
            final(world)@.particles,
            origin,
            radius as int,
        ),
{
    proof {
        use_type_invariant(&*world);
        lemma_spawned_ring(world@.particles, origin, radius as int, *selected, rolls@);
    }
    let cells = ring_cells(origin, radius);
    spawn_cells(world, &cells, selected, rolls)
}

} // verus!
