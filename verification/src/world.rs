//! The simulation state: the particle store, the occupancy grid that indexes
//! it by cell, and the floor below which nothing falls.
//!
//! A particle's identifier is its position in the store. Particles are only
//! ever added one by one or cleared all at once, so an identifier stays
//! valid, and stays with its particle, until the next reset.

use vstd::prelude::*;
use crate::cell::Cell;
use crate::pixel_grid::PixelGrid;
use crate::pixel_types::Pixel;

verus! {

/// One live particle: the cell it occupies and its mutable state.
#[derive(Clone, Copy, Debug, PartialEq, Eq, Structural)]
pub struct Particle {
    pub cell: Cell,
    pub pixel: Pixel,
}

/// No two particles share a cell.
pub open spec fn cells_distinct(particles: Seq<Particle>) -> bool {
    forall|i: int, j: int|
        0 <= i < j < particles.len() ==> (#[trigger] particles[i]).cell != (
        #[trigger] particles[j]).cell
}

/// Whether some particle occupies `cell`.
pub open spec fn holds(particles: Seq<Particle>, cell: Cell) -> bool {
    exists|i: int| 0 <= i < particles.len() && (#[trigger] particles[i]).cell == cell
}

/// A particle that occupies `cell`; the only one, where cells are distinct.
pub open spec fn holder(particles: Seq<Particle>, cell: Cell) -> int {
    choose|i: int| 0 <= i < particles.len() && (#[trigger] particles[i]).cell == cell
}

/// The occupancy map that a store determines: each occupied cell, mapped to
/// the identifier of its occupant.
pub open spec fn occupancy(particles: Seq<Particle>) -> Map<Cell, usize> {
    Map::new(|cell: Cell| holds(particles, cell), |cell: Cell| holder(particles, cell) as usize)
}

/// The mathematical state of a [`World`].
pub struct WorldView {
    pub particles: Seq<Particle>,
    pub grid: Map<Cell, usize>,
    pub floor_row: i32,
}

impl WorldView {
    /// The grid and the store agree: the grid is exactly the occupancy map of
    /// the store, and no cell has two occupants. Identifiers are machine
    /// words.
    pub open spec fn wf(self) -> bool {
        &&& self.particles.len() <= usize::MAX
        &&& cells_distinct(self.particles)
        &&& self.grid == occupancy(self.particles)
    }
}

/// The whole state of a simulation.
pub struct World {
    grid: PixelGrid,
    particles: Vec<Particle>,
    floor_row: i32,
}

impl View for World {
    type V = WorldView;

    closed spec fn view(&self) -> WorldView {
        WorldView { particles: self.particles@, grid: self.grid@, floor_row: self.floor_row }
    }
}

/// In a store of distinct cells, the holder of a particle's cell is that
/// particle.
pub proof fn lemma_holder(particles: Seq<Particle>, id: int)
    requires
        cells_distinct(particles),
        0 <= id < particles.len(),
    ensures
        holds(particles, particles[id].cell),
        holder(particles, particles[id].cell) == id,
{
    let cell = particles[id].cell;
    let found = holder(particles, cell);
    assert(0 <= found < particles.len() && particles[found].cell == cell);
    if found < id {
        assert(particles[found].cell != particles[id].cell);
    } else if id < found {
        assert(particles[id].cell != particles[found].cell);
    }
}

/// Adding a particle in an unoccupied cell adds one entry to the occupancy
/// map and keeps the cells distinct.
pub proof fn lemma_occupancy_push(particles: Seq<Particle>, particle: Particle)
    requires
        cells_distinct(particles),
        !holds(particles, particle.cell),
        particles.len() < usize::MAX,
    ensures
        cells_distinct(particles.push(particle)),
        occupancy(particles.push(particle)) == occupancy(particles).insert(
            particle.cell,
            particles.len() as usize,
        ),
{
    let after = particles.push(particle);
    let n = particles.len() as int;
    assert forall|i: int, j: int| 0 <= i < j < after.len() implies (#[trigger] after[i]).cell != (
    #[trigger] after[j]).cell by {
        if j < n {
            assert(after[i] == particles[i] && after[j] == particles[j]);
        } else {
            assert(after[i] == particles[i]);
        }
    }
    assert forall|cell: Cell| #[trigger]
        occupancy(after).contains_key(cell) == occupancy(particles).insert(
            particle.cell,
            n as usize,
        ).contains_key(cell) by {
        if holds(particles, cell) {
            let i = holder(particles, cell);
            assert(after[i] == particles[i]);
        }
        if holds(after, cell) && cell != particle.cell {
            let i = holder(after, cell);
            assert(after[i] == particles[i]);
        }
        if cell == particle.cell {
            assert(after[n] == particle);
        }
    }
    assert forall|cell: Cell| #[trigger] occupancy(after).contains_key(cell) implies occupancy(
        after,
    )[cell] == occupancy(particles).insert(particle.cell, n as usize)[cell] by {
        let i = holder(after, cell);
        lemma_holder(after, i);
        if i < n {
            assert(after[i] == particles[i]);
            lemma_holder(particles, i);
        }
    }
    assert(occupancy(after) =~= occupancy(particles).insert(particle.cell, n as usize));
}

/// Moving one particle to an unoccupied cell moves its entry in the
/// occupancy map and keeps the cells distinct.
pub proof fn lemma_occupancy_move(particles: Seq<Particle>, id: int, moved: Particle)
    requires
        cells_distinct(particles),
        0 <= id < particles.len() <= usize::MAX,
        !holds(particles, moved.cell) || moved.cell == particles[id].cell,
    ensures
        cells_distinct(particles.update(id, moved)),
        occupancy(particles.update(id, moved)) == occupancy(particles).remove(
            particles[id].cell,
        ).insert(moved.cell, id as usize),
{
    let after = particles.update(id, moved);
    let expected = occupancy(particles).remove(particles[id].cell).insert(moved.cell, id as usize);
    assert forall|i: int, j: int| 0 <= i < j < after.len() implies (#[trigger] after[i]).cell != (
    #[trigger] after[j]).cell by {
        if i != id && j != id {
            assert(after[i] == particles[i] && after[j] == particles[j]);
        } else if i == id {
            assert(after[j] == particles[j]);
            assert(particles[id].cell != particles[j].cell);
        } else {
            assert(after[i] == particles[i]);
            assert(particles[i].cell != particles[id].cell);
        }
    }
    assert forall|cell: Cell| #[trigger]
        occupancy(after).contains_key(cell) == expected.contains_key(cell) by {
        if holds(after, cell) && cell != moved.cell {
            let i = holder(after, cell);
            assert(i != id);
            assert(after[i] == particles[i]);
            lemma_holder(particles, i);
            lemma_holder(particles, id);
        }
        if cell == moved.cell {
            assert(after[id] == moved);
        }
        if holds(particles, cell) && cell != particles[id].cell && cell != moved.cell {
            let i = holder(particles, cell);
            assert(after[i] == particles[i]);
        }
        if cell == particles[id].cell && cell != moved.cell && holds(after, cell) {
            let i = holder(after, cell);
            assert(i != id);
            assert(after[i] == particles[i]);
            if i < id {
                assert(particles[i].cell != particles[id].cell);
            } else {
                assert(particles[id].cell != particles[i].cell);
            }
        }
    }
    assert forall|cell: Cell| #[trigger] occupancy(after).contains_key(cell) implies occupancy(
        after,
    )[cell] == expected[cell] by {
        let i = holder(after, cell);
        lemma_holder(after, i);
        if i != id {
            assert(after[i] == particles[i]);
            lemma_holder(particles, i);
            lemma_holder(particles, id);
        }
    }
    assert(occupancy(after) =~= expected);
}

impl World {
    /// Every world is well formed, at all times.
    #[verifier::type_invariant]
    pub open spec fn inv(&self) -> bool {
        self@.wf()
    }

    /// An empty world whose lowest reachable row is `floor_row`.
    pub fn new(floor_row: i32) -> (world: World)
        ensures
            world@.wf(),
            world@.particles == Seq::<Particle>::empty(),
            world@.floor_row == floor_row,
    {
        let grid = PixelGrid::new();
        let particles: Vec<Particle> = Vec::new();
        assert(grid@ =~= occupancy(particles@));
        World { grid, particles, floor_row }
    }

    /// The lowest row that a falling particle may enter.
    pub fn floor_row(&self) -> (floor_row: i32)
        ensures
            floor_row == self@.floor_row,
    {
        self.floor_row
    }

    /// Number of live particles; the identifiers in use are `0..len`.
    pub fn len(&self) -> (len: usize)
        ensures
            len == self@.particles.len(),
    {
        self.particles.len()
    }

    /// Whether the particle `id` still exists.
    pub fn contains(&self, id: usize) -> (live: bool)
        ensures
            live == (id < self@.particles.len()),
    {
        id < self.particles.len()
    }

    /// The particle `id`, if it exists.
    pub fn particle(&self, id: usize) -> (particle: Option<Particle>)
        ensures
            particle == (if id < self@.particles.len() {
                Some(self@.particles[id as int])
            } else {
                None
            }),
    {
        if id < self.particles.len() {
            Some(self.particles[id])
        } else {
            None
        }
    }

    /// Whether some particle occupies `cell`.
    pub fn is_occupied(&self, cell: Cell) -> (occupied: bool)
        ensures
            occupied == self@.grid.contains_key(cell),
    {
        self.grid.is_occupied(cell.x, cell.y)
    }

    /// The identifier of the particle in `cell`, if the cell is occupied.
    pub fn occupant(&self, cell: Cell) -> (occupant: Option<usize>)
        ensures
            occupant == (if self@.grid.contains_key(cell) {
                Some(self@.grid[cell])
            } else {
                None
            }),
    {
        self.grid.get_pixel(cell.x, cell.y)
    }

    /// The occupancy grid, for reading.
    pub fn grid(&self) -> (grid: &PixelGrid)
        ensures
            grid@ == self@.grid,
    {
        &self.grid
    }

    /// The particle store, for reading; a particle's identifier is its index.
    pub fn particles(&self) -> (particles: &Vec<Particle>)
        ensures
            particles@ == self@.particles,
    {
        &self.particles
    }

    /// Creates a particle in `cell` unless the cell is occupied, and returns
    /// the identifier of the new particle.
    pub fn insert(&mut self, cell: Cell, pixel: Pixel) -> (created: Option<usize>)
        ensures
            final(self)@.wf(),
            final(self)@.floor_row == old(self)@.floor_row,
            old(self)@.grid.contains_key(cell) ==> created.is_none() && final(self)@ == old(self)@,
            !old(self)@.grid.contains_key(cell) ==> {
                &&& created == Some(old(self)@.particles.len() as usize)
                &&& final(self)@.particles == old(self)@.particles.push(Particle { cell, pixel })
                &&& final(self)@.grid == old(self)@.grid.insert(
                    cell,
                    old(self)@.particles.len() as usize,
                )
            },
    {
        proof {
            use_type_invariant(&*self);
        }
        if self.grid.is_occupied(cell.x, cell.y) {
            return None;
        }
        let mut taken = World::new(self.floor_row);
        core::mem::swap(self, &mut taken);
        let World { mut grid, mut particles, floor_row } = taken;
        particles.push(Particle { cell, pixel });
        let id = particles.len() - 1;
        proof {
            lemma_occupancy_push(old(self)@.particles, Particle { cell, pixel });
        }
        grid.set_pixel(cell.x, cell.y, id);
        *self = World { grid, particles, floor_row };
        Some(id)
    }

    /// Puts the particle `id` into the cell `to`, in the state `pixel`, and
    /// says whether it did. Nothing is done unless the particle exists and
    /// the cell is its own or an unoccupied one.
    pub fn relocate(&mut self, id: usize, to: Cell, pixel: Pixel) -> (done: bool)
        ensures
            final(self)@.wf(),
            final(self)@.floor_row == old(self)@.floor_row,
            done == (id < old(self)@.particles.len() && (!old(self)@.grid.contains_key(to)
                || to == old(self)@.particles[id as int].cell)),
            done ==> {
                &&& final(self)@.particles == old(self)@.particles.update(
                    id as int,
                    Particle { cell: to, pixel },
                )
                &&& final(self)@.grid == old(self)@.grid.remove(
                    old(self)@.particles[id as int].cell,
                ).insert(to, id)
            },
            !done ==> final(self)@ == old(self)@,
    {
        proof {
            use_type_invariant(&*self);
        }
        if id >= self.particles.len() {
            return false;
        }
        let from = self.particles[id].cell;
        let own = to.x == from.x && to.y == from.y;
        if !own && self.grid.is_occupied(to.x, to.y) {
            return false;
        }
        let mut taken = World::new(self.floor_row);
        core::mem::swap(self, &mut taken);
        let World { mut grid, mut particles, floor_row } = taken;
        proof {
            lemma_occupancy_move(particles@, id as int, Particle { cell: to, pixel });
        }
        particles.set(id, Particle { cell: to, pixel });
        grid.remove_pixel(from.x, from.y);
        grid.set_pixel(to.x, to.y, id);
        *self = World { grid, particles, floor_row };
        true
    }

    /// Removes every particle.
    pub fn clear(&mut self)
        ensures
            final(self)@.wf(),
            final(self)@.particles == Seq::<Particle>::empty(),
            final(self)@.floor_row == old(self)@.floor_row,
    {
        *self = World::new(self.floor_row);
    }
}

/// In a well-formed world the grid and the store are in one-to-one
/// correspondence: every particle is the occupant of its own cell, every
/// occupied cell is the cell of its occupant, and no other particle claims it.
pub proof fn lemma_grid_store_bijection(world: WorldView)
    requires
        world.wf(),
    ensures
        forall|id: int|
            0 <= id < world.particles.len() ==> world.grid.contains_key(
                (#[trigger] world.particles[id]).cell,
            ) && world.grid[world.particles[id].cell] == id,
        forall|cell: Cell| #[trigger]
            world.grid.contains_key(cell) ==> world.grid[cell] < world.particles.len()
                && world.particles[world.grid[cell] as int].cell == cell,
        forall|cell: Cell, id: int|
            0 <= id < world.particles.len() && (#[trigger] world.particles[id]).cell == cell
                ==> #[trigger] world.grid.contains_key(cell) && world.grid[cell] == id,
{
    assert forall|id: int| 0 <= id < world.particles.len() implies world.grid.contains_key(
        (#[trigger] world.particles[id]).cell,
    ) && world.grid[world.particles[id].cell] == id by {
        lemma_holder(world.particles, id);
    }
    assert forall|cell: Cell| #[trigger] world.grid.contains_key(cell) implies world.grid[cell]
        < world.particles.len() && world.particles[world.grid[cell] as int].cell == cell by {
        let i = holder(world.particles, cell);
        assert(0 <= i < world.particles.len() && world.particles[i].cell == cell);
    }
    assert forall|cell: Cell, id: int|
        0 <= id < world.particles.len() && (#[trigger] world.particles[id]).cell
            == cell implies #[trigger] world.grid.contains_key(cell) && world.grid[cell] == id by {
        lemma_holder(world.particles, id);
    }
}

} // verus!
