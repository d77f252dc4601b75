//! The occupancy grid: which particle, if any, sits in each cell.

use std::collections::HashMap;
use vstd::prelude::*;
use crate::cell::{key_of, lemma_key_order, Cell};

verus! {

/// The authoritative mapping from cell to particle identifier. Its view is
/// the mathematical map from occupied cells to their occupants.
pub struct PixelGrid {
    grid: HashMap<i64, usize>,
}

impl View for PixelGrid {
    type V = Map<Cell, usize>;

    closed spec fn view(&self) -> Map<Cell, usize> {
        Map::new(
            |c: Cell| self.grid@.contains_key(key_of(c) as i64),
            |c: Cell| self.grid@[key_of(c) as i64],
        )
    }
}

impl PixelGrid {
    /// An empty grid.
    pub fn new() -> (grid: PixelGrid)
        ensures
            grid@ == Map::<Cell, usize>::empty(),
    {
        let grid = PixelGrid { grid: HashMap::new() };
        assert(grid@ =~= Map::<Cell, usize>::empty());
        grid
    }

    /// Whether some particle occupies the cell at column `x`, row `y`.
    pub fn is_occupied(&self, x: i32, y: i32) -> (occupied: bool)
        ensures
            occupied == self@.contains_key(Cell { x, y }),
    {
        let cell = Cell { x, y };
        let key = cell.key();
        self.grid.contains_key(&key)
    }

    /// The occupant of the cell at column `x`, row `y`, if there is one.
    pub fn get_pixel(&self, x: i32, y: i32) -> (occupant: Option<usize>)
        ensures
            occupant == (if self@.contains_key(Cell { x, y }) {
                Some(self@[Cell { x, y }])
            } else {
                None
            }),
    {
        let cell = Cell { x, y };
        let key = cell.key();
        match self.grid.get(&key) {
            Some(entity) => Some(*entity),
            None => None,
        }
    }

    /// Records `entity` as the occupant of the cell at column `x`, row `y`,
    /// replacing whatever the grid held there.
    pub fn set_pixel(&mut self, x: i32, y: i32, entity: usize)
        ensures
            final(self)@ == old(self)@.insert(Cell { x, y }, entity),
    {
        let cell = Cell { x, y };
        let key = cell.key();
        self.grid.insert(key, entity);
        proof {
            assert forall|c: Cell| key_of(c) == key_of(cell) <==> c == cell by {
                lemma_key_order(c, cell);
            }
            assert(self@ =~= old(self)@.insert(cell, entity));
        }
    }

    /// Empties the cell at column `x`, row `y`, and returns its former
    /// occupant, if it had one.
    pub fn remove_pixel(&mut self, x: i32, y: i32) -> (removed: Option<usize>)
        ensures
            final(self)@ == old(self)@.remove(Cell { x, y }),
            removed == (if old(self)@.contains_key(Cell { x, y }) {
                Some(old(self)@[Cell { x, y }])
            } else {
                None
            }),
    {
        let cell = Cell { x, y };
        let key = cell.key();
        let removed = self.grid.remove(&key);
        proof {
            assert forall|c: Cell| key_of(c) == key_of(cell) <==> c == cell by {
                lemma_key_order(c, cell);
            }
            assert(self@ =~= old(self)@.remove(cell));
        }
        removed
    }

    /// Empties every cell.
    pub fn clear(&mut self)
        ensures
            final(self)@ == Map::<Cell, usize>::empty(),
    {
        self.grid.clear();
        assert(self@ =~= Map::<Cell, usize>::empty());
    }
}

impl Default for PixelGrid {
    /// An empty grid.
    fn default() -> (grid: PixelGrid)
        ensures
            grid@ == Map::<Cell, usize>::empty(),
    {
        PixelGrid::new()
    }
}

} // verus!
