//! Grid cells and the quantisation of world-space points onto them.

use vstd::prelude::*;

verus! {

/// Edge length of one grid cell, in world units.
pub const PIXEL_SIZE: i32 = 10;

/// One discrete grid unit, addressed by its column `x` and its row `y`.
/// Rows grow upwards: gravity pulls towards smaller `y`.
#[derive(Clone, Copy, Debug, PartialEq, Eq, Structural, Hash)]
pub struct Cell {
    pub x: i32,
    pub y: i32,
}

/// Mathematical floor of `a / PIXEL_SIZE`.
pub open spec fn floor_to_cell(a: int) -> int {
    a / (PIXEL_SIZE as int)
}

/// The cell that contains the world-space point `(x, y)`.
pub open spec fn cell_containing(x: int, y: int) -> Cell {
    Cell { x: floor_to_cell(x) as i32, y: floor_to_cell(y) as i32 }
}

/// The resolution order of the simulation: lower rows first, and within a
/// row, smaller columns first.
pub open spec fn precedes(a: Cell, b: Cell) -> bool {
    a.y < b.y || (a.y == b.y && a.x < b.x)
}

/// The integer under which a cell is stored and sorted. It is strictly
/// monotone in (row, column) order, so no two cells share a key.
pub open spec fn key_of(c: Cell) -> int {
    c.y * 0x1_0000_0000 + (c.x - i32::MIN)
}

/// Quantises one world coordinate to the index of the cell that holds it.
pub fn cell_index(coordinate: i32) -> (index: i32)
    ensures
        index == floor_to_cell(coordinate as int),
        index * PIXEL_SIZE <= coordinate < index * PIXEL_SIZE + PIXEL_SIZE,
{
    let q: i32 = coordinate / PIXEL_SIZE;
    let r: i32 = coordinate % PIXEL_SIZE;
    if r < 0 {
        q - 1
    } else {
        q
    }
}

/// The lowest row that lies wholly above the world coordinate `bottom`:
/// the floor row of a world whose lower edge is at `bottom`.
pub fn lowest_row_above(bottom: i32) -> (row: i32)
    ensures
        row == floor_to_cell(bottom as int) + 1,
        (row - 1) * PIXEL_SIZE <= bottom < row * PIXEL_SIZE,
{
    cell_index(bottom) + 1
}

impl Cell {
    /// The cell that contains the world-space point `(x, y)`.
    pub fn containing(x: i32, y: i32) -> (cell: Cell)
        ensures
            cell == cell_containing(x as int, y as int),
    {
        Cell { x: cell_index(x), y: cell_index(y) }
    }

    /// The world-space point at which this cell begins: its lower left
    /// corner, to which the position of its occupant is snapped.
    pub fn origin_point(&self) -> (point: (i64, i64))
        ensures
            point.0 == self.x * PIXEL_SIZE,
            point.1 == self.y * PIXEL_SIZE,
    {
        ((self.x as i64) * (PIXEL_SIZE as i64), (self.y as i64) * (PIXEL_SIZE as i64))
    }

    /// The storage key of this cell.
    pub fn key(&self) -> (k: i64)
        ensures
            k == key_of(*self),
    {
        (self.y as i64) * 0x1_0000_0000i64 + ((self.x as i64) + 0x8000_0000i64)
    }
}

/// Distinct cells have distinct keys, and keys order cells by (row, column).
pub proof fn lemma_key_order(a: Cell, b: Cell)
    ensures
        key_of(a) < key_of(b) <==> precedes(a, b),
        key_of(a) == key_of(b) <==> a == b,
        i64::MIN <= key_of(a) <= i64::MAX,
{
}

} // verus!
