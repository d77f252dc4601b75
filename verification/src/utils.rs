//! The two scans by which falling sand looks for its next cell: straight
//! down its own column, and down the two neighbouring columns.
//!
//! Both scans run over the rows below the particle, nearest row first, and
//! stop at the first free cell; `min_y` is the lowest row they examine.

use vstd::prelude::*;
use crate::cell::Cell;
use crate::chance::flip_coin;
use crate::pixel_grid::PixelGrid;
use crate::staging::{claims_of, is_free, Updates};

verus! {

/// The first free cell of column `x` met when going down from row `y - 1` to
/// row `min_y`, if there is one.
pub open spec fn first_free_below(
    grid: Map<Cell, usize>,
    claims: Set<Cell>,
    x: i32,
    y: int,
    min_y: int,
) -> Option<Cell>
    decreases y - min_y,
{
    if y <= min_y {
        None
    } else {
        let below = Cell { x, y: (y - 1) as i32 };
        if is_free(grid, claims, below) {
            Some(below)
        } else {
            first_free_below(grid, claims, x, y - 1, min_y)
        }
    }
}

/// The horizontal step that a coin selects: heads is one column to the
/// right, tails one column to the left.
pub open spec fn x_factor(coin: bool) -> int {
    if coin {
        1
    } else {
        -1
    }
}

/// Whether `column` exists on the grid and its cell in `row` is free.
pub open spec fn free_beside(
    grid: Map<Cell, usize>,
    claims: Set<Cell>,
    column: int,
    row: i32,
) -> bool {
    i32::MIN <= column <= i32::MAX && is_free(grid, claims, Cell { x: column as i32, y: row })
}

/// Whether neither neighbour of column `x` is free in `row`.
pub open spec fn none_free_beside(
    grid: Map<Cell, usize>,
    claims: Set<Cell>,
    x: i32,
    factor: int,
    row: i32,
) -> bool {
    !free_beside(grid, claims, x + factor, row) && !free_beside(grid, claims, x - factor, row)
}

/// The first free neighbouring cell met when going down from row `y - 1` to
/// row `min_y`; in each row the column `x + factor` is tried before its
/// mirror `x - factor`.
pub open spec fn first_free_beside(
    grid: Map<Cell, usize>,
    claims: Set<Cell>,
    x: i32,
    y: int,
    min_y: int,
    factor: int,
) -> Option<Cell>
    decreases y - min_y,
{
    if y <= min_y {
        None
    } else {
        let row = (y - 1) as i32;
        if free_beside(grid, claims, x + factor, row) {
            Some(Cell { x: (x + factor) as i32, y: row })
        } else if free_beside(grid, claims, x - factor, row) {
            Some(Cell { x: (x - factor) as i32, y: row })
        } else {
            first_free_beside(grid, claims, x, y - 1, min_y, factor)
        }
    }
}

/// What the column scan finds, said without recursion: a free cell of the
/// column in the scanned rows with only taken cells between it and the
/// particle, or nothing when every scanned cell is taken.
pub proof fn lemma_first_free_below(
    grid: Map<Cell, usize>,
    claims: Set<Cell>,
    x: i32,
    y: int,
    min_y: int,
)
    requires
        i32::MIN <= min_y,
        y <= i32::MAX,
    ensures
        match first_free_below(grid, claims, x, y, min_y) {
            Some(cell) => {
                &&& cell.x == x
                &&& min_y <= cell.y < y
                &&& is_free(grid, claims, cell)
                &&& forall|row: i32| cell.y < row < y ==> !is_free(grid, claims, Cell { x, y: row })
            },
            None => forall|row: i32|
                min_y <= row < y ==> !is_free(grid, claims, Cell { x, y: row }),
        },
    decreases y - min_y,
{
    if y > min_y {
        lemma_first_free_below(grid, claims, x, y - 1, min_y);
    }
}

/// What the sideways scan finds, said without recursion: a free neighbour
/// in the scanned rows, the mirror column only where the preferred one is
/// taken, and nothing free in either column in the rows above it.
pub proof fn lemma_first_free_beside(
    grid: Map<Cell, usize>,
    claims: Set<Cell>,
    x: i32,
    y: int,
    min_y: int,
    factor: int,
)
    requires
        i32::MIN <= min_y,
        y <= i32::MAX,
    ensures
        match first_free_beside(grid, claims, x, y, min_y, factor) {
            Some(cell) => {
                &&& min_y <= cell.y < y
                &&& is_free(grid, claims, cell)
                &&& cell.x == x + factor || (cell.x == x - factor && !free_beside(
                    grid,
                    claims,
                    x + factor,
                    cell.y,
                ))
                &&& forall|row: i32|
                    cell.y < row < y ==> none_free_beside(grid, claims, x, factor, row)
            },
            None => forall|row: i32|
                min_y <= row < y ==> none_free_beside(grid, claims, x, factor, row),
        },
    decreases y - min_y,
{
    if y > min_y {
        lemma_first_free_beside(grid, claims, x, y - 1, min_y, factor);
    }
}

/// Whether the cell at `column`, `row` exists and is neither occupied nor
/// claimed.
fn is_free_beside(grid: &PixelGrid, updates: &Updates, column: i64, row: i32) -> (free: bool)
    ensures
        free == free_beside(grid@, claims_of(updates@), column as int, row),
{
    if column < i32::MIN as i64 || column > i32::MAX as i64 {
        false
    } else {
        let x: i32 = column as i32;
        !grid.is_occupied(x, row) && !updates.is_claimed(x, row)
    }
}

/// Looks straight down from the cell at column `actual_x`, row `actual_y`,
/// no further than row `min_y`, and returns the nearest cell that is
/// neither occupied in `grid` nor claimed in `updates`.
pub fn check_vertical_position(
    grid: &PixelGrid,
    actual_x: i32,
    actual_y: i32,
    min_y: i32,
    updates: &Updates,
) -> (target: Option<Cell>)
    ensures
        target == first_free_below(
            grid@,
            claims_of(updates@),
            actual_x,
            actual_y as int,
            min_y as int,
        ),
{
    let mut row: i32 = actual_y;
    while row > min_y
        invariant
            row <= actual_y,
            first_free_below(grid@, claims_of(updates@), actual_x, actual_y as int, min_y as int)
                == first_free_below(grid@, claims_of(updates@), actual_x, row as int, min_y as int),
        decreases row - min_y,
    {
        let below: i32 = row - 1;
        if !grid.is_occupied(actual_x, below) && !updates.is_claimed(actual_x, below) {
            return Some(Cell { x: actual_x, y: below });
        }
        row = below;
    }
    None
}

/// Looks down the two columns next to column `actual_x`, from the row below
/// `actual_y` to row `min_y`, and returns the nearest free cell; in each row
/// the side that `toward_right` selects is tried first, then the other.
pub fn check_sliding_toward(
    grid: &PixelGrid,
    actual_x: i32,
    actual_y: i32,
    min_y: i32,
    updates: &Updates,
    toward_right: bool,
) -> (target: Option<Cell>)
    ensures
        target == first_free_beside(
            grid@,
            claims_of(updates@),
            actual_x,
            actual_y as int,
            min_y as int,
            x_factor(toward_right),
        ),
{
    let x_factor: i64 = if toward_right {
        1
    } else {
        -1
    };
    let new_x_pos: i64 = actual_x as i64 + x_factor;
    let new_x_neg: i64 = actual_x as i64 - x_factor;
    let mut row: i32 = actual_y;
    while row > min_y
        invariant
            row <= actual_y,
            x_factor == self::x_factor(toward_right),
            new_x_pos == actual_x + x_factor,
            new_x_neg == actual_x - x_factor,
            first_free_beside(
                grid@,
                claims_of(updates@),
                actual_x,
                actual_y as int,
                min_y as int,
                x_factor as int,
            ) == first_free_beside(
                grid@,
                claims_of(updates@),
                actual_x,
                row as int,
                min_y as int,
                x_factor as int,
            ),
        decreases row - min_y,
    {
        let below: i32 = row - 1;
        if is_free_beside(grid, updates, new_x_pos, below) {
            return Some(Cell { x: new_x_pos as i32, y: below });
        }
        if is_free_beside(grid, updates, new_x_neg, below) {
            return Some(Cell { x: new_x_neg as i32, y: below });
        }
        row = below;
    }
    None
}

/// As [`check_sliding_toward`], with the preferred side decided by a coin
/// flipped here.
pub fn check_sliding(
    grid: &PixelGrid,
    actual_x: i32,
    actual_y: i32,
    min_y: i32,
    updates: &Updates,
) -> (target: Option<Cell>)
    ensures
        exists|coin: bool|
            target == first_free_beside(
                grid@,
                claims_of(updates@),
                actual_x,
                actual_y as int,
                min_y as int,
                #[trigger] x_factor(coin),
            ),
{
    let coin = flip_coin();
    check_sliding_toward(grid, actual_x, actual_y, min_y, updates, coin)
}

} // verus!
