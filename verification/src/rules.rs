//! The movement rules: given one particle, the committed grid and the moves
//! already staged in this tick, where the particle goes and what becomes of
//! its state. The rules only read; nothing changes until the batch is
//! committed.

use vstd::prelude::*;
use crate::cell::Cell;
use crate::pixel_grid::PixelGrid;
use crate::pixel_types::{
    gravity_applied, round_to_cells, rounded_cells, Pixel, PixelType, SandColor, MAX_VELOCITY,
};
use crate::staging::{claims_of, is_free, is_move, Staged, Updates};
use crate::utils::{
    check_sliding_toward, check_vertical_position, first_free_below, first_free_beside,
    free_beside, lemma_first_free_below, lemma_first_free_beside, x_factor,
};

verus! {

/// The lowest row that a particle in row `y` may reach in one tick at the
/// given velocity: its rounded displacement, but never below the floor.
pub open spec fn fall_target_row(y: int, velocity: int, floor_row: int) -> int {
    let target = y + rounded_cells(velocity);
    if target < floor_row {
        floor_row
    } else {
        target
    }
}

/// A stagnation count after one more lateral move; it stops at the largest
/// representable count.
pub open spec fn bumped(count: i32) -> i32 {
    if count < i32::MAX {
        (count + 1) as i32
    } else {
        count
    }
}

/// The decision for a sand particle.
///
/// Gravity is integrated first. The particle then takes the nearest free
/// cell straight below it within reach; failing that, the nearest free cell
/// in a neighbouring column within reach, the side chosen by `coin` tried
/// first in each row; failing that, it stays and comes to rest with
/// velocity zero.
pub open spec fn sand_decision(
    id: usize,
    cell: Cell,
    color: SandColor,
    velocity: i32,
    grid: Map<Cell, usize>,
    claims: Set<Cell>,
    floor_row: i32,
    coin: bool,
) -> Staged {
    let fallen = gravity_applied(velocity as int);
    let min_y = fall_target_row(cell.y as int, fallen, floor_row as int);
    let moving = Pixel { pixel_type: PixelType::SAND(color), velocity: fallen as i32 };
    let resting = Pixel { pixel_type: PixelType::SAND(color), velocity: 0 };
    match first_free_below(grid, claims, cell.x, cell.y as int, min_y) {
        Some(to) => Staged { id, from: cell, to, pixel: moving },
        None => match first_free_beside(
            grid,
            claims,
            cell.x,
            cell.y as int,
            min_y,
            x_factor(coin),
        ) {
            Some(to) => Staged { id, from: cell, to, pixel: moving },
            None => Staged { id, from: cell, to: cell, pixel: resting },
        },
    }
}

/// The decision for a water particle.
///
/// It falls one row if the cell below is above the floor line and free,
/// which empties its stagnation count. Otherwise, unless its count exceeds
/// its limit, it flows to a free neighbour in its own row, `coin` deciding
/// (heads: left) when both are free, and counts the move. Otherwise it
/// stays as it is.
pub open spec fn water_decision(
    id: usize,
    cell: Cell,
    stagnation_count: i32,
    max_stagnation: i32,
    velocity: i32,
    grid: Map<Cell, usize>,
    claims: Set<Cell>,
    floor_row: i32,
    coin: bool,
) -> Staged {
    let below = Cell { x: cell.x, y: (cell.y - 1) as i32 };
    let left_free = free_beside(grid, claims, cell.x - 1, cell.y);
    let right_free = free_beside(grid, claims, cell.x + 1, cell.y);
    let unchanged = Pixel {
        pixel_type: PixelType::WATER { stagnation_count, max_stagnation },
        velocity,
    };
    let fallen = Pixel {
        pixel_type: PixelType::WATER { stagnation_count: 0, max_stagnation },
        velocity,
    };
    let flowed = Pixel {
        pixel_type: PixelType::WATER { stagnation_count: bumped(stagnation_count), max_stagnation },
        velocity,
    };
    if cell.y > floor_row && is_free(grid, claims, below) {
        Staged { id, from: cell, to: below, pixel: fallen }
    } else if stagnation_count > max_stagnation {
        Staged { id, from: cell, to: cell, pixel: unchanged }
    } else if left_free && (!right_free || coin) {
        Staged { id, from: cell, to: Cell { x: (cell.x - 1) as i32, y: cell.y }, pixel: flowed }
    } else if right_free {
        Staged { id, from: cell, to: Cell { x: (cell.x + 1) as i32, y: cell.y }, pixel: flowed }
    } else {
        Staged { id, from: cell, to: cell, pixel: unchanged }
    }
}

/// The decision for a particle of either material.
pub open spec fn decision(
    id: usize,
    cell: Cell,
    pixel: Pixel,
    grid: Map<Cell, usize>,
    claims: Set<Cell>,
    floor_row: i32,
    coin: bool,
) -> Staged {
    match pixel.pixel_type {
        PixelType::SAND(color) => sand_decision(
            id,
            cell,
            color,
            pixel.velocity,
            grid,
            claims,
            floor_row,
            coin,
        ),
        PixelType::WATER { stagnation_count, max_stagnation } => water_decision(
            id,
            cell,
            stagnation_count,
            max_stagnation,
            pixel.velocity,
            grid,
            claims,
            floor_row,
            coin,
        ),
    }
}

/// What every decision respects, whatever the material, the grid, the
/// claims and the coin.
///
/// The decision is about the particle it was asked for. A move goes to a
/// cell that is neither occupied nor claimed, at most one column aside,
/// and never upwards; a move that loses height ends on or above the floor
/// row. The material stays what it was. Sand that stays is at rest, and sand
/// never carries a velocity beyond the cap.
pub proof fn lemma_decision(
    id: usize,
    cell: Cell,
    pixel: Pixel,
    grid: Map<Cell, usize>,
    claims: Set<Cell>,
    floor_row: i32,
    coin: bool,
)
    ensures
        ({
            let staged = decision(id, cell, pixel, grid, claims, floor_row, coin);
            &&& staged.id == id
            &&& staged.from == cell
            &&& is_move(staged) ==> is_free(grid, claims, staged.to)
            &&& cell.x - 1 <= staged.to.x <= cell.x + 1
            &&& staged.to.y <= cell.y
            &&& staged.to.y < cell.y ==> floor_row <= staged.to.y
            &&& match pixel.pixel_type {
                PixelType::SAND(color) => {
                    &&& staged.pixel.pixel_type == PixelType::SAND(color)
                    &&& MAX_VELOCITY <= staged.pixel.velocity <= -MAX_VELOCITY
                    &&& !is_move(staged) ==> staged.pixel.velocity == 0
                },
                PixelType::WATER { stagnation_count, max_stagnation } => {
                    &&& staged.pixel.pixel_type matches PixelType::WATER {
                        stagnation_count: count,
                        max_stagnation: limit,
                    }
                    &&& limit == max_stagnation
                    &&& staged.pixel.velocity == pixel.velocity
                    &&& staged.to.y < cell.y ==> count == 0
                    &&& staged.to.y == cell.y && is_move(staged) ==> stagnation_count
                        <= max_stagnation && count == bumped(stagnation_count)
                    &&& !is_move(staged) ==> count == stagnation_count
                },
            }
        }),
{
    match pixel.pixel_type {
        PixelType::SAND(_) => {
            let fallen = gravity_applied(pixel.velocity as int);
            let min_y = fall_target_row(cell.y as int, fallen, floor_row as int);
            lemma_first_free_below(grid, claims, cell.x, cell.y as int, min_y);
            lemma_first_free_beside(grid, claims, cell.x, cell.y as int, min_y, x_factor(coin));
        },
        PixelType::WATER { .. } => {},
    }
}

/// Decides the move of the sand particle `id` in `cell`.
pub fn sand_rule(
    id: usize,
    cell: Cell,
    color: SandColor,
    velocity: i32,
    grid: &PixelGrid,
    updates: &Updates,
    floor_row: i32,
    coin: bool,
) -> (staged: Staged)
    ensures
        staged == sand_decision(
            id,
            cell,
            color,
            velocity,
            grid@,
            claims_of(updates@),
            floor_row,
            coin,
        ),
{
    let mut moving = Pixel { pixel_type: PixelType::SAND(color), velocity };
    moving.apply_gravity();
    let target: i64 = cell.y as i64 + round_to_cells(moving.velocity) as i64;
    let min_y: i32 = if target < floor_row as i64 {
        floor_row
    } else if target > cell.y as i64 {
        cell.y
    } else {
        target as i32
    };
    proof {
        let exact = fall_target_row(cell.y as int, moving.velocity as int, floor_row as int);
        if min_y != exact {
            // Nothing lies between a row and itself: any bound at or above
            // the particle's own row leaves both scans empty.
            assert(exact >= cell.y && min_y >= cell.y);
        }
    }
    match check_vertical_position(grid, cell.x, cell.y, min_y, updates) {
        Some(to) => Staged { id, from: cell, to, pixel: moving },
        None => match check_sliding_toward(grid, cell.x, cell.y, min_y, updates, coin) {
            Some(to) => Staged { id, from: cell, to, pixel: moving },
            None => Staged {
                id,
                from: cell,
                to: cell,
                pixel: Pixel { pixel_type: PixelType::SAND(color), velocity: 0 },
            },
        },
    }
}

/// Decides the move of the water particle `id` in `cell`.
pub fn water_rule(
    id: usize,
    cell: Cell,
    stagnation_count: i32,
    max_stagnation: i32,
    velocity: i32,
    grid: &PixelGrid,
    updates: &Updates,
    floor_row: i32,
    coin: bool,
) -> (staged: Staged)
    ensures
        staged == water_decision(
            id,
            cell,
            stagnation_count,
            max_stagnation,
            velocity,
            grid@,
            claims_of(updates@),
            floor_row,
            coin,
        ),
{
    let unchanged = Pixel {
        pixel_type: PixelType::WATER { stagnation_count, max_stagnation },
        velocity,
    };
    if cell.y > floor_row {
        let new_y: i32 = cell.y - 1;
        if !grid.is_occupied(cell.x, new_y) && !updates.is_claimed(cell.x, new_y) {
            return Staged {
                id,
                from: cell,
                to: Cell { x: cell.x, y: new_y },
                pixel: Pixel {
                    pixel_type: PixelType::WATER { stagnation_count: 0, max_stagnation },
                    velocity,
                },
            };
        }
    }
    if stagnation_count > max_stagnation {
        return Staged { id, from: cell, to: cell, pixel: unchanged };
    }
    let left_free = cell.x > i32::MIN && !grid.is_occupied(cell.x - 1, cell.y)
        && !updates.is_claimed(cell.x - 1, cell.y);
    let right_free = cell.x < i32::MAX && !grid.is_occupied(cell.x + 1, cell.y)
        && !updates.is_claimed(cell.x + 1, cell.y);
    if left_free || right_free {
        let move_x: i32 = if left_free && (!right_free || coin) {
            cell.x - 1
        } else {
            cell.x + 1
        };
        let count: i32 = if stagnation_count < i32::MAX {
            stagnation_count + 1
        } else {
            stagnation_count
        };
        Staged {
            id,
            from: cell,
            to: Cell { x: move_x, y: cell.y },
            pixel: Pixel {
                pixel_type: PixelType::WATER { stagnation_count: count, max_stagnation },
                velocity,
            },
        }
    } else {
        Staged { id, from: cell, to: cell, pixel: unchanged }
    }
}

/// Decides the move of particle `id`, whatever its material.
pub fn decide(
    id: usize,
    cell: Cell,
    pixel: &Pixel,
    grid: &PixelGrid,
    updates: &Updates,
    floor_row: i32,
    coin: bool,
) -> (staged: Staged)
    ensures
        staged == decision(id, cell, *pixel, grid@, claims_of(updates@), floor_row, coin),
{
    match pixel.pixel_type {
        PixelType::SAND(color) => sand_rule(
            id,
            cell,
            color,
            pixel.velocity,
            grid,
            updates,
            floor_row,
            coin,
        ),
        PixelType::WATER { stagnation_count, max_stagnation } => water_rule(
            id,
            cell,
            stagnation_count,
            max_stagnation,
            pixel.velocity,
            grid,
            updates,
            floor_row,
            coin,
        ),
    }
}

} // verus!
