use pixel_sand::cell::Cell;
use pixel_sand::pixel_grid::PixelGrid;
use pixel_sand::pixel_types::{Pixel, PixelType, SandColor};
use pixel_sand::rules::{decide, sand_rule, water_rule};
use pixel_sand::staging::{Staged, Updates};
use pixel_sand::utils::{check_sliding, check_sliding_toward, check_vertical_position};

fn sand(velocity: i32) -> Pixel {
    Pixel { pixel_type: PixelType::SAND(SandColor::YELLOW), velocity }
}

fn water(stagnation_count: i32, max_stagnation: i32) -> Pixel {
    Pixel { pixel_type: PixelType::WATER { stagnation_count, max_stagnation }, velocity: 0 }
}

fn claim(updates: &mut Updates, id: usize, from: Cell, to: Cell) {
    updates.stage(Staged { id, from, to, pixel: sand(-12) });
}

#[test]
fn staged_moves_claim_their_destination_only() {
    let mut updates = Updates::new();
    assert_eq!(updates.len(), 0);
    assert_eq!(updates.get(0), None);
    claim(&mut updates, 0, Cell { x: 1, y: 5 }, Cell { x: 1, y: 4 });
    claim(&mut updates, 1, Cell { x: 2, y: 5 }, Cell { x: 2, y: 5 });
    assert_eq!(updates.len(), 2);
    assert!(updates.is_claimed(1, 4));
    assert!(!updates.is_claimed(1, 5));
    assert!(!updates.is_claimed(2, 5));
    assert_eq!(updates.get(1).map(|staged| staged.id), Some(1));
    assert_eq!(updates.get(2), None);
}

#[test]
fn vertical_scan_takes_the_nearest_free_cell() {
    let grid = PixelGrid::new();
    let updates = Updates::new();
    assert_eq!(check_vertical_position(&grid, 3, 10, 5, &updates), Some(Cell { x: 3, y: 9 }));
}

#[test]
fn vertical_scan_passes_over_occupied_and_claimed_cells() {
    let mut grid = PixelGrid::new();
    grid.set_pixel(3, 9, 1);
    let mut updates = Updates::new();
    claim(&mut updates, 2, Cell { x: 4, y: 8 }, Cell { x: 3, y: 8 });
    assert_eq!(check_vertical_position(&grid, 3, 10, 5, &updates), Some(Cell { x: 3, y: 7 }));
    assert_eq!(check_vertical_position(&grid, 3, 10, 8, &updates), None);
    assert_eq!(check_vertical_position(&grid, 3, 10, 7, &updates), Some(Cell { x: 3, y: 7 }));
}

#[test]
fn vertical_scan_of_no_rows_finds_nothing() {
    let grid = PixelGrid::new();
    let updates = Updates::new();
    assert_eq!(check_vertical_position(&grid, 0, 4, 4, &updates), None);
    assert_eq!(check_vertical_position(&grid, 0, 4, 9, &updates), None);
    assert_eq!(check_vertical_position(&grid, 0, i32::MIN, i32::MIN, &updates), None);
}

#[test]
fn sliding_scan_prefers_the_chosen_side() {
    let grid = PixelGrid::new();
    let updates = Updates::new();
    assert_eq!(
        check_sliding_toward(&grid, 3, 10, 9, &updates, true),
        Some(Cell { x: 4, y: 9 })
    );
    assert_eq!(
        check_sliding_toward(&grid, 3, 10, 9, &updates, false),
        Some(Cell { x: 2, y: 9 })
    );
}

#[test]
fn sliding_scan_falls_back_to_the_mirror_side() {
    let mut grid = PixelGrid::new();
    grid.set_pixel(4, 9, 1);
    let updates = Updates::new();
    assert_eq!(
        check_sliding_toward(&grid, 3, 10, 9, &updates, true),
        Some(Cell { x: 2, y: 9 })
    );
    let mut claimed = Updates::new();
    claim(&mut claimed, 5, Cell { x: 2, y: 10 }, Cell { x: 2, y: 9 });
    assert_eq!(check_sliding_toward(&grid, 3, 10, 9, &claimed, true), None);
    assert_eq!(
        check_sliding_toward(&grid, 3, 10, 8, &claimed, true),
        Some(Cell { x: 4, y: 8 })
    );
}

#[test]
fn sliding_scan_stops_at_the_edge_of_the_grid() {
    let grid = PixelGrid::new();
    let updates = Updates::new();
    assert_eq!(
        check_sliding_toward(&grid, i32::MAX, 1, 0, &updates, true),
        Some(Cell { x: i32::MAX - 1, y: 0 })
    );
    assert_eq!(
        check_sliding_toward(&grid, i32::MIN, 1, 0, &updates, false),
        Some(Cell { x: i32::MIN + 1, y: 0 })
    );
}

#[test]
fn sliding_with_a_fresh_coin_takes_one_of_the_two_sides() {
    let grid = PixelGrid::new();
    let updates = Updates::new();
    let mut right = 0;
    let mut left = 0;
    for _ in 0..200 {
        match check_sliding(&grid, 3, 10, 9, &updates) {
            Some(Cell { x: 4, y: 9 }) => right += 1,
            Some(Cell { x: 2, y: 9 }) => left += 1,
            other => panic!("unexpected target {:?}", other),
        }
    }
    assert_eq!(right + left, 200);
    assert!(right > 0 && left > 0);
}

#[test]
fn sand_falls_one_row_at_its_initial_velocity() {
    let grid = PixelGrid::new();
    let updates = Updates::new();
    let from = Cell { x: 0, y: 50 };
    let staged = sand_rule(9, from, SandColor::RED, -10, &grid, &updates, 0, true);
    assert_eq!(
        staged,
        Staged {
            id: 9,
            from,
            to: Cell { x: 0, y: 49 },
            pixel: Pixel { pixel_type: PixelType::SAND(SandColor::RED), velocity: -12 },
        }
    );
}

#[test]
fn sand_reaches_past_an_obstacle_when_fast_enough() {
    let mut grid = PixelGrid::new();
    grid.set_pixel(0, 9, 1);
    let updates = Updates::new();
    let from = Cell { x: 0, y: 10 };
    // -14 becomes -16 after gravity, which rounds to two rows of reach.
    let fast = sand_rule(2, from, SandColor::YELLOW, -14, &grid, &updates, 0, true);
    assert_eq!(fast.to, Cell { x: 0, y: 8 });
    assert_eq!(fast.pixel.velocity, -16);
    // -12 becomes -14, which rounds to one row: the column is blocked, so it slides.
    let slow = sand_rule(2, from, SandColor::YELLOW, -12, &grid, &updates, 0, true);
    assert_eq!(slow.to, Cell { x: 1, y: 9 });
    let slow_left = sand_rule(2, from, SandColor::YELLOW, -12, &grid, &updates, 0, false);
    assert_eq!(slow_left.to, Cell { x: -1, y: 9 });
}

#[test]
fn sand_rounds_half_a_row_away_from_zero() {
    let grid = PixelGrid::new();
    let updates = Updates::new();
    let from = Cell { x: 0, y: 10 };
    // -2 becomes -4: less than half a row, no reach.
    let short = sand_rule(0, from, SandColor::YELLOW, -2, &grid, &updates, 0, true);
    assert_eq!(short.to, from);
    assert_eq!(short.pixel.velocity, 0);
    // -3 becomes -5: exactly half a row, one row of reach.
    let half = sand_rule(0, from, SandColor::YELLOW, -3, &grid, &updates, 0, true);
    assert_eq!(half.to, Cell { x: 0, y: 9 });
    assert_eq!(half.pixel.velocity, -5);
}

#[test]
fn sand_with_nowhere_to_go_comes_to_rest() {
    let mut grid = PixelGrid::new();
    grid.set_pixel(0, 9, 1);
    grid.set_pixel(1, 9, 2);
    grid.set_pixel(-1, 9, 3);
    let updates = Updates::new();
    let from = Cell { x: 0, y: 10 };
    let staged = sand_rule(4, from, SandColor::ORANGE, -10, &grid, &updates, 0, true);
    assert_eq!(staged.to, from);
    assert_eq!(staged.pixel, Pixel { pixel_type: PixelType::SAND(SandColor::ORANGE), velocity: 0 });
}

#[test]
fn sand_never_goes_below_the_floor() {
    let grid = PixelGrid::new();
    let updates = Updates::new();
    let on_floor = Cell { x: 0, y: -19 };
    let staged = sand_rule(0, on_floor, SandColor::YELLOW, -50, &grid, &updates, -19, true);
    assert_eq!(staged.to, on_floor);
    assert_eq!(staged.pixel.velocity, 0);
    let above = Cell { x: 0, y: -18 };
    let falling = sand_rule(0, above, SandColor::YELLOW, -50, &grid, &updates, -19, true);
    assert_eq!(falling.to, Cell { x: 0, y: -19 });
    let below = Cell { x: 0, y: -30 };
    let stuck = sand_rule(0, below, SandColor::YELLOW, -50, &grid, &updates, -19, true);
    assert_eq!(stuck.to, below);
}

#[test]
fn sand_with_upward_velocity_stays() {
    let grid = PixelGrid::new();
    let updates = Updates::new();
    let from = Cell { x: 0, y: i32::MAX };
    let staged = sand_rule(0, from, SandColor::YELLOW, 40, &grid, &updates, 0, true);
    assert_eq!(staged.to, from);
    assert_eq!(staged.pixel.velocity, 0);
}

#[test]
fn water_falls_when_the_cell_below_is_free() {
    let grid = PixelGrid::new();
    let updates = Updates::new();
    let from = Cell { x: 2, y: 5 };
    let staged = water_rule(1, from, 42, 100, 0, &grid, &updates, 0, true);
    assert_eq!(
        staged,
        Staged { id: 1, from, to: Cell { x: 2, y: 4 }, pixel: water(0, 100) }
    );
}

#[test]
fn water_falls_even_when_its_count_exceeds_the_limit() {
    let grid = PixelGrid::new();
    let updates = Updates::new();
    let from = Cell { x: 2, y: 5 };
    let staged = water_rule(1, from, 101, 100, 0, &grid, &updates, 0, true);
    assert_eq!(staged.to, Cell { x: 2, y: 4 });
    assert_eq!(staged.pixel, water(0, 100));
}

#[test]
fn water_flows_sideways_when_it_cannot_fall() {
    let mut grid = PixelGrid::new();
    grid.set_pixel(2, 4, 7);
    let updates = Updates::new();
    let from = Cell { x: 2, y: 5 };
    let heads = water_rule(1, from, 3, 100, 0, &grid, &updates, 0, true);
    assert_eq!(heads.to, Cell { x: 1, y: 5 });
    assert_eq!(heads.pixel, water(4, 100));
    let tails = water_rule(1, from, 3, 100, 0, &grid, &updates, 0, false);
    assert_eq!(tails.to, Cell { x: 3, y: 5 });
    assert_eq!(tails.pixel, water(4, 100));
}

#[test]
fn water_takes_the_only_free_side() {
    let mut grid = PixelGrid::new();
    grid.set_pixel(2, 4, 7);
    grid.set_pixel(1, 5, 8);
    let updates = Updates::new();
    let from = Cell { x: 2, y: 5 };
    assert_eq!(water_rule(1, from, 0, 100, 0, &grid, &updates, 0, true).to, Cell { x: 3, y: 5 });
    let mut other = PixelGrid::new();
    other.set_pixel(2, 4, 7);
    other.set_pixel(3, 5, 8);
    assert_eq!(water_rule(1, from, 0, 100, 0, &other, &updates, 0, false).to, Cell { x: 1, y: 5 });
}

#[test]
fn water_hemmed_in_stays_as_it_is() {
    let mut grid = PixelGrid::new();
    grid.set_pixel(2, 4, 7);
    grid.set_pixel(1, 5, 8);
    let mut updates = Updates::new();
    claim(&mut updates, 3, Cell { x: 3, y: 6 }, Cell { x: 3, y: 5 });
    let from = Cell { x: 2, y: 5 };
    let staged = water_rule(1, from, 9, 100, 0, &grid, &updates, 0, true);
    assert_eq!(staged, Staged { id: 1, from, to: from, pixel: water(9, 100) });
}

#[test]
fn water_on_the_floor_does_not_fall() {
    let grid = PixelGrid::new();
    let updates = Updates::new();
    let from = Cell { x: 0, y: -19 };
    let staged = water_rule(1, from, 0, 100, 0, &grid, &updates, -19, true);
    assert_eq!(staged.to, Cell { x: -1, y: -19 });
    assert_eq!(staged.pixel, water(1, 100));
}

#[test]
fn water_freezes_once_its_count_exceeds_the_limit() {
    let grid = PixelGrid::new();
    let updates = Updates::new();
    let from = Cell { x: 0, y: 0 };
    let at_limit = water_rule(1, from, 100, 100, 0, &grid, &updates, 0, false);
    assert_eq!(at_limit.to, Cell { x: 1, y: 0 });
    assert_eq!(at_limit.pixel, water(101, 100));
    let beyond = water_rule(1, from, 101, 100, 0, &grid, &updates, 0, false);
    assert_eq!(beyond, Staged { id: 1, from, to: from, pixel: water(101, 100) });
}

#[test]
fn water_count_stops_at_the_largest_count() {
    let grid = PixelGrid::new();
    let updates = Updates::new();
    let from = Cell { x: 0, y: 0 };
    let staged = water_rule(1, from, i32::MAX, i32::MAX, 0, &grid, &updates, 0, true);
    assert_eq!(staged.to, Cell { x: -1, y: 0 });
    assert_eq!(staged.pixel, water(i32::MAX, i32::MAX));
}

#[test]
fn water_at_the_edge_of_the_grid_flows_inwards() {
    let grid = PixelGrid::new();
    let updates = Updates::new();
    let from = Cell { x: i32::MIN, y: 0 };
    assert_eq!(
        water_rule(1, from, 0, 100, 0, &grid, &updates, 0, true).to,
        Cell { x: i32::MIN + 1, y: 0 }
    );
    let other = Cell { x: i32::MAX, y: 0 };
    assert_eq!(
        water_rule(1, other, 0, 100, 0, &grid, &updates, 0, false).to,
        Cell { x: i32::MAX - 1, y: 0 }
    );
}

#[test]
fn decide_dispatches_on_the_material() {
    let grid = PixelGrid::new();
    let updates = Updates::new();
    let from = Cell { x: 0, y: 3 };
    let as_sand = decide(0, from, &sand(-10), &grid, &updates, 0, true);
    assert_eq!(as_sand.to, Cell { x: 0, y: 2 });
    assert_eq!(as_sand.pixel, sand(-12));
    let as_water = decide(0, from, &water(5, 100), &grid, &updates, 0, true);
    assert_eq!(as_water.to, Cell { x: 0, y: 2 });
    assert_eq!(as_water.pixel, water(0, 100));
}
