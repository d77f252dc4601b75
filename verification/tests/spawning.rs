use pixel_sand::brush::ring_cells;
use pixel_sand::cell::Cell;
use pixel_sand::pixel_types::{Pixel, PixelType, SandColor};
use pixel_sand::spawn::{spawn_cells, spawn_ring};
use pixel_sand::systems::{
    change_pixel_spawn_type, change_pixel_spawn_type_with, should_spawn,
    spawn_pixel_to_cursor_position, spawn_pixel_to_cursor_position_with, PixelSpawnType,
    SPAWN_RADIUS,
};
use pixel_sand::world::{Particle, World};

fn at(x: i32, y: i32) -> Cell {
    Cell { x, y }
}

fn sand_selected() -> PixelType {
    PixelType::SAND(SandColor::YELLOW)
}

fn water_selected() -> PixelType {
    PixelType::WATER { stagnation_count: 0, max_stagnation: 100 }
}

fn squared_distance(a: Cell, b: Cell) -> i64 {
    let dx = (a.x - b.x) as i64;
    let dy = (a.y - b.y) as i64;
    dx * dx + dy * dy
}

#[test]
fn brush_of_radius_one_is_a_plus() {
    assert_eq!(
        ring_cells(at(10, 20), 1),
        vec![at(9, 20), at(10, 19), at(10, 20), at(10, 21), at(11, 20)]
    );
}

#[test]
fn brush_of_radius_two_is_a_ring_without_its_centre() {
    assert_eq!(
        ring_cells(at(0, 0), 2),
        vec![
            at(-2, 0),
            at(-1, -1),
            at(-1, 0),
            at(-1, 1),
            at(0, -2),
            at(0, -1),
            at(0, 1),
            at(0, 2),
            at(1, -1),
            at(1, 0),
            at(1, 1),
            at(2, 0),
        ]
    );
}

#[test]
fn brush_of_the_default_radius_is_one_cell_thick() {
    let origin = at(-7, 3);
    let cells = ring_cells(origin, SPAWN_RADIUS);
    assert_eq!(SPAWN_RADIUS, 10);
    assert_eq!(cells.len(), 68);
    for cell in &cells {
        let d = squared_distance(*cell, origin);
        assert!((81..=100).contains(&d));
    }
    for dx in -12..=12 {
        for dy in -12..=12 {
            let cell = at(origin.x + dx, origin.y + dy);
            let inside = (81..=100).contains(&squared_distance(cell, origin));
            assert_eq!(cells.contains(&cell), inside);
        }
    }
    for pair in cells.windows(2) {
        assert!((pair[0].x, pair[0].y) < (pair[1].x, pair[1].y));
    }
}

#[test]
fn brush_without_a_positive_radius_is_empty() {
    assert!(ring_cells(at(0, 0), 0).is_empty());
    assert!(ring_cells(at(0, 0), -1).is_empty());
    assert!(ring_cells(at(0, 0), i32::MIN).is_empty());
}

#[test]
fn brush_leaves_out_cells_beyond_the_grid() {
    assert_eq!(
        ring_cells(at(i32::MAX, i32::MIN), 1),
        vec![at(i32::MAX - 1, i32::MIN), at(i32::MAX, i32::MIN), at(i32::MAX, i32::MIN + 1)]
    );
}

#[test]
fn spawning_fills_the_free_cells_of_the_brush_in_scan_order() {
    let mut world = World::new(0);
    let still_water = Pixel { pixel_type: water_selected(), velocity: 0 };
    world.insert(at(0, 1), still_water);
    let created = spawn_ring(&mut world, at(0, 0), 1, &sand_selected(), &vec![10, 40, 50, 70, 90]);
    assert_eq!(created, 4);
    assert_eq!(world.len(), 5);
    // The occupied cell keeps its occupant.
    assert_eq!(world.particle(0), Some(Particle { cell: at(0, 1), pixel: still_water }));
    let sand = |x, y, color| Particle {
        cell: at(x, y),
        pixel: Pixel { pixel_type: PixelType::SAND(color), velocity: -10 },
    };
    // Each cell of the brush uses the roll of its place in the scan.
    assert_eq!(world.particle(1), Some(sand(-1, 0, SandColor::YELLOW)));
    assert_eq!(world.particle(2), Some(sand(0, -1, SandColor::ORANGE)));
    assert_eq!(world.particle(3), Some(sand(0, 0, SandColor::ORANGE)));
    assert_eq!(world.particle(4), Some(sand(1, 0, SandColor::RED)));
    assert_eq!(world.occupant(at(0, 1)), Some(0));
    assert_eq!(world.occupant(at(1, 0)), Some(4));
}

#[test]
fn spawning_twice_in_the_same_place_creates_nothing_new() {
    let mut world = World::new(0);
    assert_eq!(spawn_ring(&mut world, at(3, 3), 10, &water_selected(), &Vec::new()), 68);
    assert_eq!(spawn_ring(&mut world, at(3, 3), 10, &water_selected(), &Vec::new()), 0);
    assert_eq!(world.len(), 68);
    for id in 0..world.len() {
        let particle = world.particle(id).unwrap();
        assert!((81..=100).contains(&squared_distance(particle.cell, at(3, 3))));
        assert_eq!(particle.pixel, Pixel { pixel_type: water_selected(), velocity: 0 });
        assert_eq!(world.occupant(particle.cell), Some(id));
    }
}

#[test]
fn spawning_with_too_few_rolls_reads_the_missing_ones_as_zero() {
    let mut world = World::new(0);
    spawn_ring(&mut world, at(0, 0), 1, &sand_selected(), &vec![99]);
    assert_eq!(world.particle(0).unwrap().pixel.pixel_type, PixelType::SAND(SandColor::RED));
    for id in 1..5 {
        let shade = world.particle(id).unwrap().pixel.pixel_type;
        assert_eq!(shade, PixelType::SAND(SandColor::YELLOW));
    }
}

#[test]
fn spawning_over_a_list_skips_repeated_cells() {
    let mut world = World::new(0);
    let cells = vec![at(1, 1), at(2, 2), at(1, 1)];
    assert_eq!(spawn_cells(&mut world, &cells, &sand_selected(), &vec![0, 40, 80]), 2);
    assert_eq!(world.particle(0).unwrap().cell, at(1, 1));
    assert_eq!(world.particle(1).unwrap().cell, at(2, 2));
    assert_eq!(world.particle(1).unwrap().pixel.pixel_type, PixelType::SAND(SandColor::ORANGE));
}

#[test]
fn a_spawn_is_due_on_press_and_on_timed_repeats_while_held() {
    assert!(should_spawn(true, true, false));
    assert!(should_spawn(true, false, false));
    assert!(should_spawn(false, true, true));
    assert!(!should_spawn(false, true, false));
    assert!(!should_spawn(false, false, true));
    assert!(!should_spawn(false, false, false));
}

#[test]
fn cursor_spawn_needs_a_trigger_and_a_cursor() {
    let selection = PixelSpawnType { pixel_type: water_selected() };
    let mut world = World::new(-19);
    let rolls = Vec::new();
    let cursor = Some((5, 5));
    assert_eq!(spawn_pixel_to_cursor_position_with(&mut world, false, cursor, &selection, &rolls), 0);
    assert_eq!(spawn_pixel_to_cursor_position_with(&mut world, true, None, &selection, &rolls), 0);
    assert_eq!(spawn_pixel_to_cursor_position(&mut world, false, Some((5, 5)), &selection), 0);
    assert_eq!(spawn_pixel_to_cursor_position(&mut world, true, None, &selection), 0);
    assert_eq!(world.len(), 0);
}

#[test]
fn cursor_spawn_centres_the_brush_on_the_cell_under_the_cursor() {
    let selection = PixelSpawnType { pixel_type: water_selected() };
    let mut world = World::new(-19);
    let cursor = Some((-15, 37));
    let created =
        spawn_pixel_to_cursor_position_with(&mut world, true, cursor, &selection, &Vec::new());
    assert_eq!(created, 68);
    let origin = at(-2, 3);
    for id in 0..world.len() {
        let d = squared_distance(world.particle(id).unwrap().cell, origin);
        assert!((81..=100).contains(&d));
    }
    assert!(world.is_occupied(at(-12, 3)));
    assert!(world.is_occupied(at(8, 3)));
    assert!(!world.is_occupied(origin));
}

#[test]
fn cursor_spawn_with_fresh_rolls_creates_sand_of_the_three_shades() {
    let selection = PixelSpawnType { pixel_type: sand_selected() };
    let mut world = World::new(-19);
    world.insert(at(10, 0), Pixel { pixel_type: water_selected(), velocity: 0 });
    assert_eq!(spawn_pixel_to_cursor_position(&mut world, true, Some((0, 0)), &selection), 67);
    assert_eq!(world.len(), 68);
    assert_eq!(world.particle(0).unwrap().pixel.pixel_type, water_selected());
    let mut shades = Vec::new();
    for id in 1..world.len() {
        let particle = world.particle(id).unwrap();
        assert_eq!(particle.pixel.velocity, -10);
        assert!((81..=100).contains(&squared_distance(particle.cell, at(0, 0))));
        match particle.pixel.pixel_type {
            PixelType::SAND(color) => shades.push(color),
            other => panic!("unexpected material {:?}", other),
        }
    }
    assert!(shades.iter().any(|shade| *shade != shades[0]));
}

#[test]
fn material_key_toggles_between_sand_and_water() {
    let mut selection = PixelSpawnType { pixel_type: PixelType::SAND(SandColor::RED) };
    change_pixel_spawn_type_with(&mut selection, false, 50);
    assert_eq!(selection.pixel_type, PixelType::SAND(SandColor::RED));
    change_pixel_spawn_type_with(&mut selection, true, 50);
    assert_eq!(selection.pixel_type, PixelType::WATER { stagnation_count: 0, max_stagnation: 100 });
    change_pixel_spawn_type_with(&mut selection, true, 50);
    assert_eq!(selection.pixel_type, PixelType::SAND(SandColor::ORANGE));
    change_pixel_spawn_type(&mut selection, false);
    assert_eq!(selection.pixel_type, PixelType::SAND(SandColor::ORANGE));
    change_pixel_spawn_type(&mut selection, true);
    assert_eq!(selection.pixel_type, PixelType::WATER { stagnation_count: 0, max_stagnation: 100 });
    change_pixel_spawn_type(&mut selection, true);
    assert!(matches!(selection.pixel_type, PixelType::SAND(_)));
}

#[test]
fn default_selection_is_sand() {
    assert!(matches!(PixelSpawnType::default().pixel_type, PixelType::SAND(_)));
}
