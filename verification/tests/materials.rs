use pixel_sand::chance::{draw_coins, draw_rolls, ROLL_SIDES};
use pixel_sand::pixel_types::{
    round_to_cells, DisplayColor, Pixel, PixelType, SandColor, DEFAULT_MAX_STAGNATION, GRAVITY,
    INITIAL_VELOCITY, MAX_VELOCITY, VELOCITY_SCALE,
};

fn sand(velocity: i32) -> Pixel {
    Pixel { pixel_type: PixelType::SAND(SandColor::ORANGE), velocity }
}

#[test]
fn sand_colors_have_their_display_colors() {
    assert_eq!(SandColor::YELLOW.as_color(), DisplayColor { red: 100, green: 85, blue: 30 });
    assert_eq!(SandColor::ORANGE.as_color(), DisplayColor { red: 100, green: 75, blue: 30 });
    assert_eq!(SandColor::RED.as_color(), DisplayColor { red: 100, green: 65, blue: 30 });
}

#[test]
fn materials_have_their_display_colors() {
    let water = PixelType::WATER { stagnation_count: 7, max_stagnation: 100 };
    assert_eq!(water.as_color(), DisplayColor { red: 0, green: 0, blue: 100 });
    assert_eq!(
        PixelType::SAND(SandColor::RED).as_color(),
        DisplayColor { red: 100, green: 65, blue: 30 }
    );
    assert_eq!(PixelType::SAND(SandColor::YELLOW).as_color(), SandColor::YELLOW.as_color());
}

#[test]
fn rolls_select_three_bands() {
    assert_eq!(SandColor::from_roll(0), SandColor::YELLOW);
    assert_eq!(SandColor::from_roll(32), SandColor::YELLOW);
    assert_eq!(SandColor::from_roll(33), SandColor::ORANGE);
    assert_eq!(SandColor::from_roll(65), SandColor::ORANGE);
    assert_eq!(SandColor::from_roll(66), SandColor::RED);
    assert_eq!(SandColor::from_roll(99), SandColor::RED);
    assert_eq!(SandColor::from_roll(u32::MAX), SandColor::RED);
}

#[test]
fn gravity_adds_a_fifth_of_a_cell() {
    assert_eq!(GRAVITY, -2);
    let mut pixel = sand(-10);
    pixel.apply_gravity();
    assert_eq!(pixel.velocity, -12);
    assert_eq!(pixel.pixel_type, PixelType::SAND(SandColor::ORANGE));
    let mut resting = sand(0);
    resting.apply_gravity();
    assert_eq!(resting.velocity, -2);
}

#[test]
fn gravity_is_capped() {
    assert_eq!(MAX_VELOCITY, -50);
    let mut near = sand(-49);
    near.apply_gravity();
    assert_eq!(near.velocity, -50);
    let mut at_cap = sand(-50);
    at_cap.apply_gravity();
    assert_eq!(at_cap.velocity, -50);
    let mut just_above = sand(-48);
    just_above.apply_gravity();
    assert_eq!(just_above.velocity, -50);
    let mut huge = sand(i32::MIN);
    huge.apply_gravity();
    assert_eq!(huge.velocity, -50);
}

#[test]
fn gravity_caps_upward_velocity_too() {
    let mut rising = sand(60);
    rising.apply_gravity();
    assert_eq!(rising.velocity, 50);
    let mut at_edge = sand(52);
    at_edge.apply_gravity();
    assert_eq!(at_edge.velocity, 50);
    let mut inside = sand(51);
    inside.apply_gravity();
    assert_eq!(inside.velocity, 49);
    let mut extreme = sand(i32::MAX);
    extreme.apply_gravity();
    assert_eq!(extreme.velocity, 50);
}

#[test]
fn twenty_ticks_of_gravity_reach_the_cap() {
    let mut pixel = sand(INITIAL_VELOCITY);
    for _ in 0..19 {
        pixel.apply_gravity();
    }
    assert_eq!(pixel.velocity, -48);
    pixel.apply_gravity();
    assert_eq!(pixel.velocity, -50);
    pixel.apply_gravity();
    assert_eq!(pixel.velocity, -50);
}

#[test]
fn fresh_sand_falls_and_takes_its_shade_from_the_roll() {
    let selected = PixelType::SAND(SandColor::RED);
    assert_eq!(
        Pixel::fresh(&selected, 10),
        Pixel { pixel_type: PixelType::SAND(SandColor::YELLOW), velocity: -10 }
    );
    assert_eq!(
        Pixel::fresh(&selected, 50),
        Pixel { pixel_type: PixelType::SAND(SandColor::ORANGE), velocity: -10 }
    );
    assert_eq!(
        Pixel::fresh(&selected, 70),
        Pixel { pixel_type: PixelType::SAND(SandColor::RED), velocity: -10 }
    );
}

#[test]
fn fresh_water_is_still_and_unstagnated() {
    let selected = PixelType::WATER { stagnation_count: 55, max_stagnation: 3 };
    assert_eq!(DEFAULT_MAX_STAGNATION, 100);
    assert_eq!(
        Pixel::fresh(&selected, 70),
        Pixel {
            pixel_type: PixelType::WATER { stagnation_count: 0, max_stagnation: 100 },
            velocity: 0
        }
    );
}

#[test]
fn default_pixel_is_falling_sand() {
    for _ in 0..20 {
        let pixel = Pixel::default();
        assert_eq!(pixel.velocity, INITIAL_VELOCITY);
        assert!(matches!(pixel.pixel_type, PixelType::SAND(_)));
    }
}

#[test]
fn default_sand_color_is_one_of_the_three() {
    for _ in 0..20 {
        let color = SandColor::default();
        assert!(matches!(color, SandColor::YELLOW | SandColor::ORANGE | SandColor::RED));
    }
}

#[test]
fn drawn_rolls_stay_below_the_number_of_sides() {
    assert_eq!(ROLL_SIDES, 100);
    let rolls = draw_rolls(2000);
    assert_eq!(rolls.len(), 2000);
    assert!(rolls.iter().all(|roll| *roll < ROLL_SIDES));
    assert!(rolls.iter().any(|roll| *roll != rolls[0]));
    assert!(draw_rolls(0).is_empty());
}

#[test]
fn drawn_coins_come_in_the_requested_number() {
    assert_eq!(draw_coins(0).len(), 0);
    let coins = draw_coins(512);
    assert_eq!(coins.len(), 512);
    assert!(coins.iter().any(|coin| *coin));
    assert!(coins.iter().any(|coin| !*coin));
}

#[test]
fn velocities_round_to_whole_cells_away_from_zero() {
    assert_eq!(VELOCITY_SCALE, 10);
    assert_eq!(round_to_cells(0), 0);
    assert_eq!(round_to_cells(-4), 0);
    assert_eq!(round_to_cells(-5), -1);
    assert_eq!(round_to_cells(-12), -1);
    assert_eq!(round_to_cells(-14), -1);
    assert_eq!(round_to_cells(-15), -2);
    assert_eq!(round_to_cells(-50), -5);
    assert_eq!(round_to_cells(4), 0);
    assert_eq!(round_to_cells(5), 1);
    assert_eq!(round_to_cells(16), 2);
    assert_eq!(round_to_cells(i32::MAX), 214748365);
    assert_eq!(round_to_cells(i32::MIN), -214748365);
}
