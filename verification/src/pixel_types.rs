//! Materials and the per-particle state that the movement rules read and
//! update.
//!
//! Velocities are fixed-point: one unit is a tenth of a cell per tick, so the
//! whole simulation stays in integer arithmetic.

use vstd::prelude::*;
use crate::chance::{random_below, ROLL_SIDES};

verus! {

/// Velocity units per cell: a velocity of `VELOCITY_SCALE` is one cell per tick.
pub const VELOCITY_SCALE: i32 = 10;

/// Change of vertical velocity per tick (0.2 cells per tick, downwards).
pub const GRAVITY: i32 = -2;

/// Fastest fall (5 cells per tick, downwards); no velocity exceeds its
/// magnitude once gravity has been applied.
pub const MAX_VELOCITY: i32 = -50;

/// Vertical velocity of a freshly created sand particle (1 cell per tick,
/// downwards).
pub const INITIAL_VELOCITY: i32 = -10;

/// Stagnation limit given to freshly created water.
pub const DEFAULT_MAX_STAGNATION: i32 = 100;

/// A display colour; each channel is in hundredths of full intensity.
#[derive(Clone, Copy, Debug, PartialEq, Eq, Structural)]
pub struct DisplayColor {
    pub red: u8,
    pub green: u8,
    pub blue: u8,
}

/// The three shades of sand. A particle keeps the shade it was created with.
#[allow(non_camel_case_types)]
#[derive(Clone, Copy, Debug, PartialEq, Eq, Structural)]
pub enum SandColor {
    YELLOW,
    ORANGE,
    RED,
}

/// The material of a particle, with the state that is specific to it.
#[allow(non_camel_case_types)]
#[derive(Clone, Copy, Debug, PartialEq, Eq, Structural)]
pub enum PixelType {
    /// Water counts its lateral moves since it last fell, and stops flowing
    /// sideways once the count exceeds `max_stagnation`.
    WATER { stagnation_count: i32, max_stagnation: i32 },
    SAND(SandColor),
}

/// The mutable state of one particle.
#[derive(Clone, Copy, Debug, PartialEq, Eq, Structural)]
pub struct Pixel {
    pub pixel_type: PixelType,
    /// Vertical velocity in tenths of a cell per tick; negative is downwards.
    /// Only sand uses it.
    pub velocity: i32,
}

/// The shade that a roll in `0..ROLL_SIDES` selects: three bands of (almost)
/// equal width.
pub open spec fn color_of_roll(roll: u32) -> SandColor {
    if roll < 33 {
        SandColor::YELLOW
    } else if roll < 66 {
        SandColor::ORANGE
    } else {
        SandColor::RED
    }
}

/// The display colour of each shade of sand.
pub open spec fn sand_display_color(color: SandColor) -> DisplayColor {
    match color {
        SandColor::YELLOW => DisplayColor { red: 100, green: 85, blue: 30 },
        SandColor::ORANGE => DisplayColor { red: 100, green: 75, blue: 30 },
        SandColor::RED => DisplayColor { red: 100, green: 65, blue: 30 },
    }
}

/// The display colour of each material.
pub open spec fn display_color(pixel_type: PixelType) -> DisplayColor {
    match pixel_type {
        PixelType::WATER { .. } => DisplayColor { red: 0, green: 0, blue: 100 },
        PixelType::SAND(color) => sand_display_color(color),
    }
}

/// One tick of gravity on a vertical velocity: add `GRAVITY`, then clamp the
/// magnitude to that of `MAX_VELOCITY`.
pub open spec fn gravity_applied(velocity: int) -> int {
    let v = velocity + GRAVITY;
    if v < MAX_VELOCITY {
        MAX_VELOCITY as int
    } else if v > -MAX_VELOCITY {
        -MAX_VELOCITY
    } else {
        v
    }
}

/// Whole number of cells nearest to a velocity, halves rounded away from zero.
pub open spec fn rounded_cells(velocity: int) -> int {
    let half = VELOCITY_SCALE / 2;
    if velocity >= 0 {
        (velocity + half) / (VELOCITY_SCALE as int)
    } else {
        -((half - velocity) / (VELOCITY_SCALE as int))
    }
}

/// The state in which a particle of the selected material comes into being:
/// sand starts falling at `INITIAL_VELOCITY` in the shade that `roll` selects;
/// water starts at rest with an empty stagnation count.
pub open spec fn fresh_pixel(selected: PixelType, roll: u32) -> Pixel {
    match selected {
        PixelType::SAND(_) => Pixel {
            pixel_type: PixelType::SAND(color_of_roll(roll)),
            velocity: INITIAL_VELOCITY,
        },
        PixelType::WATER { .. } => Pixel {
            pixel_type: PixelType::WATER {
                stagnation_count: 0,
                max_stagnation: DEFAULT_MAX_STAGNATION,
            },
            velocity: 0,
        },
    }
}

/// Rounds a velocity to whole cells per tick, halves away from zero.
pub fn round_to_cells(velocity: i32) -> (cells: i32)
    ensures
        cells == rounded_cells(velocity as int),
{
    let half: i64 = (VELOCITY_SCALE / 2) as i64;
    let scale: i64 = VELOCITY_SCALE as i64;
    let wide: i64 = velocity as i64;
    if wide >= 0 {
        ((wide + half) / scale) as i32
    } else {
        (-((half - wide) / scale)) as i32
    }
}

impl SandColor {
    /// The shade selected by a roll.
    pub fn from_roll(roll: u32) -> (color: SandColor)
        ensures
            color == color_of_roll(roll),
    {
        if roll < 33 {
            SandColor::YELLOW
        } else if roll < 66 {
            SandColor::ORANGE
        } else {
            SandColor::RED
        }
    }

    /// The colour in which this shade is shown.
    pub fn as_color(&self) -> (color: DisplayColor)
        ensures
            color == sand_display_color(*self),
    {
        match self {
            SandColor::YELLOW => DisplayColor { red: 100, green: 85, blue: 30 },
            SandColor::ORANGE => DisplayColor { red: 100, green: 75, blue: 30 },
            SandColor::RED => DisplayColor { red: 100, green: 65, blue: 30 },
        }
    }
}

impl Default for SandColor {
    /// A shade picked at random: the shade of one fresh roll.
    fn default() -> (color: SandColor)
        ensures
            exists|roll: u32| roll < ROLL_SIDES && color == #[trigger] color_of_roll(roll),
    {
        SandColor::from_roll(random_below(ROLL_SIDES))
    }
}

impl PixelType {
    /// The colour in which this material is shown; it depends on nothing
    /// but the material and, for sand, its shade.
    pub fn as_color(&self) -> (color: DisplayColor)
        ensures
            color == display_color(*self),
    {
        match self {
            PixelType::WATER { .. } => DisplayColor { red: 0, green: 0, blue: 100 },
            PixelType::SAND(color) => color.as_color(),
        }
    }
}

impl Pixel {
    /// A fresh particle of the selected material.
    pub fn fresh(selected: &PixelType, roll: u32) -> (pixel: Pixel)
        ensures
            pixel == fresh_pixel(*selected, roll),
    {
        match selected {
            PixelType::SAND(_) => Pixel {
                pixel_type: PixelType::SAND(SandColor::from_roll(roll)),
                velocity: INITIAL_VELOCITY,
            },
            PixelType::WATER { .. } => Pixel {
                pixel_type: PixelType::WATER {
                    stagnation_count: 0,
                    max_stagnation: DEFAULT_MAX_STAGNATION,
                },
                velocity: 0,
            },
        }
    }

    /// Integrates one tick of gravity into the vertical velocity.
    pub fn apply_gravity(&mut self)
        ensures
            final(self).velocity == gravity_applied(old(self).velocity as int),
            final(self).pixel_type == old(self).pixel_type,
            MAX_VELOCITY <= final(self).velocity <= -MAX_VELOCITY,
    {
        if self.velocity < MAX_VELOCITY - GRAVITY {
            self.velocity = MAX_VELOCITY;
        } else if self.velocity > -MAX_VELOCITY - GRAVITY {
            self.velocity = -MAX_VELOCITY;
        } else {
            self.velocity = self.velocity + GRAVITY;
        }
    }
}

impl Default for Pixel {
    /// A fresh sand particle of a random shade.
    fn default() -> (pixel: Pixel)
        ensures
            exists|roll: u32| roll < ROLL_SIDES && pixel == #[trigger] fresh_pixel(
                PixelType::SAND(SandColor::YELLOW),
                roll,
            ),
    {
        Pixel::fresh(&PixelType::SAND(SandColor::YELLOW), random_below(ROLL_SIDES))
    }
}

} // verus!
