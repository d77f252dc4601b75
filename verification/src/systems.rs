//! The operations that the driver of the simulation invokes once per step:
//! reset, spawn, and the tick itself.

use vstd::prelude::*;
use crate::brush::{ring, ring_cells};
use crate::cell::{cell_containing, Cell};
use crate::chance::{draw_coins, draw_rolls, random_below, ROLL_SIDES};
use crate::commit::{commit, committed, staged_moves};
use crate::pixel_types::{color_of_roll, PixelType, SandColor, DEFAULT_MAX_STAGNATION};
use crate::resolver::{resolution, resolve_moves};
use crate::spawn::{lemma_spawned_ring, only_ring_added, spawn_cells, spawn_ring, spawned};
use crate::staging::Move;
use crate::tick::{conflict_free, lemma_tick, lemma_tick_conflict_free};
use crate::world::{Particle, World};

verus! {

/// Radius of the spawn brush, in cells.
pub const SPAWN_RADIUS: i32 = 10;

/// The material that the next spawn will create.
#[derive(Clone, Copy, Debug, PartialEq, Eq, Structural)]
pub struct PixelSpawnType {
    pub pixel_type: PixelType,
}

impl Default for PixelSpawnType {
    /// Sand of a random shade: the shade of one fresh roll.
    fn default() -> (selection: PixelSpawnType)
        ensures
            exists|roll: u32|
                roll < ROLL_SIDES && selection.pixel_type == PixelType::SAND(
                    #[trigger] color_of_roll(roll),
                ),
    {
        PixelSpawnType { pixel_type: PixelType::SAND(SandColor::default()) }
    }
}

/// The selection that follows `current` when the material key is pressed:
/// sand gives way to still water, anything else to sand of the shade that
/// `roll` selects.
pub open spec fn toggled(current: PixelType, roll: u32) -> PixelType {
    match current {
        PixelType::SAND(_) => PixelType::WATER {
            stagnation_count: 0,
            max_stagnation: DEFAULT_MAX_STAGNATION,
        },
        PixelType::WATER { .. } => PixelType::SAND(color_of_roll(roll)),
    }
}

/// Switches the selected material when `just_pressed` is set, using `roll`
/// for the shade of newly selected sand; does nothing otherwise.
pub fn change_pixel_spawn_type_with(
    pixel_spawn_type: &mut PixelSpawnType,
    just_pressed: bool,
    roll: u32,
)
    ensures
        final(pixel_spawn_type).pixel_type == (if just_pressed {
            toggled(old(pixel_spawn_type).pixel_type, roll)
        } else {
            old(pixel_spawn_type).pixel_type
        }),
{
    if just_pressed {
        pixel_spawn_type.pixel_type = match pixel_spawn_type.pixel_type {
            PixelType::SAND(_) => PixelType::WATER {
                stagnation_count: 0,
                max_stagnation: DEFAULT_MAX_STAGNATION,
            },
            PixelType::WATER { .. } => PixelType::SAND(SandColor::from_roll(roll)),
        };
    }
}

/// Switches the selected material when `just_pressed` is set, with a fresh
/// roll for the shade of newly selected sand.
pub fn change_pixel_spawn_type(pixel_spawn_type: &mut PixelSpawnType, just_pressed: bool)
    ensures
        !just_pressed ==> final(pixel_spawn_type).pixel_type == old(pixel_spawn_type).pixel_type,
        just_pressed ==> exists|roll: u32|
            roll < ROLL_SIDES && final(pixel_spawn_type).pixel_type == #[trigger] toggled(
                old(pixel_spawn_type).pixel_type,
                roll,
            ),
{
    if just_pressed {
        let roll = random_below(ROLL_SIDES);
        change_pixel_spawn_type_with(pixel_spawn_type, true, roll);
    }
}

/// Whether a spawn is due: on the press itself, and while the button stays
/// held each time the repeat timer has just run out.
pub fn should_spawn(just_pressed: bool, pressed: bool, timer_just_finished: bool) -> (due: bool)
    ensures
        due == (just_pressed || (timer_just_finished && pressed)),
{
    just_pressed || (timer_just_finished && pressed)
}

/// Spawns the selected material over the brush around the cell under the
/// cursor, with the given rolls, and returns the number of particles
/// created. Nothing happens unless a spawn is due and the cursor has a
/// world position.
pub fn spawn_pixel_to_cursor_position_with(
    world: &mut World,
    should_spawn: bool,
    cursor_position: Option<(i32, i32)>,
    pixel_spawn_type: &PixelSpawnType,
    rolls: &Vec<u32>,
) -> (created: usize)
    ensures
        final(world)@.wf(),
        final(world)@.floor_row == old(world)@.floor_row,
        created == final(world)@.particles.len() - old(world)@.particles.len(),
        !should_spawn || cursor_position.is_none() ==> final(world)@.particles == old(
            world,
        )@.particles,
        cursor_position matches Some(point) ==> {
            &&& should_spawn ==> final(world)@.particles == spawned(
                old(world)@.particles,
                ring(cell_containing(point.0 as int, point.1 as int), SPAWN_RADIUS as int),
                pixel_spawn_type.pixel_type,
                rolls@,
            )
            &&& only_ring_added(
                old(world)@.particles,
                old(world)@.grid,
                final(world)@.particles,
                cell_containing(point.0 as int, point.1 as int),
                SPAWN_RADIUS as int,
            )
        },
{
    proof {
        use_type_invariant(&*world);
        assert(world@.particles.take(world@.particles.len() as int) =~= world@.particles);
    }
    if !should_spawn {
        return 0;
    }
    match cursor_position {
        None => 0,
        Some(point) => {
            let origin = Cell::containing(point.0, point.1);
            spawn_ring(world, origin, SPAWN_RADIUS, &pixel_spawn_type.pixel_type, rolls)
        },
    }
}

/// As [`spawn_pixel_to_cursor_position_with`], with fresh rolls, one per
/// cell of the brush.
pub fn spawn_pixel_to_cursor_position(
    world: &mut World,
    should_spawn: bool,
    cursor_position: Option<(i32, i32)>,
    pixel_spawn_type: &PixelSpawnType,
) -> (created: usize)
    ensures
        final(world)@.wf(),
        final(world)@.floor_row == old(world)@.floor_row,
        created == final(world)@.particles.len() - old(world)@.particles.len(),
        !should_spawn || cursor_position.is_none() ==> final(world)@.particles == old(
            world,
        )@.particles,
        cursor_position matches Some(point) ==> {
            &&& should_spawn ==> exists|rolls: Seq<u32>|
                final(world)@.particles == #[trigger] spawned(
                    old(world)@.particles,
                    ring(cell_containing(point.0 as int, point.1 as int), SPAWN_RADIUS as int),
                    pixel_spawn_type.pixel_type,
                    rolls,
                )
            &&& only_ring_added(
                old(world)@.particles,
                old(world)@.grid,
                final(world)@.particles,
                cell_containing(point.0 as int, point.1 as int),
                SPAWN_RADIUS as int,
            )
        },
{
    proof {
        use_type_invariant(&*world);
        assert(world@.particles.take(world@.particles.len() as int) =~= world@.particles);
    }
    if !should_spawn {
        return 0;
    }
    match cursor_position {
        None => 0,
        Some(point) => {
            let origin = Cell::containing(point.0, point.1);
            let cells = ring_cells(origin, SPAWN_RADIUS);
            let rolls = draw_rolls(cells.len());
            proof {
                lemma_spawned_ring(
                    world@.particles,
                    origin,
                    SPAWN_RADIUS as int,
                    pixel_spawn_type.pixel_type,
                    rolls@,
                );
            }
            spawn_cells(world, &cells, &pixel_spawn_type.pixel_type, &rolls)
        },
    }
}

/// One tick with the given coins: resolves every particle, commits the
/// batch, and returns the committed changes of cell in resolution order.
pub fn update_particules_with(world: &mut World, coins: &Vec<bool>) -> (moves: Vec<Move>)
    ensures
        final(world)@.wf(),
        final(world)@.floor_row == old(world)@.floor_row,
        final(world)@.particles.len() == old(world)@.particles.len(),
        final(world)@.particles == committed(
            old(world)@.particles,
            resolution(old(world)@, coins@),
        ),
        moves@ == staged_moves(resolution(old(world)@, coins@)),
        conflict_free(old(world)@.grid, old(world)@.floor_row, moves@),
{
    proof {
        use_type_invariant(&*world);
        lemma_tick(world@, coins@);
        lemma_tick_conflict_free(world@, coins@);
    }
    let updates = resolve_moves(world, coins);
    commit(world, &updates)
}

/// One tick with fresh coins, one per particle.
pub fn update_particules(world: &mut World) -> (moves: Vec<Move>)
    ensures
        final(world)@.wf(),
        final(world)@.floor_row == old(world)@.floor_row,
        final(world)@.particles.len() == old(world)@.particles.len(),
        exists|coins: Seq<bool>|
            {
                &&& coins.len() == old(world)@.particles.len()
                &&& final(world)@.particles == committed(
                    old(world)@.particles,
                    #[trigger] resolution(old(world)@, coins),
                )
                &&& moves@ == staged_moves(resolution(old(world)@, coins))
            },
        conflict_free(old(world)@.grid, old(world)@.floor_row, moves@),
{
    let coins = draw_coins(world.len());
    update_particules_with(world, &coins)
}

/// Removes every particle when `just_pressed` is set; does nothing otherwise.
pub fn reset_grid(world: &mut World, just_pressed: bool)
    ensures
        final(world)@.floor_row == old(world)@.floor_row,
        final(world)@.wf(),
        just_pressed ==> final(world)@.particles == Seq::<Particle>::empty(),
        !just_pressed ==> final(world)@ == old(world)@,
{
    proof {
        use_type_invariant(&*world);
    }
    if just_pressed {
        world.clear();
    }
}

} // verus!
