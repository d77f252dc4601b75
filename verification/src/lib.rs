//! A falling-sand automaton on a discrete grid.
//!
//! Particles of sand and water occupy the cells of a grid, at most one per
//! cell, and move once per tick: sand falls under gravity and slides off
//! obstacles, water falls and otherwise flows sideways until it stagnates.
//!
//! A tick has two phases. The decision pass ([`resolver`]) visits the
//! particles from the lowest row up and stages one decision for each
//! ([`rules`]), reading only the committed grid and the destinations that
//! earlier decisions of the same tick have claimed ([`staging`]). The
//! commit ([`commit`]) then applies the whole batch. Between ticks the
//! driver may spawn a brush of new particles ([`brush`], [`spawn`]) or
//! reset the world ([`systems`]); [`simulation`] strings these together
//! into whole steps that depend on nothing but their inputs.
//!
//! The state lives in a [`world::World`]: the particle store and the
//! occupancy grid ([`pixel_grid`]) that indexes it by cell. Randomness
//! enters in two places only, the coins of a tick and the rolls of a
//! spawn ([`chance`]); every operation that draws them has a twin that
//! takes them as arguments.
//!
//! Everything is integer arithmetic: positions are cells ([`cell`]),
//! velocities are tenths of a cell per tick ([`pixel_types`]).

pub mod brush;
pub mod cell;
pub mod chance;
pub mod commit;
pub mod order;
pub mod pixel_grid;
pub mod pixel_types;
pub mod resolver;
pub mod rules;
pub mod simulation;
pub mod spawn;
pub mod staging;
pub mod systems;
pub mod tick;
pub mod utils;
pub mod world;
