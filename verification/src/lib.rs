//! Core simulation of a turn-based artillery duel on destructible 2-D terrain.
//!
//! The crate models terrain as an occupancy grid, projectiles and falling
//! tanks through a shared trajectory sampler, explosions that carve the
//! terrain, and a round-level state machine that sequences the phases of a
//! turn.  All continuous quantities (positions, velocities, times) are held
//! in fixed-point integer units so that every computation is exact and
//! verified; rendering, audio and input remain outside collaborators.

pub mod ballistics;
pub mod explosion;

pub mod geometry;
pub mod input;
pub mod landscape;
pub mod missile;
pub mod num;
pub mod resources;
pub mod round;
pub mod tank;
pub mod types;

use vstd::prelude::*;

verus! {

/// Gravitational acceleration, in micro-pixels per second squared
/// (9.80665 px/s^2).
pub const G: i64 = 9_806_650;

/// Largest number of players a round may hold.
pub const MAX_PLAYERS_COUNT: u8 = 8;

} // verus!
