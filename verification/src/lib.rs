//! Core of a turn-based roguelike simulation: procedural dungeon generation
//! on a fixed grid, per-cell visibility/exploration tracking, an entity store
//! with optional combat and AI capabilities, and a deterministic turn engine.
//!
//! Randomness is injected through an explicit `rand::rngs::StdRng` so that a
//! fixed seed reproduces the whole run; display, input and the field-of-view
//! algorithm live outside this crate and talk to it through plain values.
use vstd::prelude::*;

pub mod engine;
pub mod log;
pub mod map;
pub mod object;
pub mod render;
pub mod rng;

verus! {

/// Index of the player in the entity collection, fixed for a whole session.
pub const PLAYER: usize = 0;

} // verus!
