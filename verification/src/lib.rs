//! Core of a grid-based, turn-paced dungeon simulation.
//!
//! Discrete turn logic (a locking action queue drained under a pacing timer),
//! a bidirectional occupancy index, attack/damage resolution, one-step
//! collision physics, a one-step AI, and integer tween interpolation that
//! smooths logical cell changes into continuous positions.

pub mod action;
pub mod ai;
pub mod assoc;
pub mod bob;
pub mod components;
pub mod damage;
pub mod grid;
pub mod physics;
pub mod player;
pub mod resources;
pub mod rng;
pub mod room;
pub mod store;
pub mod timer;
pub mod tween;
pub mod utils;
