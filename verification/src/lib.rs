//! A verified cellular-automaton engine: a generic, bounds-checked 2D matrix
//! backed by flat storage, and a Game-of-Life-derived simulation whose cells
//! carry an RGB color, updated from edge-clamped 8-neighbor aggregates under a
//! double-buffered (current/next) discipline.

pub mod game_simulation;
pub mod matrix;
pub mod rng;
