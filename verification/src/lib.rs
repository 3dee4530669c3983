//! A verified falling-block puzzle engine.
//!
//! The library models a fixed-size playfield of display cells, the seven
//! polyomino pieces with their rotation geometry, and the session state
//! machine that drives gravity, locking, line clearing, scoring and level
//! progression.  Rendering and input polling are left to the embedding
//! program; the engine works purely on the in-memory grid.

pub mod game;
pub mod primitives;
pub mod screen;
pub mod shape;
