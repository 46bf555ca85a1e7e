//! A terminal falling-block puzzle game engine.
//!
//! The crate holds the verified game core: piece geometry under rotation,
//! the board with collision checking and row compaction, scoring, and the
//! per-tick state machine.  Rendering, input polling and audio are left to
//! the surrounding driver, which only reads the exposed state.

pub mod game;
pub mod shapes;
