//! A verified rule engine for a two-player chess game.
//!
//! The library covers the parts of the game with algorithmic content:
//! piece-movement geometry, path-obstruction checks, capture and ownership
//! rules, and the click-driven selection and turn state machine.  Rendering,
//! picking and input handling are left to the host application, which talks
//! to this engine through plain values.

pub mod board;
pub mod game;
pub mod pieces;
