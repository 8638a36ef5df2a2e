//! A verified Minesweeper core.
//!
//! The library is split along the data flow of the game:
//! integer geometry helpers ([`numerics`]), a deterministic generator that
//! drives lazy mine placement ([`rng`]), the authoritative game state machine
//! ([`board`]), the retained visual representation of that state ([`grid`]),
//! and the controller that ties both together and receives input events
//! ([`game`]). Platform work (window, compositor, event loop) stays outside;
//! the library exchanges only plain values with it.
#![verifier::loop_isolation(false)]

pub mod board;
pub mod game;
pub mod grid;
pub mod numerics;
pub mod rng;
