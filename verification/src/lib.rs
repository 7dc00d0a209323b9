//! A terminal falling-block puzzle game engine.
//!
//! The crate owns the authoritative game state: the board of settled cells,
//! the active piece, the next-piece preview, score and level. It advances the
//! state on a fixed logical clock, independent of any rendering or input
//! front end, and exposes queries for a driver to render each frame.

pub mod block;
pub mod game;
pub mod leaderboard;
pub mod mocks;
pub mod randwrapper;
pub mod util;
