//! A terminal worm (snake) game core: worm motion and growth, board
//! geometry, fruit placement, the per-tick state machine, and the
//! differential-rendering computation. Terminal input and output live
//! outside this crate; the logic here is verified.

use vstd::prelude::*;

pub mod entity;
pub mod game;
pub mod gameboard;

verus! {

/// Startup configuration for one game session.
#[derive(Clone, Copy, Debug, PartialEq, Eq, Structural)]
pub struct GameSettings {
    /// Number of fruit kept on the board at once.
    pub fruit_count: u64,
    /// Starting length of the worm chain.
    pub worm_length: u16,
    /// Show the frame-timing summary when the session ends.
    pub stats: bool,
}

} // verus!
