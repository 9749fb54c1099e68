//! Rules engine and AI decision layer for a sliding-tile merge puzzle game.
//!
//! The crate provides the board representation, the directional collapse
//! (slide + merge) algorithm, scoring, win/loss detection, one-level undo,
//! replay capture, and three computer move-selection strategies.

use vstd::prelude::*;

pub mod ai;
pub mod board;
pub mod error;
pub mod game;
pub mod line;
pub mod replay;
pub mod rng;
pub mod score;

pub use ai::{AIAlgorithm, AIGameController, AIPlayer};
pub use board::{Board, Tile};
pub use error::{GameError, GameResult};
pub use game::{Direction, Game, GameState};
pub use replay::{ReplayData, ReplayManager, ReplayMetadata, ReplayMove, ReplayPlayer, ReplayRecorder};
pub use rng::GameRng;
pub use score::Score;

verus! {

/// Game configuration.
#[derive(Debug, Clone, Copy)]
pub struct GameConfig {
    /// Board size (default: 4).
    pub board_size: usize,
    /// A move that brings any single tile to this value wins the game
    /// (default: 2048). Despite the name it is a tile-value threshold,
    /// not a cumulative-score threshold.
    pub target_score: u32,
    /// Whether to allow undo (default: true).
    pub allow_undo: bool,
    /// Random seed for reproducible games.
    pub seed: Option<u64>,
}

impl Default for GameConfig {
    fn default() -> (c: Self)
        ensures
            c.board_size == 4,
            c.target_score == 2048,
            c.allow_undo == true,
            c.seed is None,
    {
        Self { board_size: 4, target_score: 2048, allow_undo: true, seed: None }
    }
}

/// A snapshot of game statistics for display.
#[derive(Debug, Clone, Copy, Default)]
pub struct GameStats {
    /// Current score.
    pub score: u32,
    /// Best score achieved.
    pub best_score: u32,
    /// Number of moves made.
    pub moves: u32,
    /// Game duration in seconds.
    pub duration: u64,
    /// Whether the game is won.
    pub won: bool,
    /// Whether the game is over.
    pub game_over: bool,
}

/// Relies on `std::time::SystemTime::now`: reads the system clock and
/// converts it to whole seconds since the Unix epoch (0 if the clock is
/// before the epoch). The result depends on the environment, so nothing is
/// promised of it.
#[verifier::external_body]
pub fn get_current_time() -> u64 {
    std::time::SystemTime::now().duration_since(std::time::UNIX_EPOCH).unwrap_or_default().as_secs()
}

} // verus!
