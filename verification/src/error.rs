//! Error taxonomy shared by every fallible operation of the crate.

use vstd::prelude::*;

verus! {

/// Game-related errors. Nothing in the crate panics on invalid input;
/// every fallible operation reports one of these instead.
#[derive(Debug, Clone)]
pub enum GameError {
    /// A rejected move (reserved; the collapse algorithm itself treats
    /// every move as either applied or a no-op).
    InvalidMove(String),
    /// `make_move` was called while the game is not in the `Playing` state.
    GameOver,
    /// Out-of-range board access.
    InvalidPosition { row: usize, col: usize },
    /// A board cannot have size zero.
    InvalidBoardSize { size: usize },
    /// Undo is disabled or no snapshot is held.
    NoUndoAvailable,
    /// A persistence collaborator failed to encode or decode state.
    Serialization(String),
    /// Random number generation failed.
    RngError(String),
    /// Catch-all for strategy-layer failures.
    InvalidOperation(String),
}

impl GameError {
    /// A human-readable description of the error.
    pub fn message(&self) -> String {
        match self {
            GameError::InvalidMove(s) => s.clone(),
            GameError::GameOver => "game is already over".to_string(),
            GameError::InvalidPosition { row: _, col: _ } => "invalid board position".to_string(),
            GameError::InvalidBoardSize { size: _ } => "invalid board size".to_string(),
            GameError::NoUndoAvailable => "no undo available".to_string(),
            GameError::Serialization(s) => s.clone(),
            GameError::RngError(s) => s.clone(),
            GameError::InvalidOperation(s) => s.clone(),
        }
    }
}

/// Result type for game operations.
pub type GameResult<T> = Result<T, GameError>;

} // verus!
