//! A five-in-a-row (Gomoku) engine: board representation, terminal
//! detection, a heuristic position evaluator, and depth-limited
//! alpha-beta search that selects the best next move.

pub mod board;
pub mod engine;
pub mod score;
pub mod search;
pub mod terminal;

pub use board::Board;
pub use board::EngineError;
pub use engine::GomokuBot;
