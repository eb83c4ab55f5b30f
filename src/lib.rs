//! The engine of a falling-block puzzle game: the field and its pieces,
//! the field-quality metrics, a move evaluator that searches placements,
//! and a genetic optimizer that tunes the evaluator's weights.
pub mod block;
pub mod mino;
mod random;
pub mod game;
pub mod ai;
pub mod genetic;
