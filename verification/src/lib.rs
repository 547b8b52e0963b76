//! A verified engine for perfect tic-tac-toe play.
//!
//! `board` holds the 3x3 position and its derived queries; `ai` holds the
//! exhaustive adversarial search that picks an optimal move; `error` holds the
//! failures that both layers report.

pub mod ai;
pub mod board;
pub mod error;
pub mod text;
