//! The core of a chess engine: an iterative-deepening alpha-beta search with
//! its cache, move ordering and evaluation, stated and proved with Verus.
//! Move generation and board bookkeeping come from the `chess` crate.

pub mod bits;
pub mod board;
pub mod collections;
pub mod evaluation;
pub mod history;
pub mod moves;
pub mod notation;
pub mod oracle;
pub mod search;
pub mod squares;
pub mod standard;
pub mod table;
pub mod time;
