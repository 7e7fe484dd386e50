//! What goes into a search and what comes out of it.

use vstd::prelude::*;
use crate::board::Move;
use crate::evaluation::Evaluation;

verus! {

/// The host of a search: it is asked whether time is up, and it is told the
/// result of every finished iteration.
pub trait LunaticHandler {
    /// Whether the search is to stop. The search asks below the root, once
    /// in 4096 nodes, and at every node once the count of nodes has stopped.
    fn time_up(&mut self) -> bool;

    fn search_result(&mut self, search_result: SearchResult);
}

#[derive(Debug, Clone)]
pub struct SearchResult {
    pub mv: Move,
    pub value: Evaluation,
    /// The nodes searched so far; the count stops at the greatest number
    /// that it can hold.
    pub nodes: u32,
    pub depth: u8,
    /// The greatest distance from the root that the search reached.
    pub sel_depth: u8,
    pub principal_variation: Vec<Move>,
    pub transposition_table_size: usize,
    pub transposition_table_entries: usize,
}

#[derive(Debug, Copy, Clone, PartialEq, Eq, Structural)]
pub enum SearchError {
    /// The last iteration allowed was done.
    MaxDepth,
    /// The root position has no legal move.
    NoMoves,
    /// The host said that time was up.
    Terminated,
}

#[derive(Debug, Clone, Copy)]
pub struct SearchOptions {
    /// How many plies the search is reduced by for a likely bad move.
    pub late_move_reduction: u8,
    /// The number of moves explored before late move reduction kicks in.
    pub late_move_leeway: u8,
    /// Whether null move pruning is on.
    pub null_move_pruning: bool,
    /// The number of plies the null move pruning search is reduced by.
    pub null_move_reduction: u8,
    pub max_depth: u8,
    pub max_nodes: u32,
    /// The size of the transposition table in bytes.
    pub transposition_table_size: usize,
}

impl Default for SearchOptions {
    fn default() -> (r: SearchOptions)
        ensures
            r.late_move_reduction == 1,
            r.late_move_leeway == 3,
            r.null_move_pruning,
            r.null_move_reduction == 2,
            r.max_depth == 64,
            r.max_nodes == u32::MAX,
            r.transposition_table_size == 16_000_000,
    {
        SearchOptions {
            late_move_reduction: 1,
            late_move_leeway: 3,
            null_move_pruning: true,
            null_move_reduction: 2,
            max_depth: 64,
            max_nodes: u32::MAX,
            transposition_table_size: 16_000_000,
        }
    }
}

} // verus!
