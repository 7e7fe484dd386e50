//! Small judgements about moves and positions that the search relies on.

use vstd::prelude::*;
use crate::bits::{count, holds, on, popcount};
use crate::board::{Move, Snapshot};

verus! {

/// Whether a game goes on, and how it ended if it does not.
#[derive(Debug, Copy, Clone, PartialEq, Eq, Structural)]
pub enum BoardStatus {
    Ongoing,
    Stalemate,
    Checkmate,
}

/// Whether `mv` moves a pawn or lands on an occupied square. (The one capture
/// that lands on an empty square is en passant, a pawn move.)
pub open spec fn resets_clock(p: Snapshot, mv: Move) -> bool {
    on(p.pieces[0], mv.source as int) || on(p.occupied(), mv.dest as int)
}

/// Whether `child` has as many pieces and as many pawns as `p`: the move
/// between them took nothing and promoted nothing.
pub open spec fn is_quiet(p: Snapshot, child: Snapshot) -> bool {
    count(child.occupied()) == count(p.occupied()) && count(child.pieces[0]) == count(p.pieces[0])
}

/// The status of a position that has `moves` legal moves.
pub open spec fn status_of(p: Snapshot, moves: int) -> BoardStatus {
    if moves > 0 {
        BoardStatus::Ongoing
    } else if p.checkers != 0 {
        BoardStatus::Checkmate
    } else {
        BoardStatus::Stalemate
    }
}

/// The entry of `history` that stands `back` plies before its last one.
pub open spec fn entry_back(history: Seq<u64>, back: int) -> u64 {
    history[history.len() - 1 - back]
}

/// Whether `hash` stands in `history` an even number of plies, two at least
/// and fewer than `halfmove_clock`, before its last entry.
pub open spec fn repeats(history: Seq<u64>, hash: u64, halfmove_clock: int) -> bool {
    exists|back: int|
        2 <= back < halfmove_clock && back < history.len() && back % 2 == 0 && #[trigger] entry_back(
            history,
            back,
        ) == hash
}

/// Whether the game is drawn by the fifty-move rule or by repetition. One
/// repetition is enough: a line that repeats once can repeat again.
pub open spec fn is_draw_by_rule(history: Seq<u64>, hash: u64, halfmove_clock: int) -> bool {
    halfmove_clock >= 100 || (halfmove_clock >= 4 && repeats(history, hash, halfmove_clock))
}

/// The clock after a move: 1 if the move reset it, else one more than before
/// (the clock stops at 255).
pub open spec fn next_clock(resets: bool, halfmove_clock: int) -> int {
    if resets {
        1
    } else if halfmove_clock >= 255 {
        255
    } else {
        halfmove_clock + 1
    }
}

/// A position that stood in the history before, an even number of plies
/// back and within the plies that the clock counts, is drawn by rule once the
/// clock stands at four.
pub proof fn lemma_repetition_draws(history: Seq<u64>, hash: u64, halfmove_clock: int, back: int)
    requires
        2 <= back < halfmove_clock,
        back < history.len(),
        back % 2 == 0,
        entry_back(history, back) == hash,
        halfmove_clock >= 4,
    ensures
        is_draw_by_rule(history, hash, halfmove_clock),
{
}

/// After a hundred plies without a pawn move or a capture every position is
/// drawn by rule.
pub proof fn lemma_hundred_plies_draw(history: Seq<u64>, hash: u64, halfmove_clock: int)
    requires
        halfmove_clock >= 100,
    ensures
        is_draw_by_rule(history, hash, halfmove_clock),
{
}

pub fn move_resets_fifty_move_rule(mv: Move, board: &Snapshot) -> (r: bool)
    ensures
        r == resets_clock(*board, mv),
{
    holds(board.pieces[0], mv.source) || holds(board.combined(), mv.dest)
}

/// No captures or promotions.
pub fn move_is_quiet(board: &Snapshot, child_board: &Snapshot) -> (r: bool)
    ensures
        r == is_quiet(*board, *child_board),
{
    popcount(child_board.combined()) == popcount(board.combined()) && popcount(
        child_board.pieces[0],
    ) == popcount(board.pieces[0])
}

pub fn board_status(board: &Snapshot, moves: &Vec<Move>) -> (r: BoardStatus)
    ensures
        r == status_of(*board, moves@.len() as int),
{
    if moves.len() > 0 {
        BoardStatus::Ongoing
    } else if board.in_check() {
        BoardStatus::Checkmate
    } else {
        BoardStatus::Stalemate
    }
}

/// The halfmove clock after a move that resets it or does not.
pub fn child_clock(resets: bool, halfmove_clock: u8) -> (r: u8)
    ensures
        r == next_clock(resets, halfmove_clock as int),
        (r == 1) == (resets || halfmove_clock == 0),
        !resets && halfmove_clock < 255 ==> r == halfmove_clock + 1,
{
    if resets {
        1
    } else if halfmove_clock == 255 {
        255
    } else {
        halfmove_clock + 1
    }
}

pub fn draw_by_move_rule(board: &Snapshot, game_history: &Vec<u64>, halfmove_clock: u8) -> (r: bool)
    ensures
        r == is_draw_by_rule(game_history@, board.hash, halfmove_clock as int),
{
    if halfmove_clock >= 100 {
        return true;
    }
    if halfmove_clock >= 4 {
        let len: usize = game_history.len();
        let mut back: usize = 2;
        while back < halfmove_clock as usize && back < len
            invariant
                2 <= back <= halfmove_clock + 1,
                4 <= halfmove_clock < 100,
                back % 2 == 0,
                len == game_history@.len(),
                forall|b: int|
                    2 <= b < back && b % 2 == 0 ==> #[trigger] entry_back(game_history@, b)
                        != board.hash,
            decreases 257 - back,
        {
            if game_history[len - 1 - back] == board.hash {
                assert(entry_back(game_history@, back as int) == board.hash);
                return true;
            }
            back = back + 2;
        }
    }
    false
}

} // verus!
