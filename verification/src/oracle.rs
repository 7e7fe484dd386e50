//! Endgames that are drawn whatever is played.

use vstd::prelude::*;
use crate::bits::{count, popcount};
use crate::board::{Position, Snapshot};
use crate::evaluation::Evaluation;

verus! {

/// The squares on the rim of the board.
pub const EDGES: u64 = 0xFF81_8181_8181_81FFu64;

/// Whether the material on the board cannot win: two bare kings; a king and
/// one bishop or knight against a king; or four pieces, two of them knights,
/// with no king on the rim (where a few mates in one exist).
pub open spec fn dead_draw(p: Snapshot) -> bool {
    let pieces = count(p.occupied());
    ||| pieces == 2
    ||| (pieces == 3 && (p.pieces[2] | p.pieces[1]) != 0)
    ||| (pieces == 4 && count(p.pieces[1]) == 2 && (p.pieces[5] & EDGES) == 0)
}

/// The value of `board` if it is a dead draw, else nothing.
pub fn oracle(board: &Position) -> (r: Option<Evaluation>)
    ensures
        r.is_some() == dead_draw(board@),
        r.is_some() ==> r.unwrap().value() == 0,
{
    let p: Snapshot = board.position();
    let pieces: u32 = popcount(p.combined());
    if pieces == 2 {
        Some(Evaluation::draw())
    } else if pieces == 3 {
        if (p.pieces[2] | p.pieces[1]) != 0 {
            Some(Evaluation::draw())
        } else {
            None
        }
    } else if pieces == 4 {
        if popcount(p.pieces[1]) == 2 && (p.pieces[5] & EDGES) == 0 {
            Some(Evaluation::draw())
        } else {
            None
        }
    } else {
        None
    }
}

} // verus!
