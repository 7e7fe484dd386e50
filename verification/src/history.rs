//! The history heuristic: for each colour, piece and destination square a
//! counter of how often such a quiet move cut a search off.

use vstd::prelude::*;
use crate::board::{Color, Piece};

verus! {

/// The index of the counter of a colour, a piece and a square.
pub open spec fn counter_index(color: Color, piece: Piece, square: int) -> int {
    (color.spec_index() * 6 + piece.spec_index()) * 64 + square
}

/// What a counter holds after a cutoff at `depth`: the square of the depth
/// more, or the greatest count where that does not fit.
pub open spec fn bumped(count: u32, depth: u8) -> u32 {
    if count + depth * depth > u32::MAX {
        u32::MAX
    } else {
        (count + depth * depth) as u32
    }
}

pub struct HistoryTable {
    counters: [u32; 768],
}

impl View for HistoryTable {
    type V = Seq<u32>;

    closed spec fn view(&self) -> Seq<u32> {
        self.counters@
    }
}

impl HistoryTable {
    /// The counter of a colour, a piece and a square on the board.
    pub open spec fn counter(self, color: Color, piece: Piece, square: int) -> u32 {
        self@[counter_index(color, piece, square)]
    }

    /// A table of 768 counters, all at zero.
    pub fn new() -> (r: HistoryTable)
        ensures
            r@.len() == 768,
            forall|i: int| 0 <= i < 768 ==> r@[i] == 0,
    {
        HistoryTable { counters: [0u32; 768] }
    }

    /// The counter of the moves of a `piece` of `color` to `square`; zero for
    /// a square off the board.
    pub fn get(&self, color: Color, piece: Piece, square: u8) -> (r: u32)
        ensures
            self@.len() == 768,
            square < 64 ==> r == self.counter(color, piece, square as int),
            square >= 64 ==> r == 0,
    {
        if square < 64 {
            self.counters[(color.index() * 6 + piece.index()) * 64 + square as usize]
        } else {
            0
        }
    }

    /// Counts a cutoff at `depth` for the moves of a `piece` of `color` to `square`.
    pub fn bump(&mut self, color: Color, piece: Piece, square: u8, depth: u8)
        requires
            square < 64,
        ensures
            final(self)@ == old(self)@.update(
                counter_index(color, piece, square as int),
                bumped(old(self).counter(color, piece, square as int), depth),
            ),
    {
        let index: usize = (color.index() * 6 + piece.index()) * 64 + square as usize;
        assert(0 <= depth * depth <= 65025) by (nonlinear_arith)
            requires
                0 <= depth <= 255,
        ;
        let gain: u32 = depth as u32 * depth as u32;
        let count: u32 = self.counters[index];
        let raised: u32 = if count > u32::MAX - gain {
            u32::MAX
        } else {
            count + gain
        };
        self.counters[index] = raised;
    }
}

} // verus!
