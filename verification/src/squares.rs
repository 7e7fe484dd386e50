//! Sums over the 64 squares of the board, and what mirroring the board
//! top to bottom does to them.

use vstd::prelude::*;
use crate::bits::{count_below, on};

verus! {

/// The sum of `f` over the squares below `n`.
pub open spec fn sum_below(f: spec_fn(int) -> int, n: int) -> int
    decreases n,
{
    if n <= 0 {
        0
    } else {
        sum_below(f, n - 1) + f(n - 1)
    }
}

/// The sum of `f` over the whole board.
pub open spec fn sum_board(f: spec_fn(int) -> int) -> int {
    sum_below(f, 64)
}

/// The square that `sq` becomes when the board is mirrored top to bottom:
/// the same file on the opposite rank.
pub open spec fn flip(sq: int) -> int {
    (7 - sq / 8) * 8 + sq % 8
}

/// The sum of `f` over rank `rank`.
pub open spec fn sum_rank(f: spec_fn(int) -> int, rank: int) -> int {
    f(8 * rank) + f(8 * rank + 1) + f(8 * rank + 2) + f(8 * rank + 3) + f(8 * rank + 4) + f(
        8 * rank + 5,
    ) + f(8 * rank + 6) + f(8 * rank + 7)
}

proof fn lemma_sum_rank_step(f: spec_fn(int) -> int, rank: int)
    requires
        0 <= rank,
    ensures
        sum_below(f, 8 * rank + 8) == sum_below(f, 8 * rank) + sum_rank(f, rank),
{
    let b = 8 * rank;
    assert(sum_below(f, b + 1) == sum_below(f, b) + f(b));
    assert(sum_below(f, b + 2) == sum_below(f, b + 1) + f(b + 1));
    assert(sum_below(f, b + 3) == sum_below(f, b + 2) + f(b + 2));
    assert(sum_below(f, b + 4) == sum_below(f, b + 3) + f(b + 3));
    assert(sum_below(f, b + 5) == sum_below(f, b + 4) + f(b + 4));
    assert(sum_below(f, b + 6) == sum_below(f, b + 5) + f(b + 5));
    assert(sum_below(f, b + 7) == sum_below(f, b + 6) + f(b + 6));
    assert(sum_below(f, b + 8) == sum_below(f, b + 7) + f(b + 7));
}

/// The sum over the board is the sum of its eight ranks.
pub proof fn lemma_sum_by_ranks(f: spec_fn(int) -> int)
    ensures
        sum_board(f) == sum_rank(f, 0) + sum_rank(f, 1) + sum_rank(f, 2) + sum_rank(f, 3)
            + sum_rank(f, 4) + sum_rank(f, 5) + sum_rank(f, 6) + sum_rank(f, 7),
{
    assert(sum_below(f, 0) == 0);
    lemma_sum_rank_step(f, 0);
    lemma_sum_rank_step(f, 1);
    lemma_sum_rank_step(f, 2);
    lemma_sum_rank_step(f, 3);
    lemma_sum_rank_step(f, 4);
    lemma_sum_rank_step(f, 5);
    lemma_sum_rank_step(f, 6);
    lemma_sum_rank_step(f, 7);
}

/// Mirroring the board does not change a sum over it.
pub proof fn lemma_sum_flip(f: spec_fn(int) -> int, g: spec_fn(int) -> int)
    requires
        forall|sq: int| 0 <= sq < 64 ==> #[trigger] g(sq) == f(flip(sq)),
    ensures
        sum_board(g) == sum_board(f),
{
    lemma_sum_by_ranks(f);
    lemma_sum_by_ranks(g);
    assert forall|rank: int| 0 <= rank < 8 implies #[trigger] sum_rank(g, rank) == sum_rank(
        f,
        7 - rank,
    ) by {
        let b = 8 * rank;
        assert(flip(b) == 8 * (7 - rank));
        assert(flip(b + 1) == 8 * (7 - rank) + 1);
        assert(flip(b + 2) == 8 * (7 - rank) + 2);
        assert(flip(b + 3) == 8 * (7 - rank) + 3);
        assert(flip(b + 4) == 8 * (7 - rank) + 4);
        assert(flip(b + 5) == 8 * (7 - rank) + 5);
        assert(flip(b + 6) == 8 * (7 - rank) + 6);
        assert(flip(b + 7) == 8 * (7 - rank) + 7);
        assert(g(b) == f(flip(b)));
        assert(g(b + 1) == f(flip(b + 1)));
        assert(g(b + 2) == f(flip(b + 2)));
        assert(g(b + 3) == f(flip(b + 3)));
        assert(g(b + 4) == f(flip(b + 4)));
        assert(g(b + 5) == f(flip(b + 5)));
        assert(g(b + 6) == f(flip(b + 6)));
        assert(g(b + 7) == f(flip(b + 7)));
    }
    assert(sum_rank(g, 0) == sum_rank(f, 7));
    assert(sum_rank(g, 1) == sum_rank(f, 6));
    assert(sum_rank(g, 2) == sum_rank(f, 5));
    assert(sum_rank(g, 3) == sum_rank(f, 4));
    assert(sum_rank(g, 4) == sum_rank(f, 3));
    assert(sum_rank(g, 5) == sum_rank(f, 2));
    assert(sum_rank(g, 6) == sum_rank(f, 1));
    assert(sum_rank(g, 7) == sum_rank(f, 0));
}

/// The number of squares in a set is the sum of one for each of them.
pub proof fn lemma_count_is_sum(bb: u64, n: int)
    requires
        0 <= n <= 64,
    ensures
        count_below(bb, n) == sum_below(|sq: int| if on(bb, sq) { 1int } else { 0int }, n),
    decreases n,
{
    if n > 0 {
        lemma_count_is_sum(bb, n - 1);
    }
}

/// A set and its mirror image hold the same number of squares.
pub proof fn lemma_count_flip(a: u64, b: u64)
    requires
        forall|sq: int| 0 <= sq < 64 ==> on(b, sq) == on(a, flip(sq)),
    ensures
        count_below(b, 64) == count_below(a, 64),
{
    let f = |sq: int| if on(a, sq) { 1int } else { 0int };
    let g = |sq: int| if on(b, sq) { 1int } else { 0int };
    lemma_count_is_sum(a, 64);
    lemma_count_is_sum(b, 64);
    assert forall|sq: int| 0 <= sq < 64 implies #[trigger] g(sq) == f(flip(sq)) by {}
    lemma_sum_flip(f, g);
}

} // verus!
