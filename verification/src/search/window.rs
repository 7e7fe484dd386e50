//! The decisions of a search node that depend on nothing but numbers: what a
//! cache entry does to the window, how far a late move is reduced, how the
//! value of a child is taken in, and what kind of bound the result is.

use vstd::prelude::*;
use crate::board::Move;
use crate::evaluation::{Evaluation, MAX_SCORE};
use crate::search::search_defs::SearchOptions;
use crate::table::{TableEntry, TableEntryKind};

verus! {

/// What a probe of the cache does to a node.
#[derive(Debug, Clone, Copy)]
pub enum Probe {
    /// The node is settled with this value and move.
    Settled(Evaluation, Move),
    /// The search goes on within these bounds.
    Window(Evaluation, Evaluation),
}

/// What the entry `entry`, found for a node that is to be searched to
/// `depth`, does to the window from `alpha` to `beta`. An entry that was
/// searched less deep does nothing. An exact one settles the node. A lower
/// bound raises `alpha` and an upper bound lowers `beta`, and the node is
/// settled if they meet.
pub open spec fn probed(entry: Option<TableEntry>, depth: u8, alpha: int, beta: int) -> (
    bool,
    int,
    int,
) {
    match entry {
        Some(e) => if e.depth >= depth {
            let a = if e.kind == TableEntryKind::LowerBound && e.value.value() > alpha {
                e.value.value()
            } else {
                alpha
            };
            let b = if e.kind == TableEntryKind::UpperBound && e.value.value() < beta {
                e.value.value()
            } else {
                beta
            };
            (e.kind == TableEntryKind::Exact || a >= b, a, b)
        } else {
            (false, alpha, beta)
        },
        None => (false, alpha, beta),
    }
}

pub fn probe_window(entry: Option<TableEntry>, depth: u8, alpha: Evaluation, beta: Evaluation) -> (r:
    Probe)
    ensures
        match r {
            Probe::Settled(value, mv) => probed(entry, depth, alpha.value(), beta.value()).0
                && entry.is_some() && value == entry.unwrap().value && mv
                == entry.unwrap().best_move,
            Probe::Window(a, b) => !probed(entry, depth, alpha.value(), beta.value()).0
                && a.value() == probed(entry, depth, alpha.value(), beta.value()).1 && b.value()
                == probed(entry, depth, alpha.value(), beta.value()).2 && a.value() >= alpha.value()
                && b.value() <= beta.value() && (alpha.value() < beta.value() ==> a.value()
                < b.value()) && (a == alpha || (entry.is_some() && a == entry.unwrap().value))
                && (b == beta || (entry.is_some() && b == entry.unwrap().value)),
        },
{
    match entry {
        Some(e) => {
            if e.depth >= depth {
                let mut a = alpha;
                let mut b = beta;
                match e.kind {
                    TableEntryKind::Exact => {
                        return Probe::Settled(e.value, e.best_move);
                    },
                    TableEntryKind::LowerBound => {
                        if e.value.0 > a.0 {
                            a = e.value;
                        }
                    },
                    TableEntryKind::UpperBound => {
                        if e.value.0 < b.0 {
                            b = e.value;
                        }
                    },
                }
                if a.0 >= b.0 {
                    Probe::Settled(e.value, e.best_move)
                } else {
                    Probe::Window(a, b)
                }
            } else {
                Probe::Window(alpha, beta)
            }
        },
        None => Probe::Window(alpha, beta),
    }
}

/// Whether a move is searched less deep and with a narrow window first: it
/// comes late, deep enough in the tree, is quiet, and neither answers a
/// check nor gives one.
pub open spec fn is_reduced(
    options: SearchOptions,
    index: int,
    depth: u8,
    quiet: bool,
    in_check: bool,
    gives_check: bool,
) -> bool {
    index >= options.late_move_leeway && depth > 3 && quiet && !in_check && !gives_check
}

/// The depth at which a reduced move is searched first: the reduction less,
/// but one at least.
pub open spec fn reduced_depth(options: SearchOptions, depth: u8) -> int {
    if options.late_move_reduction < depth {
        depth - options.late_move_reduction
    } else {
        1
    }
}

/// The depth and the upper bound with which a move is searched first.
pub fn late_move_plan(
    options: &SearchOptions,
    index: usize,
    depth: u8,
    quiet: bool,
    in_check: bool,
    gives_check: bool,
    alpha: Evaluation,
    beta: Evaluation,
) -> (r: (u8, Evaluation))
    requires
        alpha.value() < beta.value(),
    ensures
        is_reduced(*options, index as int, depth, quiet, in_check, gives_check) ==> r.0
            == reduced_depth(*options, depth) && r.1.value() == alpha.value() + 1,
        !is_reduced(*options, index as int, depth, quiet, in_check, gives_check) ==> r.0 == depth
            && r.1 == beta,
        depth >= 1 ==> 1 <= r.0 <= depth,
        alpha.value() < r.1.value() <= beta.value(),
{
    if index >= options.late_move_leeway as usize && depth > 3 && quiet && !in_check
        && !gives_check {
        let reduced: u8 = if options.late_move_reduction < depth {
            depth - options.late_move_reduction
        } else {
            1
        };
        (reduced, Evaluation(alpha.0 + 1))
    } else {
        (depth, beta)
    }
}

/// Whether a move that was searched at `reduced` plies below `narrowed_beta`
/// is searched again in full: its value rose above `alpha`, and the first
/// search was less deep or narrower than the full one.
pub fn needs_full_search(
    child_value: Evaluation,
    alpha: Evaluation,
    reduced: u8,
    depth: u8,
    narrowed_beta: Evaluation,
    beta: Evaluation,
) -> (r: bool)
    ensures
        r == (child_value.value() > alpha.value() && (reduced < depth || narrowed_beta.value()
            < beta.value())),
{
    child_value.0 > alpha.0 && (reduced < depth || narrowed_beta.0 < beta.0)
}

/// The depth to which the reply to a null move is searched: the reduction
/// and one more less, but not below zero.
pub fn null_move_depth(depth: u8, reduction: u8) -> (r: u8)
    ensures
        r == if depth > reduction + 1 {
            depth - reduction - 1
        } else {
            0
        },
{
    if depth as u16 > reduction as u16 + 1 {
        depth - reduction - 1
    } else {
        0
    }
}

/// The kind of bound that `value` is for a node that was searched from
/// `entry_alpha` to `beta`.
pub open spec fn kind_of_bound(value: int, entry_alpha: int, beta: int) -> TableEntryKind {
    if value <= entry_alpha {
        TableEntryKind::UpperBound
    } else if value >= beta {
        TableEntryKind::LowerBound
    } else {
        TableEntryKind::Exact
    }
}

pub fn bound_kind(value: Evaluation, entry_alpha: Evaluation, beta: Evaluation) -> (r:
    TableEntryKind)
    ensures
        r == kind_of_bound(value.value(), entry_alpha.value(), beta.value()),
{
    if value.0 <= entry_alpha.0 {
        TableEntryKind::UpperBound
    } else if value.0 >= beta.0 {
        TableEntryKind::LowerBound
    } else {
        TableEntryKind::Exact
    }
}

/// Whether a score lies strictly between the lowest and the highest one: it
/// is no mate that is already on the board.
pub open spec fn inner(v: Evaluation) -> bool {
    -MAX_SCORE < v.value() < MAX_SCORE
}

/// The score `v` seen from the other side.
pub fn negate(v: Evaluation) -> (r: Evaluation)
    requires
        v.is_balanced(),
    ensures
        r.value() == -v.value(),
        r.is_balanced(),
        inner(r) == inner(v),
{
    Evaluation(-v.0)
}

/// What a node knows after some of its moves: the best value so far, the
/// move that gave it, and the lower bound of its window.
#[derive(Debug, Clone, Copy)]
pub struct Tally {
    pub value: Evaluation,
    pub best_move: Option<Move>,
    pub alpha: Evaluation,
}

/// The tally after a move of value `child_value`: the first move and every
/// better one become the best, and `alpha` rises to the best value.
pub open spec fn taken_in(tally: Tally, mv: Move, child_value: Evaluation) -> Tally {
    let better = child_value.value() > tally.value.value() || tally.best_move.is_none();
    let value = if better {
        child_value
    } else {
        tally.value
    };
    Tally {
        value,
        best_move: if better {
            Some(mv)
        } else {
            tally.best_move
        },
        alpha: if value.value() > tally.alpha.value() {
            value
        } else {
            tally.alpha
        },
    }
}

pub fn take_in(tally: Tally, mv: Move, child_value: Evaluation) -> (r: Tally)
    ensures
        r == taken_in(tally, mv, child_value),
        r.best_move.is_some(),
{
    let better: bool = child_value.0 > tally.value.0 || tally.best_move.is_none();
    let value = if better {
        child_value
    } else {
        tally.value
    };
    Tally {
        value,
        best_move: if better {
            Some(mv)
        } else {
            tally.best_move
        },
        alpha: if value.0 > tally.alpha.0 {
            value
        } else {
            tally.alpha
        },
    }
}

/// The tally of a node after the first `n` of its moves, whose values were
/// `values`.
pub open spec fn tallied(start: Tally, moves: Seq<Move>, values: Seq<Evaluation>, n: int) -> Tally
    decreases n,
{
    if n <= 0 {
        start
    } else {
        taken_in(tallied(start, moves, values, n - 1), moves[n - 1], values[n - 1])
    }
}

/// The tally after `n` moves does not depend on the moves that follow.
pub proof fn lemma_tallied_prefix(
    start: Tally,
    moves: Seq<Move>,
    values: Seq<Evaluation>,
    longer_moves: Seq<Move>,
    longer_values: Seq<Evaluation>,
    n: int,
)
    requires
        0 <= n <= moves.len() <= longer_moves.len(),
        n <= values.len() <= longer_values.len(),
        forall|i: int| 0 <= i < n ==> moves[i] == longer_moves[i] && values[i] == longer_values[i],
    ensures
        tallied(start, moves, values, n) == tallied(start, longer_moves, longer_values, n),
    decreases n,
{
    if n > 0 {
        lemma_tallied_prefix(start, moves, values, longer_moves, longer_values, n - 1);
    }
}

/// The value of a tally is at least the value of every move taken in.
pub proof fn lemma_tallied_at_least(
    start: Tally,
    moves: Seq<Move>,
    values: Seq<Evaluation>,
    n: int,
    i: int,
)
    requires
        0 <= i < n <= values.len(),
        n <= moves.len(),
    ensures
        tallied(start, moves, values, n).value.value() >= values[i].value(),
        tallied(start, moves, values, n).best_move.is_some(),
    decreases n,
{
    if i < n - 1 {
        lemma_tallied_at_least(start, moves, values, n - 1, i);
    }
}

/// The value of a tally that took a move in is the value of one of its moves.
pub proof fn lemma_tallied_is_found(start: Tally, moves: Seq<Move>, values: Seq<Evaluation>, n: int)
    requires
        1 <= n <= values.len(),
        n <= moves.len(),
        start.best_move.is_none(),
    ensures
        exists|i: int|
            0 <= i < n && tallied(start, moves, values, n).value == #[trigger] values[i] && tallied(
                start,
                moves,
                values,
                n,
            ).best_move == Some(moves[i]),
    decreases n,
{
    if n == 1 {
        assert(tallied(start, moves, values, 0) == start);
        assert(tallied(start, moves, values, 1).value == values[0]);
    } else {
        lemma_tallied_is_found(start, moves, values, n - 1);
        let before = tallied(start, moves, values, n - 1);
        let k = choose|i: int|
            0 <= i < n - 1 && before.value == #[trigger] values[i] && before.best_move == Some(
                moves[i],
            );
        if values[n - 1].value() > before.value.value() {
            assert(tallied(start, moves, values, n).value == values[n - 1]);
        } else {
            assert(tallied(start, moves, values, n).value == values[k]);
        }
    }
}

/// Whether a node that tried the moves `tried` in turn between `alpha` and
/// `beta` and found the values `found` for them went on as long as its lower
/// bound stayed below `beta`.
pub open spec fn went_on(
    alpha: Evaluation,
    beta: Evaluation,
    tried: Seq<Move>,
    found: Seq<Evaluation>,
) -> bool {
    &&& tried.len() == found.len()
    &&& forall|i: int| 0 <= i < found.len() ==> inner(#[trigger] found[i])
    &&& forall|i: int|
        1 <= i < tried.len() ==> (#[trigger] tallied(empty_tally(alpha), tried, found, i)).alpha.value()
            < beta.value()
}

/// The greatest of the first `n` of `values`.
pub open spec fn greatest(values: Seq<int>, n: int) -> int
    decreases n,
{
    if n <= 1 {
        values[0]
    } else if greatest(values, n - 1) >= values[n - 1] {
        greatest(values, n - 1)
    } else {
        values[n - 1]
    }
}

/// Whether the value `found` by a search between `alpha` and `beta` says of
/// the true value what such a search may say: at or below `alpha` it is an
/// upper bound, at or above `beta` a lower bound, and between them it is the
/// true value.
pub open spec fn sound(found: int, truth: int, alpha: int, beta: int) -> bool {
    &&& found <= alpha ==> truth <= found
    &&& found >= beta ==> truth >= found
    &&& alpha < found < beta ==> truth == found
}

/// The tally that a node starts with.
pub open spec fn empty_tally(alpha: Evaluation) -> Tally {
    Tally { value: Evaluation((-MAX_SCORE) as i32), best_move: None, alpha }
}

proof fn lemma_tally_sound(
    alpha: Evaluation,
    beta: int,
    moves: Seq<Move>,
    values: Seq<Evaluation>,
    truths: Seq<int>,
    n: int,
)
    requires
        1 <= n <= values.len(),
        values.len() == truths.len(),
        values.len() == moves.len(),
        alpha.value() < beta,
        forall|i: int| 0 <= i < n ==> (#[trigger] values[i]).is_balanced(),
        forall|i: int|
            1 <= i < n ==> (#[trigger] tallied(empty_tally(alpha), moves, values, i)).alpha.value()
                < beta,
        forall|i: int|
            0 <= i < n ==> sound(
                values[i].value(),
                #[trigger] truths[i],
                tallied(empty_tally(alpha), moves, values, i).alpha.value(),
                beta,
            ),
    ensures
        sound(
            tallied(empty_tally(alpha), moves, values, n).value.value(),
            greatest(truths, n),
            alpha.value(),
            beta,
        ),
        tallied(empty_tally(alpha), moves, values, n).best_move.is_some(),
        tallied(empty_tally(alpha), moves, values, n).alpha.value() == if tallied(
            empty_tally(alpha),
            moves,
            values,
            n,
        ).value.value() > alpha.value() {
            tallied(empty_tally(alpha), moves, values, n).value.value()
        } else {
            alpha.value()
        },
    decreases n,
{
    let start = empty_tally(alpha);
    if n == 1 {
        assert(tallied(start, moves, values, 0) == start);
        assert(sound(values[0].value(), truths[0], alpha.value(), beta));
    } else {
        lemma_tally_sound(alpha, beta, moves, values, truths, n - 1);
        let before = tallied(start, moves, values, n - 1);
        assert(before.alpha.value() < beta);
        assert(sound(values[n - 1].value(), truths[n - 1], before.alpha.value(), beta));
    }
}

/// One node of the search is sound if its children are. Let a node try its
/// moves in turn between `alpha` and `beta`, the first `n` of them before it
/// stops, and let the value found for each move say of the move's true value
/// what a search between the node's lower bound at that time and `beta` may
/// say. If the node stops early only on reaching `beta`, then its value says
/// of the greatest true value of all its moves what a search between `alpha`
/// and `beta` may say.
pub proof fn lemma_node_sound(
    alpha: Evaluation,
    beta: int,
    moves: Seq<Move>,
    values: Seq<Evaluation>,
    truths: Seq<int>,
    n: int,
)
    requires
        1 <= n <= values.len(),
        values.len() == truths.len(),
        values.len() == moves.len(),
        alpha.value() < beta,
        forall|i: int| 0 <= i < n ==> (#[trigger] values[i]).is_balanced(),
        forall|i: int|
            1 <= i < n ==> (#[trigger] tallied(empty_tally(alpha), moves, values, i)).alpha.value()
                < beta,
        forall|i: int|
            0 <= i < n ==> sound(
                values[i].value(),
                #[trigger] truths[i],
                tallied(empty_tally(alpha), moves, values, i).alpha.value(),
                beta,
            ),
        n == values.len() || tallied(empty_tally(alpha), moves, values, n).alpha.value() >= beta,
    ensures
        sound(
            tallied(empty_tally(alpha), moves, values, n).value.value(),
            greatest(truths, truths.len() as int),
            alpha.value(),
            beta,
        ),
{
    lemma_tally_sound(alpha, beta, moves, values, truths, n);
    lemma_greatest_grows(truths, n, truths.len() as int);
}

/// The greatest of more values is no less.
pub proof fn lemma_greatest_grows(values: Seq<int>, n: int, m: int)
    requires
        1 <= n <= m,
    ensures
        greatest(values, n) <= greatest(values, m),
    decreases m,
{
    if n < m {
        lemma_greatest_grows(values, n, m - 1);
    }
}

} // verus!