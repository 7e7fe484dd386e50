//! What the search is measured against: which nodes are settled before a
//! move is tried, what a node finds by trying its moves, and what follows
//! for mates and for nodes whose moves are all settled.

use vstd::prelude::*;
use crate::board::{legal_moves_of, position_after, Move, Snapshot};
use crate::evaluation::{mate_score, Evaluation, MAX_SCORE};
use crate::moves::{captures_among, see_of};
use crate::oracle::dead_draw;
use crate::standard::StandardEvaluator;
use crate::search::game_helpers::{is_draw_by_rule, next_clock, resets_clock};
use crate::search::search_defs::SearchOptions;
use crate::search::window::{
    empty_tally, inner, kind_of_bound, lemma_tallied_at_least, lemma_tallied_is_found, probed,
    tallied, went_on,
};
use crate::table::{probe, slot_index, Slot, TableEntry};

verus! {

/// Whether no value in the cache is a mate that is already on the board.
pub open spec fn inner_entries(slots: Seq<Slot>) -> bool {
    forall|i: int|
        0 <= i < slots.len() ==> match #[trigger] slots[i] {
            Some((_, entry)) => inner(entry.value),
            None => true,
        }
}

/// Whether `longer` begins with `shorter`.
pub open spec fn extends(longer: Seq<u64>, shorter: Seq<u64>) -> bool {
    longer.len() >= shorter.len() && forall|i: int|
        0 <= i < shorter.len() ==> #[trigger] longer[i] == shorter[i]
}

/// The value of a node that is settled before any move is tried: a draw by
/// rule below the root, a mate or a stalemate, or a dead draw below the root.
pub open spec fn settled_value(
    history: Seq<u64>,
    p: Snapshot,
    halfmove_clock: int,
    ply: int,
    root: bool,
) -> Option<int> {
    if !root && is_draw_by_rule(history, p.hash, halfmove_clock) {
        Some(0)
    } else if legal_moves_of(p).len() == 0 {
        Some(
            if p.checkers != 0 {
                -mate_score(ply)
            } else {
                0
            },
        )
    } else if !root && dead_draw(p) {
        Some(0)
    } else {
        None
    }
}

/// The position after the first `n` of `moves` were played from `p`.
pub open spec fn position_at(p: Snapshot, moves: Seq<Move>, n: int) -> Snapshot
    decreases n,
{
    if n <= 0 {
        p
    } else {
        position_after(position_at(p, moves, n - 1), moves[n - 1])
    }
}

/// Whether each of `moves` is legal where it is played, from `p` on.
pub open spec fn playable(p: Snapshot, moves: Seq<Move>) -> bool {
    forall|n: int|
        0 <= n < moves.len() ==> legal_moves_of(#[trigger] position_at(p, moves, n)).contains(
            moves[n],
        )
}

/// The hashes of the positions since the last move that reset the halfmove
/// clock, after the first `n` of `moves` were played from `p`.
pub open spec fn history_at(p: Snapshot, moves: Seq<Move>, n: int) -> Seq<u64>
    decreases n,
{
    if n <= 0 {
        seq![p.hash]
    } else {
        (if resets_clock(position_at(p, moves, n - 1), moves[n - 1]) {
            Seq::<u64>::empty()
        } else {
            history_at(p, moves, n - 1)
        }).push(position_at(p, moves, n).hash)
    }
}

/// The halfmove clock that goes with a history: the plies it spans, at most 255.
pub open spec fn clock_of(history: Seq<u64>) -> u8 {
    if history.len() > 255 {
        255u8
    } else {
        (history.len() - 1) as u8
    }
}

/// The value that settles the position after the move `mv` from `p`, if the
/// position is settled before any move is tried there.
pub open spec fn settled_child(
    history: Seq<u64>,
    p: Snapshot,
    halfmove_clock: int,
    ply: int,
    mv: Move,
) -> Option<int> {
    settled_value(
        history.push(position_after(p, mv).hash),
        position_after(p, mv),
        next_clock(resets_clock(p, mv), halfmove_clock),
        ply + 1,
        false,
    )
}

/// Whether the value found for each move that leads to a settled position
/// is that position's value, seen from the other side.
pub open spec fn settled_as_found(
    history: Seq<u64>,
    p: Snapshot,
    halfmove_clock: int,
    ply: int,
    tried: Seq<Move>,
    found: Seq<Evaluation>,
) -> bool {
    forall|i: int|
        0 <= i < tried.len() ==> match settled_child(history, p, halfmove_clock, ply, tried[i]) {
            Some(settled) => (#[trigger] found[i]).value() == -settled,
            None => true,
        }
}

/// Whether `value` and `mv` are what a node finds by trying its moves in
/// turn between `alpha` and `beta`: the tally of the values found for the
/// moves it tried, which are all its legal moves unless the value reached
/// `beta`.
pub open spec fn tally_outcome(
    history: Seq<u64>,
    p: Snapshot,
    halfmove_clock: int,
    ply: int,
    alpha: Evaluation,
    beta: Evaluation,
    value: Evaluation,
    mv: Option<Move>,
) -> bool {
    exists|tried: Seq<Move>, found: Seq<Evaluation>|
        {
            &&& tried.len() >= 1
            &&& #[trigger] went_on(alpha, beta, tried, found)
            &&& settled_as_found(history, p, halfmove_clock, ply, tried, found)
            &&& tallied(empty_tally(alpha), tried, found, tried.len() as int).value == value
            &&& tallied(empty_tally(alpha), tried, found, tried.len() as int).best_move == mv
            &&& tried.to_multiset().subset_of(legal_moves_of(p).to_multiset())
            &&& (tried.to_multiset() == legal_moves_of(p).to_multiset() || value.value()
                >= beta.value())
        }
}

/// Whether the cache holds no entry for the position that is deep enough to
/// be used at a node that is searched to `depth`.
pub open spec fn no_deep_entry(entry: Option<TableEntry>, p: Snapshot, depth: u8) -> bool {
    match entry {
        Some(e) => e.depth < extended(p, depth),
        None => true,
    }
}

/// Whether the move `mv` mates: it is legal, and after it the other side is
/// in check and has no legal move, in a position that is no draw by rule.
pub open spec fn mates(history: Seq<u64>, p: Snapshot, halfmove_clock: int, mv: Move) -> bool {
    &&& legal_moves_of(p).contains(mv)
    &&& legal_moves_of(position_after(p, mv)).len() == 0
    &&& position_after(p, mv).checkers != 0
    &&& !is_draw_by_rule(
        history.push(position_after(p, mv).hash),
        position_after(p, mv).hash,
        next_clock(resets_clock(p, mv), halfmove_clock),
    )
}

/// A mate in one is found. If a node tries its moves between the lowest and
/// the highest score and one of them mates, the value of the node is that of
/// a mate in one ply more than the node is below the root.
pub proof fn lemma_mate_in_one_is_found(
    history: Seq<u64>,
    p: Snapshot,
    halfmove_clock: int,
    ply: int,
    value: Evaluation,
    mv: Option<Move>,
    mate: Move,
)
    requires
        0 <= ply < 255,
        tally_outcome(
            history,
            p,
            halfmove_clock,
            ply,
            Evaluation((-MAX_SCORE) as i32),
            Evaluation(MAX_SCORE),
            value,
            mv,
        ),
        inner(value),
        mates(history, p, halfmove_clock, mate),
    ensures
        value.value() >= mate_score(ply + 1),
        ply == 0 ==> value.value() == mate_score(1),
{
    broadcast use vstd::multiset::group_multiset_axioms;

    let alpha = Evaluation((-MAX_SCORE) as i32);
    let beta = Evaluation(MAX_SCORE);
    let (tried, found) = choose|tried: Seq<Move>, found: Seq<Evaluation>|
        {
            &&& tried.len() >= 1
            &&& #[trigger] went_on(alpha, beta, tried, found)
            &&& settled_as_found(history, p, halfmove_clock, ply, tried, found)
            &&& tallied(empty_tally(alpha), tried, found, tried.len() as int).value == value
            &&& tallied(empty_tally(alpha), tried, found, tried.len() as int).best_move == mv
            &&& tried.to_multiset().subset_of(legal_moves_of(p).to_multiset())
            &&& (tried.to_multiset() == legal_moves_of(p).to_multiset() || value.value()
                >= beta.value())
        };
    legal_moves_of(p).to_multiset_ensures();
    tried.to_multiset_ensures();
    assert(tried.to_multiset().count(mate) > 0);
    assert(tried.contains(mate));
    let i = choose|i: int| 0 <= i < tried.len() && tried[i] == mate;
    assert(settled_child(history, p, halfmove_clock, ply, tried[i]) == Some(-mate_score(ply + 1)));
    assert(found[i].value() == mate_score(ply + 1));
    lemma_tallied_at_least(
        empty_tally(alpha),
        tried,
        found,
        tried.len() as int,
        i,
    );
}

/// Settled moves decide. If a node tries its moves between the lowest and
/// the highest score and each of them leads to a position that is settled
/// before any move is tried there, then the value of the node is that of its
/// best move: the value of the position after it, seen from the other side,
/// which no other move exceeds.
pub proof fn lemma_settled_moves_decide(
    history: Seq<u64>,
    p: Snapshot,
    halfmove_clock: int,
    ply: int,
    value: Evaluation,
    mv: Option<Move>,
)
    requires
        tally_outcome(
            history,
            p,
            halfmove_clock,
            ply,
            Evaluation((-MAX_SCORE) as i32),
            Evaluation(MAX_SCORE),
            value,
            mv,
        ),
        inner(value),
        forall|m: Move|
            legal_moves_of(p).contains(m) ==> (#[trigger] settled_child(
                history,
                p,
                halfmove_clock,
                ply,
                m,
            )).is_some(),
    ensures
        mv.is_some(),
        legal_moves_of(p).contains(mv.unwrap()),
        value.value() == -settled_child(history, p, halfmove_clock, ply, mv.unwrap()).unwrap(),
        forall|m: Move|
            legal_moves_of(p).contains(m) ==> value.value() >= -(#[trigger] settled_child(
                history,
                p,
                halfmove_clock,
                ply,
                m,
            )).unwrap(),
{
    broadcast use vstd::multiset::group_multiset_axioms;

    let alpha = Evaluation((-MAX_SCORE) as i32);
    let beta = Evaluation(MAX_SCORE);
    let (tried, found) = choose|tried: Seq<Move>, found: Seq<Evaluation>|
        {
            &&& tried.len() >= 1
            &&& #[trigger] went_on(alpha, beta, tried, found)
            &&& settled_as_found(history, p, halfmove_clock, ply, tried, found)
            &&& tallied(empty_tally(alpha), tried, found, tried.len() as int).value == value
            &&& tallied(empty_tally(alpha), tried, found, tried.len() as int).best_move == mv
            &&& tried.to_multiset().subset_of(legal_moves_of(p).to_multiset())
            &&& (tried.to_multiset() == legal_moves_of(p).to_multiset() || value.value()
                >= beta.value())
        };
    legal_moves_of(p).to_multiset_ensures();
    tried.to_multiset_ensures();
    lemma_tallied_is_found(
        empty_tally(alpha),
        tried,
        found,
        tried.len() as int,
    );
    let k = choose|i: int|
        0 <= i < tried.len() && tallied(empty_tally(alpha), tried, found, tried.len() as int).value
            == #[trigger] found[i] && tallied(
            empty_tally(alpha),
            tried,
            found,
            tried.len() as int,
        ).best_move == Some(tried[i]);
    assert(tried.contains(tried[k]));
    assert(legal_moves_of(p).to_multiset().count(tried[k]) > 0);
    assert(legal_moves_of(p).contains(tried[k]));
    assert(settled_child(history, p, halfmove_clock, ply, tried[k]).is_some());
    assert forall|m: Move| legal_moves_of(p).contains(m) implies value.value() >= -(
    #[trigger] settled_child(history, p, halfmove_clock, ply, m)).unwrap() by {
        assert(tried.to_multiset().count(m) > 0);
        assert(tried.contains(m));
        let i = choose|i: int| 0 <= i < tried.len() && tried[i] == m;
        assert(settled_child(history, p, halfmove_clock, ply, tried[i]).is_some());
        lemma_tallied_at_least(
            empty_tally(alpha),
            tried,
            found,
            tried.len() as int,
            i,
        );
    }
}

/// The count of nodes after one more node. The count stops at the greatest
/// number that it can hold.
pub open spec fn one_more(nodes: u32) -> u32 {
    if nodes == u32::MAX {
        u32::MAX
    } else {
        (nodes + 1) as u32
    }
}

/// Whether a node below the root that finds the count at `nodes` asks the
/// host if time is up: once in 4096 nodes, and at every node once the count
/// has stopped.
pub open spec fn polls(nodes: u32) -> bool {
    nodes % 4096 == 0 || nodes == u32::MAX
}

/// The entry that a cache with the slots `cache` holds under `hash`.
pub open spec fn entry_in(cache: Seq<Slot>, mask: usize, hash: u64) -> Option<TableEntry> {
    probe(cache[slot_index(hash, mask)], hash)
}

/// The value of a position that the quiescence search settles whatever its
/// window is: a draw by rule, or a mate or stalemate of which the cache
/// holds nothing.
pub open spec fn quiet_settled(
    cache: Seq<Slot>,
    mask: usize,
    history: Seq<u64>,
    p: Snapshot,
    halfmove_clock: int,
    ply: int,
) -> Option<int> {
    if is_draw_by_rule(history, p.hash, halfmove_clock) {
        Some(0)
    } else if entry_in(cache, mask, p.hash).is_none() && legal_moves_of(p).len() == 0 {
        Some(
            if p.checkers != 0 {
                -mate_score(ply)
            } else {
                0
            },
        )
    } else {
        None
    }
}

/// The same for the position after the move `mv` from `p`.
pub open spec fn quiet_child(
    cache: Seq<Slot>,
    mask: usize,
    history: Seq<u64>,
    p: Snapshot,
    halfmove_clock: int,
    ply: int,
    mv: Move,
) -> Option<int> {
    quiet_settled(
        cache,
        mask,
        history.push(position_after(p, mv).hash),
        position_after(p, mv),
        next_clock(resets_clock(p, mv), halfmove_clock),
        ply + 1,
    )
}

/// The greatest of `stand` and the first `n` of `found`.
pub open spec fn raised(stand: int, found: Seq<Evaluation>, n: int) -> int
    decreases n,
{
    if n <= 0 {
        stand
    } else if found[n - 1].value() > raised(stand, found, n - 1) {
        found[n - 1].value()
    } else {
        raised(stand, found, n - 1)
    }
}

/// The greatest of the first `n` values does not depend on those that follow.
pub proof fn lemma_raised_prefix(stand: int, found: Seq<Evaluation>, longer: Seq<Evaluation>, n: int)
    requires
        0 <= n <= found.len() <= longer.len(),
        forall|i: int| 0 <= i < found.len() ==> found[i] == longer[i],
    ensures
        raised(stand, found, n) == raised(stand, longer, n),
    decreases n,
{
    if n > 0 {
        lemma_raised_prefix(stand, found, longer, n - 1);
    }
}

/// The lower bound of a quiescence node after the first `n` values: the
/// greatest of the bound it began with, the static score and those values.
pub open spec fn floor(alpha: int, stand: int, found: Seq<Evaluation>, n: int) -> int {
    if raised(stand, found, n) > alpha {
        raised(stand, found, n)
    } else {
        alpha
    }
}

/// The score `v` seen from the other side.
pub open spec fn turned(v: Evaluation) -> Evaluation {
    Evaluation((-v.value()) as i32)
}

/// Whether the captures `tried`, for which the values `found` were found,
/// are a run of the quiescence search at `p` below `beta`: captures of the
/// position in falling exchange value, each tried while the value stayed
/// below `beta`, and each that leads to a settled position found at that
/// position's value, seen from the other side.
pub open spec fn quiet_run(
    cache: Seq<Slot>,
    mask: usize,
    ev: StandardEvaluator,
    history: Seq<u64>,
    p: Snapshot,
    halfmove_clock: int,
    ply: int,
    beta: int,
    tried: Seq<Move>,
    found: Seq<Evaluation>,
) -> bool {
    &&& tried.len() == found.len()
    &&& forall|i: int| 0 <= i < found.len() ==> inner(#[trigger] found[i])
    &&& forall|i: int|
        0 <= i < found.len() ==> #[trigger] raised(ev.static_score(p), found, i) < beta
    &&& forall|i: int, j: int|
        0 <= i <= j < tried.len() ==> see_of(ev, p, #[trigger] tried[i]) >= see_of(
            ev,
            p,
            #[trigger] tried[j],
        )
    &&& tried.to_multiset().subset_of(captures_among(p, legal_moves_of(p)).to_multiset())
    &&& forall|i: int|
        0 <= i < tried.len() ==> match quiet_child(
            cache,
            mask,
            history,
            p,
            halfmove_clock,
            ply,
            tried[i],
        ) {
            Some(settled) => (#[trigger] found[i]).value() == -settled,
            None => true,
        }
}

/// The first captures of a list are among the captures of the list.
pub proof fn lemma_take_is_among(all: Seq<Move>, n: int)
    requires
        0 <= n <= all.len(),
    ensures
        all.take(n).to_multiset().subset_of(all.to_multiset()),
{
    broadcast use vstd::multiset::group_multiset_axioms;

    assert(all =~= all.take(n) + all.skip(n));
    vstd::seq_lib::lemma_multiset_commutative(all.take(n), all.skip(n));
}

/// A run goes on by one capture: if the first `n` captures of the list
/// `all`, which holds the captures of the position in falling exchange
/// value, are a run with the values `found`, and the value stayed below
/// `beta`, then the first `n + 1` are a run with one more value, provided
/// that this value is the settled one if the capture leads to a settled
/// position.
pub proof fn lemma_quiet_step(
    cache: Seq<Slot>,
    mask: usize,
    ev: StandardEvaluator,
    history: Seq<u64>,
    p: Snapshot,
    halfmove_clock: int,
    ply: int,
    beta: int,
    all: Seq<Move>,
    found: Seq<Evaluation>,
    next: Evaluation,
    n: int,
)
    requires
        0 <= n < all.len(),
        found.len() == n,
        quiet_run(cache, mask, ev, history, p, halfmove_clock, ply, beta, all.take(n), found),
        raised(ev.static_score(p), found, n) < beta,
        inner(next),
        all.to_multiset() == captures_among(p, legal_moves_of(p)).to_multiset(),
        forall|j: int, k: int|
            0 <= j <= k < all.len() ==> see_of(ev, p, #[trigger] all[j]) >= see_of(
                ev,
                p,
                #[trigger] all[k],
            ),
        match quiet_child(cache, mask, history, p, halfmove_clock, ply, all[n]) {
            Some(settled) => next.value() == -settled,
            None => true,
        },
    ensures
        quiet_run(
            cache,
            mask,
            ev,
            history,
            p,
            halfmove_clock,
            ply,
            beta,
            all.take(n + 1),
            found.push(next),
        ),
        raised(ev.static_score(p), found.push(next), n + 1) == if next.value() > raised(
            ev.static_score(p),
            found,
            n,
        ) {
            next.value()
        } else {
            raised(ev.static_score(p), found, n)
        },
{
    let tried = all.take(n + 1);
    let longer = found.push(next);
    let stand = ev.static_score(p);
    lemma_take_is_among(all, n + 1);
    lemma_raised_prefix(stand, found, longer, n);
    assert forall|i: int| 0 <= i < longer.len() implies inner(#[trigger] longer[i]) by {
        if i < n {
            assert(longer[i] == found[i]);
        }
    }
    assert forall|i: int| 0 <= i < longer.len() implies #[trigger] raised(stand, longer, i)
        < beta by {
        lemma_raised_prefix(stand, found, longer, i);
    }
    assert forall|j: int, k: int| 0 <= j <= k < tried.len() implies see_of(
        ev,
        p,
        #[trigger] tried[j],
    ) >= see_of(ev, p, #[trigger] tried[k]) by {
        assert(tried[j] == all[j] && tried[k] == all[k]);
    }
    assert forall|i: int| 0 <= i < tried.len() implies match quiet_child(
        cache,
        mask,
        history,
        p,
        halfmove_clock,
        ply,
        tried[i],
    ) {
        Some(settled) => (#[trigger] longer[i]).value() == -settled,
        None => true,
    } by {
        if i < n {
            assert(longer[i] == found[i]);
            assert(tried[i] == all.take(n)[i]);
        } else {
            assert(tried[i] == all[n]);
        }
    }
}

/// A run whose last value reached `beta` is a run all the same.
pub proof fn lemma_quiet_cut(
    cache: Seq<Slot>,
    mask: usize,
    ev: StandardEvaluator,
    history: Seq<u64>,
    p: Snapshot,
    halfmove_clock: int,
    ply: int,
    alpha: int,
    beta: int,
    tried: Seq<Move>,
    found: Seq<Evaluation>,
)
    requires
        quiet_run(cache, mask, ev, history, p, halfmove_clock, ply, beta, tried, found),
        quiet_replies(
            cache,
            mask,
            ev,
            history,
            p,
            halfmove_clock,
            ply,
            alpha,
            beta,
            tried,
            found,
        ),
        raised(ev.static_score(p), found, found.len() as int) >= beta,
    ensures
        quiet_outcome(
            cache,
            mask,
            ev,
            history,
            p,
            halfmove_clock,
            ply,
            alpha,
            beta,
            raised(ev.static_score(p), found, found.len() as int),
        ),
{
}

/// Whether each of the values `found` is what the quiescence search finds
/// for the position after the capture it belongs to, seen from the other
/// side, between the bounds that the node had when it tried the capture.
pub open spec fn quiet_replies(
    cache: Seq<Slot>,
    mask: usize,
    ev: StandardEvaluator,
    history: Seq<u64>,
    p: Snapshot,
    halfmove_clock: int,
    ply: int,
    alpha: int,
    beta: int,
    tried: Seq<Move>,
    found: Seq<Evaluation>,
) -> bool {
    forall|i: int|
        #![trigger found[i]]
        0 <= i < tried.len() ==> quiet_result(
            cache,
            mask,
            ev,
            history.push(position_after(p, tried[i]).hash),
            position_after(p, tried[i]),
            next_clock(resets_clock(p, tried[i]), halfmove_clock),
            ply + 1,
            -beta,
            -floor(alpha, ev.static_score(p), found, i),
            turned(found[i]),
        )
}

/// Whether `value` is what the quiescence search finds at `p` between
/// `alpha` and `beta` by trying captures: the greatest of the static score
/// and the values found for the captures it tried, which are all captures of
/// the position unless the value reached `beta`, each found by the
/// quiescence search of the position after it.
pub open spec fn quiet_outcome(
    cache: Seq<Slot>,
    mask: usize,
    ev: StandardEvaluator,
    history: Seq<u64>,
    p: Snapshot,
    halfmove_clock: int,
    ply: int,
    alpha: int,
    beta: int,
    value: int,
) -> bool {
    exists|tried: Seq<Move>, found: Seq<Evaluation>|
        {
            &&& #[trigger] quiet_run(
                cache,
                mask,
                ev,
                history,
                p,
                halfmove_clock,
                ply,
                beta,
                tried,
                found,
            )
            &&& quiet_replies(
                cache,
                mask,
                ev,
                history,
                p,
                halfmove_clock,
                ply,
                alpha,
                beta,
                tried,
                found,
            )
            &&& value == raised(ev.static_score(p), found, found.len() as int)
            &&& (tried.to_multiset() == captures_among(p, legal_moves_of(p)).to_multiset()
                || value >= beta)
        }
}

/// Whether the quiescence search tries no capture at `p`: the position is
/// drawn by rule, settled by the cache, without a legal move, as good as the
/// upper bound that the cache leaves as it stands, or 255 plies below the root.
pub open spec fn quiet_leaf(
    cache: Seq<Slot>,
    mask: usize,
    ev: StandardEvaluator,
    history: Seq<u64>,
    p: Snapshot,
    halfmove_clock: int,
    ply: int,
    alpha: int,
    beta: int,
) -> bool {
    ||| is_draw_by_rule(history, p.hash, halfmove_clock)
    ||| probed(entry_in(cache, mask, p.hash), 0, alpha, beta).0
    ||| legal_moves_of(p).len() == 0
    ||| ev.static_score(p) >= probed(entry_in(cache, mask, p.hash), 0, alpha, beta).2
    ||| ply >= 255
}

/// Whether `value` is what the quiescence search finds at `p` between
/// `alpha` and `beta`. A position drawn by rule is worth nothing. Else an
/// entry of the cache, however shallow, settles the position if it is exact
/// or brings the bounds together, and narrows the window if not. Else a
/// position without a legal move is a mate or a stalemate. Else the static
/// score stands where it reaches the upper bound, and 255 plies below the
/// root. Else the captures are tried as `quiet_outcome` says, which
/// `lemma_quiet_result` states in those words.
#[verifier::opaque]
pub open spec fn quiet_result(
    cache: Seq<Slot>,
    mask: usize,
    ev: StandardEvaluator,
    history: Seq<u64>,
    p: Snapshot,
    halfmove_clock: int,
    ply: int,
    alpha: int,
    beta: int,
    value: Evaluation,
) -> bool
    decreases 255 - ply,
{
    let entry = entry_in(cache, mask, p.hash);
    let low = probed(entry, 0, alpha, beta).1;
    let high = probed(entry, 0, alpha, beta).2;
    if is_draw_by_rule(history, p.hash, halfmove_clock) {
        value.value() == 0
    } else if probed(entry, 0, alpha, beta).0 {
        entry.is_some() && value == entry.unwrap().value
    } else if legal_moves_of(p).len() == 0 {
        value.value() == if p.checkers != 0 {
            -mate_score(ply)
        } else {
            0
        }
    } else if ev.static_score(p) >= high || ply >= 255 {
        value.value() == ev.static_score(p)
    } else {
        exists|tried: Seq<Move>, found: Seq<Evaluation>|
            {
                &&& #[trigger] quiet_run(
                    cache,
                    mask,
                    ev,
                    history,
                    p,
                    halfmove_clock,
                    ply,
                    high,
                    tried,
                    found,
                )
                &&& forall|i: int|
                    #![trigger found[i]]
                    0 <= i < tried.len() ==> quiet_result(
                        cache,
                        mask,
                        ev,
                        history.push(position_after(p, tried[i]).hash),
                        position_after(p, tried[i]),
                        next_clock(resets_clock(p, tried[i]), halfmove_clock),
                        ply + 1,
                        -high,
                        -floor(low, ev.static_score(p), found, i),
                        turned(found[i]),
                    )
                &&& value.value() == raised(ev.static_score(p), found, found.len() as int)
                &&& (tried.to_multiset() == captures_among(p, legal_moves_of(p)).to_multiset()
                    || value.value() >= high)
            }
    }
}

/// What `quiet_result` says, in the words of `quiet_outcome`.
pub open spec fn rested_value(
    cache: Seq<Slot>,
    mask: usize,
    ev: StandardEvaluator,
    history: Seq<u64>,
    p: Snapshot,
    halfmove_clock: int,
    ply: int,
    alpha: int,
    beta: int,
    value: Evaluation,
) -> bool {
    let entry = entry_in(cache, mask, p.hash);
    if is_draw_by_rule(history, p.hash, halfmove_clock) {
        value.value() == 0
    } else if probed(entry, 0, alpha, beta).0 {
        entry.is_some() && value == entry.unwrap().value
    } else if legal_moves_of(p).len() == 0 {
        value.value() == if p.checkers != 0 {
            -mate_score(ply)
        } else {
            0
        }
    } else if ev.static_score(p) >= probed(entry, 0, alpha, beta).2 || ply >= 255 {
        value.value() == ev.static_score(p)
    } else {
        quiet_outcome(
            cache,
            mask,
            ev,
            history,
            p,
            halfmove_clock,
            ply,
            probed(entry, 0, alpha, beta).1,
            probed(entry, 0, alpha, beta).2,
            value.value(),
        )
    }
}

/// `quiet_result` says what `rested_value` says.
pub proof fn lemma_quiet_result(
    cache: Seq<Slot>,
    mask: usize,
    ev: StandardEvaluator,
    history: Seq<u64>,
    p: Snapshot,
    halfmove_clock: int,
    ply: int,
    alpha: int,
    beta: int,
    value: Evaluation,
)
    ensures
        quiet_result(cache, mask, ev, history, p, halfmove_clock, ply, alpha, beta, value)
            == rested_value(cache, mask, ev, history, p, halfmove_clock, ply, alpha, beta, value),
{
    reveal(quiet_result);
}

/// The value found for a capture that leads to a settled position is that
/// position's value, seen from the other side.
pub proof fn lemma_settled_reply(
    cache: Seq<Slot>,
    mask: usize,
    ev: StandardEvaluator,
    history: Seq<u64>,
    p: Snapshot,
    halfmove_clock: int,
    ply: int,
    mv: Move,
    alpha: int,
    beta: int,
    found: Evaluation,
)
    requires
        inner(found),
        quiet_result(
            cache,
            mask,
            ev,
            history.push(position_after(p, mv).hash),
            position_after(p, mv),
            next_clock(resets_clock(p, mv), halfmove_clock),
            ply + 1,
            alpha,
            beta,
            turned(found),
        ),
    ensures
        match quiet_child(cache, mask, history, p, halfmove_clock, ply, mv) {
            Some(settled) => found.value() == -settled,
            None => true,
        },
{
    reveal(quiet_result);
}

/// The replies to a run go on by one capture.
pub proof fn lemma_reply_step(
    cache: Seq<Slot>,
    mask: usize,
    ev: StandardEvaluator,
    history: Seq<u64>,
    p: Snapshot,
    halfmove_clock: int,
    ply: int,
    alpha: int,
    beta: int,
    all: Seq<Move>,
    found: Seq<Evaluation>,
    next: Evaluation,
    n: int,
)
    requires
        0 <= n < all.len(),
        found.len() == n,
        quiet_replies(
            cache,
            mask,
            ev,
            history,
            p,
            halfmove_clock,
            ply,
            alpha,
            beta,
            all.take(n),
            found,
        ),
        quiet_result(
            cache,
            mask,
            ev,
            history.push(position_after(p, all[n]).hash),
            position_after(p, all[n]),
            next_clock(resets_clock(p, all[n]), halfmove_clock),
            ply + 1,
            -beta,
            -floor(alpha, ev.static_score(p), found, n),
            turned(next),
        ),
    ensures
        quiet_replies(
            cache,
            mask,
            ev,
            history,
            p,
            halfmove_clock,
            ply,
            alpha,
            beta,
            all.take(n + 1),
            found.push(next),
        ),
{
    let tried = all.take(n + 1);
    let longer = found.push(next);
    let stand = ev.static_score(p);
    assert forall|i: int|
        #![trigger longer[i]]
        0 <= i < tried.len() implies quiet_result(
        cache,
        mask,
        ev,
        history.push(position_after(p, tried[i]).hash),
        position_after(p, tried[i]),
        next_clock(resets_clock(p, tried[i]), halfmove_clock),
        ply + 1,
        -beta,
        -floor(alpha, stand, longer, i),
        turned(longer[i]),
    ) by {
        lemma_raised_prefix(stand, found, longer, i);
        if i < n {
            assert(longer[i] == found[i]);
            assert(tried[i] == all.take(n)[i]);
        } else {
            assert(tried[i] == all[n]);
        }
    }
}

/// Where no legal move lands on an occupied square, the quiescence search
/// that tries captures finds the static score.
pub proof fn lemma_no_capture_stands_pat(
    cache: Seq<Slot>,
    mask: usize,
    ev: StandardEvaluator,
    history: Seq<u64>,
    p: Snapshot,
    halfmove_clock: int,
    ply: int,
    alpha: int,
    beta: int,
    value: int,
)
    requires
        quiet_outcome(cache, mask, ev, history, p, halfmove_clock, ply, alpha, beta, value),
        captures_among(p, legal_moves_of(p)).len() == 0,
    ensures
        value == ev.static_score(p),
{
    broadcast use vstd::multiset::group_multiset_axioms;

    let (tried, found) = choose|tried: Seq<Move>, found: Seq<Evaluation>|
        {
            &&& #[trigger] quiet_run(
                cache,
                mask,
                ev,
                history,
                p,
                halfmove_clock,
                ply,
                beta,
                tried,
                found,
            )
            &&& quiet_replies(
                cache,
                mask,
                ev,
                history,
                p,
                halfmove_clock,
                ply,
                alpha,
                beta,
                tried,
                found,
            )
            &&& value == raised(ev.static_score(p), found, found.len() as int)
            &&& (tried.to_multiset() == captures_among(p, legal_moves_of(p)).to_multiset()
                || value >= beta)
        };
    captures_among(p, legal_moves_of(p)).to_multiset_ensures();
    tried.to_multiset_ensures();
    if tried.len() > 0 {
        assert(tried.contains(tried[0]));
        assert(tried.to_multiset().count(tried[0]) > 0);
        assert(captures_among(p, legal_moves_of(p)).to_multiset().count(tried[0]) > 0);
        assert(captures_among(p, legal_moves_of(p)).contains(tried[0]));
    }
}

/// The depth to which a node is searched: one more than asked for where the
/// side to move is in check (the depth stops at 255).
pub open spec fn extended(p: Snapshot, depth: u8) -> u8 {
    if p.checkers != 0 && depth < 255 {
        (depth + 1) as u8
    } else {
        depth
    }
}

/// The entry of the cache that a node may use: any entry below the root, and
/// at the root, which hands the move of the entry out, one whose move is legal.
pub open spec fn usable(entry: Option<TableEntry>, p: Snapshot, root: bool) -> Option<TableEntry> {
    match entry {
        Some(e) => if root && !legal_moves_of(p).contains(e.best_move) {
            None
        } else {
            entry
        },
        None => None,
    }
}

/// The window that the entry `entry` leaves of the window from `alpha` to
/// `beta` at a node that is searched to `depth`.
pub open spec fn narrowed(
    entry: Option<TableEntry>,
    depth: u8,
    alpha: Evaluation,
    beta: Evaluation,
) -> (Evaluation, Evaluation) {
    (
        Evaluation(probed(entry, depth, alpha.value(), beta.value()).1 as i32),
        Evaluation(probed(entry, depth, alpha.value(), beta.value()).2 as i32),
    )
}

/// Whether the side to move may pass for a null move search: null move
/// pruning is on, the side is not in check, and it has a rook, a bishop or a
/// queen.
pub open spec fn may_pass(p: Snapshot, options: SearchOptions) -> bool {
    options.null_move_pruning && p.checkers == 0 && (p.colors[p.side_to_move.spec_index() as int]
        & (p.pieces[3] | p.pieces[2] | p.pieces[4])) != 0
}

/// Whether a node that is not settled is handed to the quiescence search:
/// no depth is left, or it is 255 plies below the root.
pub open spec fn node_quiet(p: Snapshot, depth: u8, ply: int) -> bool {
    extended(p, depth) == 0 || ply >= 255
}

/// Whether what the cache holds for a position is what a node stored there.
pub open spec fn stored_as(
    held: Option<TableEntry>,
    value: Evaluation,
    entry_alpha: Evaluation,
    beta: Evaluation,
    depth: u8,
    mv: Move,
) -> bool {
    match held {
        Some(entry) => entry == (TableEntry {
            kind: kind_of_bound(value.value(), entry_alpha.value(), beta.value()),
            value,
            depth,
            best_move: mv,
        }),
        None => true,
    }
}

/// Whether an entry of the cache that the node may use settles a node that
/// its position does not settle.
pub open spec fn cache_settles(
    entry: Option<TableEntry>,
    p: Snapshot,
    depth: u8,
    alpha: Evaluation,
    beta: Evaluation,
    root: bool,
) -> bool {
    probed(usable(entry, p, root), extended(p, depth), alpha.value(), beta.value()).0
}

/// Whether `value` and `mv` are what the search finds at a node that its
/// position does not settle, and `held` what the cache holds for the
/// position afterwards.
///
/// An entry of the cache that is deep enough settles the node with its value
/// and move, if it is exact or brings the bounds together, and narrows the
/// window if not. Else a node without depth is worth what the quiescence
/// search finds. Else the value is that of a null move search that reached
/// the upper bound, or the tally of the moves; the tally is stored in the
/// cache with the depth, the move and the kind of bound that it is for the
/// bounds of the node.
pub open spec fn open_result(
    cache: Seq<Slot>,
    mask: usize,
    ev: StandardEvaluator,
    options: SearchOptions,
    history: Seq<u64>,
    p: Snapshot,
    halfmove_clock: int,
    depth: u8,
    ply: int,
    alpha: Evaluation,
    beta: Evaluation,
    root: bool,
    value: Evaluation,
    mv: Option<Move>,
    held: Option<TableEntry>,
) -> bool {
    let entry = usable(entry_in(cache, mask, p.hash), p, root);
    let window = narrowed(entry, extended(p, depth), alpha, beta);
    if cache_settles(entry_in(cache, mask, p.hash), p, depth, alpha, beta, root) {
        entry.is_some() && value == entry.unwrap().value && mv == Some(entry.unwrap().best_move)
    } else if node_quiet(p, depth, ply) {
        mv.is_none() && quiet_result(
            cache,
            mask,
            ev,
            history,
            p,
            halfmove_clock,
            ply,
            window.0.value(),
            window.1.value(),
            value,
        )
    } else if mv.is_none() {
        may_pass(p, options) && inner(value) && value.value() >= window.1.value()
    } else {
        &&& legal_moves_of(p).contains(mv.unwrap())
        &&& tally_outcome(history, p, halfmove_clock, ply, window.0, window.1, value, mv)
        &&& stored_as(held, value, alpha, window.1, extended(p, depth), mv.unwrap())
    }
}

/// Whether a node that its position does not settle is done without a
/// search below it: the cache settles it, or it is handed to the quiescence
/// search and that tries no capture.
pub open spec fn open_leaf(
    cache: Seq<Slot>,
    mask: usize,
    ev: StandardEvaluator,
    history: Seq<u64>,
    p: Snapshot,
    halfmove_clock: int,
    depth: u8,
    ply: int,
    alpha: Evaluation,
    beta: Evaluation,
    root: bool,
) -> bool {
    let entry = usable(entry_in(cache, mask, p.hash), p, root);
    let window = narrowed(entry, extended(p, depth), alpha, beta);
    cache_settles(entry_in(cache, mask, p.hash), p, depth, alpha, beta, root) || (node_quiet(
        p,
        depth,
        ply,
    ) && quiet_leaf(
        cache,
        mask,
        ev,
        history,
        p,
        halfmove_clock,
        ply,
        window.0.value(),
        window.1.value(),
    ))
}

/// Whether `value` and `mv` are what the search finds at a node, and `held`
/// what the cache holds for the position afterwards: a settled position has
/// its value and no move, and every other has what `open_result` says.
pub open spec fn node_result(
    cache: Seq<Slot>,
    mask: usize,
    ev: StandardEvaluator,
    options: SearchOptions,
    history: Seq<u64>,
    p: Snapshot,
    halfmove_clock: int,
    depth: u8,
    ply: int,
    alpha: Evaluation,
    beta: Evaluation,
    root: bool,
    value: Evaluation,
    mv: Option<Move>,
    held: Option<TableEntry>,
) -> bool {
    match settled_value(history, p, halfmove_clock, ply, root) {
        Some(settled) => value.value() == settled && mv.is_none(),
        None => open_result(
            cache,
            mask,
            ev,
            options,
            history,
            p,
            halfmove_clock,
            depth,
            ply,
            alpha,
            beta,
            root,
            value,
            mv,
            held,
        ),
    }
}

/// Whether a node is done without a search below it.
pub open spec fn node_leaf(
    cache: Seq<Slot>,
    mask: usize,
    ev: StandardEvaluator,
    history: Seq<u64>,
    p: Snapshot,
    halfmove_clock: int,
    depth: u8,
    ply: int,
    alpha: Evaluation,
    beta: Evaluation,
    root: bool,
) -> bool {
    settled_value(history, p, halfmove_clock, ply, root).is_some() || open_leaf(
        cache,
        mask,
        ev,
        history,
        p,
        halfmove_clock,
        depth,
        ply,
        alpha,
        beta,
        root,
    )
}

/// Whether a node tries no move of its own: its position or the cache
/// settles it, or it is handed to the quiescence search.
pub open spec fn node_rests(
    cache: Seq<Slot>,
    mask: usize,
    history: Seq<u64>,
    p: Snapshot,
    halfmove_clock: int,
    depth: u8,
    ply: int,
    alpha: Evaluation,
    beta: Evaluation,
    root: bool,
) -> bool {
    ||| settled_value(history, p, halfmove_clock, ply, root).is_some()
    ||| cache_settles(entry_in(cache, mask, p.hash), p, depth, alpha, beta, root)
    ||| node_quiet(p, depth, ply)
}

/// The move that follows in the line of the cache at the position `p`:
/// none where the position is drawn by rule, else the move of the entry that
/// the cache holds for the position.
pub open spec fn follows(
    cache: Seq<Slot>,
    mask: usize,
    history: Seq<u64>,
    p: Snapshot,
    halfmove_clock: int,
) -> Option<Move> {
    if is_draw_by_rule(history, p.hash, halfmove_clock) {
        None
    } else {
        match entry_in(cache, mask, p.hash) {
            Some(entry) => Some(entry.best_move),
            None => None,
        }
    }
}

/// The line that the cache holds from the position `p` on, beginning with
/// `mv` and at most `left` moves long: it goes on with the move that follows
/// at each position and ends before a move that is not legal.
pub open spec fn line_of(
    cache: Seq<Slot>,
    mask: usize,
    history: Seq<u64>,
    p: Snapshot,
    halfmove_clock: int,
    mv: Option<Move>,
    left: nat,
) -> Seq<Move>
    decreases left,
{
    match mv {
        Some(m) => if left == 0 || !legal_moves_of(p).contains(m) {
            Seq::<Move>::empty()
        } else {
            seq![m] + line_of(
                cache,
                mask,
                history.push(position_after(p, m).hash),
                position_after(p, m),
                next_clock(resets_clock(p, m), halfmove_clock) as int,
                follows(
                    cache,
                    mask,
                    history.push(position_after(p, m).hash),
                    position_after(p, m),
                    next_clock(resets_clock(p, m), halfmove_clock) as int,
                ),
                (left - 1) as nat,
            )
        },
        None => Seq::<Move>::empty(),
    }
}

/// The first `n` moves of a line lead to the same position in every line
/// that begins with them.
pub proof fn lemma_position_at_prefix(p: Snapshot, short: Seq<Move>, long: Seq<Move>, n: int)
    requires
        0 <= n <= short.len() <= long.len(),
        forall|i: int| 0 <= i < short.len() ==> short[i] == long[i],
    ensures
        position_at(p, short, n) == position_at(p, long, n),
    decreases n,
{
    if n > 0 {
        lemma_position_at_prefix(p, short, long, n - 1);
    }
}

} // verus!
