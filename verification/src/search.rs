//! The search: iterative deepening around a negamax with alpha-beta pruning.

pub mod game_helpers;
pub mod model;
pub mod search_defs;
pub mod window;

use vstd::prelude::*;
use crate::board::{legal_moves_of, Move, Position, Snapshot};
use crate::collections::{killer_items, KillerItem, KillerQueue};
use crate::evaluation::{mate_score, Evaluation, MAX_SCORE};
use crate::history::{bumped, counter_index, HistoryTable};
use crate::moves::{
    add_killer, captures_among, killer_item, quiescence_move_generator, see_of, with_killer,
    SortedMoveGenerator,
};
use crate::oracle::oracle;
use crate::search::game_helpers::{
    board_status, child_clock, draw_by_move_rule, move_is_quiet, move_resets_fifty_move_rule,
    next_clock, resets_clock, BoardStatus,
};
use crate::search::model::{
    cache_settles, clock_of, entry_in, extended, extends, floor, follows, history_at,
    inner_entries, line_of,
    lemma_mate_in_one_is_found, lemma_position_at_prefix, lemma_quiet_cut, lemma_quiet_result,
    lemma_quiet_step, lemma_reply_step, lemma_settled_reply, mates, may_pass, narrowed,
    no_deep_entry, node_leaf, node_quiet, node_rests, node_result, one_more, open_leaf,
    open_result, playable, polls, position_at, quiet_leaf, quiet_outcome, quiet_replies,
    quiet_result, quiet_run, raised, rested_value, settled_as_found, settled_child,
    settled_value, stored_as, tally_outcome, turned, usable,
};
use crate::search::search_defs::{LunaticHandler, SearchError, SearchOptions, SearchResult};
use crate::search::window::{
    bound_kind, empty_tally, inner, late_move_plan, lemma_tallied_prefix, needs_full_search,
    negate, null_move_depth, probe_window, probed, take_in, tallied, went_on, Probe, Tally,
};
use crate::standard::{standard_values, StandardEvaluator};
use crate::table::{lemma_taken_bounds, probe, slot_index, Slot, TableEntry, TranspositionTable};

verus! {

/// The state of one search: the position to search from, the history that
/// led to it, and the tables that the search fills.
pub struct LunaticSearchState<H> {
    handler: H,
    board: Position,
    history: Vec<u64>,
    halfmove_clock: u8,
    options: SearchOptions,
    evaluator: StandardEvaluator,
    cache_table: TranspositionTable,
    killer_table: Vec<KillerQueue>,
    history_table: HistoryTable,
    sel_depth: u8,
}

impl<H: LunaticHandler> LunaticSearchState<H> {
    pub closed spec fn wf(&self) -> bool {
        self.cache_table.wf() && inner_entries(self.cache_table@)
    }

    /// The hashes of the positions from the last irreversible move to the
    /// node that is being searched.
    pub closed spec fn history(&self) -> Seq<u64> {
        self.history@
    }

    /// The position that the search starts from.
    pub closed spec fn root(&self) -> Snapshot {
        self.board@
    }

    /// The plies since the last pawn move or capture at the root.
    pub closed spec fn clock(&self) -> u8 {
        self.halfmove_clock
    }

    pub closed spec fn options(&self) -> SearchOptions {
        self.options
    }

    /// The evaluator that scores the positions.
    pub closed spec fn evaluator(&self) -> StandardEvaluator {
        self.evaluator
    }

    /// The host of the search.
    pub closed spec fn host(&self) -> H {
        self.handler
    }

    /// The greatest distance from the root that the search has reached.
    pub closed spec fn deepest(&self) -> u8 {
        self.sel_depth
    }

    /// The killer moves of each ply, the oldest first.
    pub closed spec fn killers(&self) -> Seq<Seq<KillerItem>> {
        self.killer_table@.map_values(|queue: KillerQueue| killer_items(queue))
    }

    /// The history counters.
    pub closed spec fn counters(&self) -> Seq<u32> {
        self.history_table@
    }

    /// What a search leaves as it found it: the root, its clock, the options,
    /// the evaluator and the size of the tables.
    pub closed spec fn same_setup(&self, other: &Self) -> bool {
        &&& self.board == other.board
        &&& self.halfmove_clock == other.halfmove_clock
        &&& self.options == other.options
        &&& self.evaluator == other.evaluator
        &&& self.cache_table.mask() == other.cache_table.mask()
        &&& self.cache_table@.len() == other.cache_table@.len()
        &&& self.killer_table@.len() == other.killer_table@.len()
    }

    /// The slots of the cache.
    pub closed spec fn cache(&self) -> Seq<Slot> {
        self.cache_table@
    }

    /// The bits of a hash that pick its slot in the cache.
    pub closed spec fn cache_mask(&self) -> usize {
        self.cache_table.mask()
    }

    /// The entry that the cache holds under `hash`.
    pub open spec fn entry_for(&self, hash: u64) -> Option<TableEntry> {
        entry_in(self.cache(), self.cache_mask(), hash)
    }

    /// Whether the cache, the killer moves and the history counters of
    /// `other` are those of `self`.
    pub open spec fn same_tables(&self, other: &Self) -> bool {
        &&& self.cache() == other.cache()
        &&& self.cache_mask() == other.cache_mask()
        &&& self.killers() == other.killers()
        &&& self.counters() == other.counters()
    }

    /// The entry of the cache for `board`, which can be negated.
    fn cached(&self, board: &Position) -> (r: Option<TableEntry>)
        requires
            self.wf(),
        ensures
            r == self.entry_for(board@.hash),
            match r {
                Some(entry) => inner(entry.value),
                None => true,
            },
    {
        proof {
            self.cache_table.lemma_wf();
            assert(0 <= slot_index(board@.hash, self.cache_table.mask()) < self.cache_table@.len());
        }
        self.cache_table.get(board)
    }

    /// Stores what the search found for `board`.
    fn remember(&mut self, board: &Position, entry: TableEntry)
        requires
            old(self).wf(),
            inner(entry.value),
        ensures
            final(self).wf(),
            final(self).same_setup(old(self)),
            final(self).history == old(self).history,
            final(self).sel_depth == old(self).sel_depth,
            final(self).killer_table == old(self).killer_table,
            final(self).history_table == old(self).history_table,
            match final(self).entry_for(board@.hash) {
                Some(stored) => stored == entry,
                None => true,
            },
    {
        proof {
            self.cache_table.lemma_wf();
            assert(0 <= slot_index(board@.hash, self.cache_table.mask()) < self.cache_table@.len());
        }
        self.cache_table.set(board, entry);
    }

    /// Counts a quiet move that cut the search off at `ply_index`: it becomes
    /// the newest killer of its ply, and its history counter rises by the
    /// square of `depth`.
    fn reward(&mut self, board: &Snapshot, mv: Move, ply_index: u8, depth: u8)
        requires
            old(self).wf(),
            mv.on_board(),
        ensures
            final(self).wf(),
            final(self).same_setup(old(self)),
            final(self).history == old(self).history,
            final(self).sel_depth == old(self).sel_depth,
            final(self).cache_table == old(self).cache_table,
            final(self).killers() == if ply_index < old(self).killers().len() {
                old(self).killers().update(
                    ply_index as int,
                    with_killer(old(self).killers()[ply_index as int], killer_item(mv)),
                )
            } else {
                old(self).killers()
            },
            final(self).counters() == match board.piece_at(mv.source as int) {
                Some(piece) => old(self).counters().update(
                    counter_index(board.side_to_move, piece, mv.dest as int),
                    bumped(
                        old(self).counters()[counter_index(
                            board.side_to_move,
                            piece,
                            mv.dest as int,
                        )],
                        depth,
                    ),
                ),
                None => old(self).counters(),
            },
    {
        let ply: usize = ply_index as usize;
        if ply < self.killer_table.len() {
            let mut killers = self.killer_table[ply].copy();
            add_killer(&mut killers, mv);
            self.killer_table.set(ply, killers);
            proof {
                assert(self.killers() =~= old(self).killers().update(
                    ply_index as int,
                    with_killer(old(self).killers()[ply_index as int], killer_item(mv)),
                ));
            }
        }
        match board.piece_on(mv.source) {
            Some(piece) => {
                self.history_table.bump(board.side_to_move, piece, mv.dest, depth);
            },
            None => {},
        }
    }

    /// The value of the position `board`, `ply_index` plies below the root,
    /// by its captures alone. It leaves the cache, the killer moves and the
    /// history counters as they are.
    #[verifier::rlimit(30)]
    fn quiescence_search(
        &mut self,
        evaluator: &StandardEvaluator,
        board: &Position,
        node_count: &mut u32,
        ply_index: u8,
        halfmove_clock: u8,
        alpha: Evaluation,
        beta: Evaluation,
    ) -> (r: Evaluation)
        requires
            old(self).wf(),
            -MAX_SCORE <= alpha.value() < beta.value(),
            ply_index > 0 || legal_moves_of(board@).len() > 0,
        ensures
            final(self).wf(),
            final(self).same_setup(old(self)),
            final(self).same_tables(old(self)),
            final(self).history@ == old(self).history@,
            final(self).deepest() == old(self).deepest(),
            inner(r),
            *final(node_count) >= one_more(*old(node_count)),
            quiet_result(
                old(self).cache(),
                old(self).cache_mask(),
                *evaluator,
                old(self).history@,
                board@,
                halfmove_clock as int,
                ply_index as int,
                alpha.value(),
                beta.value(),
                r,
            ),
            quiet_leaf(
                old(self).cache(),
                old(self).cache_mask(),
                *evaluator,
                old(self).history@,
                board@,
                halfmove_clock as int,
                ply_index as int,
                alpha.value(),
                beta.value(),
            ) ==> *final(node_count) == one_more(*old(node_count)),
        decreases 255 - ply_index, 1int,
    {
        let ghost alpha_in = alpha;
        let ghost beta_in = beta;
        proof {
            assert forall|value: Evaluation|
                #![trigger value.value()]
                true implies quiet_result(
                old(self).cache(),
                old(self).cache_mask(),
                *evaluator,
                old(self).history@,
                board@,
                halfmove_clock as int,
                ply_index as int,
                alpha.value(),
                beta.value(),
                value,
            ) == rested_value(
                old(self).cache(),
                old(self).cache_mask(),
                *evaluator,
                old(self).history@,
                board@,
                halfmove_clock as int,
                ply_index as int,
                alpha.value(),
                beta.value(),
                value,
            ) by {
                lemma_quiet_result(
                    old(self).cache(),
                    old(self).cache_mask(),
                    *evaluator,
                    old(self).history@,
                    board@,
                    halfmove_clock as int,
                    ply_index as int,
                    alpha.value(),
                    beta.value(),
                    value,
                );
            }
        }
        *node_count = node_count.saturating_add(1);
        let position: Snapshot = board.position();
        if draw_by_move_rule(&position, &self.history, halfmove_clock) {
            return Evaluation::draw();
        }
        // Any entry will do here, however shallow the search behind it was.
        let window = match probe_window(self.cached(board), 0, alpha, beta) {
            Probe::Settled(value, _) => {
                return value;
            },
            Probe::Window(a, b) => (a, b),
        };
        let beta = window.1;
        let moves = board.legal_moves();
        match board_status(&position, &moves) {
            BoardStatus::Checkmate => {
                return Evaluation::mated_in(ply_index);
            },
            BoardStatus::Stalemate => {
                return Evaluation::draw();
            },
            BoardStatus::Ongoing => {},
        }
        let stand = evaluator.evaluate_static(&position);
        if stand.0 >= beta.0 || ply_index == 255 {
            return stand;
        }
        let captures = quiescence_move_generator(evaluator, &position, &moves);
        let value = self.quiet_captures(
            evaluator,
            board,
            captures,
            node_count,
            ply_index,
            halfmove_clock,
            stand,
            window.0,
            beta,
        );
        proof {
            lemma_quiet_result(
                old(self).cache(),
                old(self).cache_mask(),
                *evaluator,
                old(self).history@,
                board@,
                halfmove_clock as int,
                ply_index as int,
                alpha_in.value(),
                beta_in.value(),
                value,
            );
        }
        value
    }

    /// Tries the captures `captures` of the position `board`, whose static
    /// score `stand` is below `beta`, until the value reaches `beta`.
    #[verifier::rlimit(40)]
    fn quiet_captures(
        &mut self,
        evaluator: &StandardEvaluator,
        board: &Position,
        captures: Vec<Move>,
        node_count: &mut u32,
        ply_index: u8,
        halfmove_clock: u8,
        stand: Evaluation,
        low: Evaluation,
        beta: Evaluation,
    ) -> (r: Evaluation)
        requires
            old(self).wf(),
            ply_index < 255,
            stand.value() == evaluator.static_score(board@),
            inner(stand),
            -MAX_SCORE <= low.value() < beta.value(),
            stand.value() < beta.value(),
            captures@.to_multiset() == captures_among(
                board@,
                legal_moves_of(board@),
            ).to_multiset(),
            forall|j: int, k: int|
                0 <= j <= k < captures@.len() ==> see_of(*evaluator, board@, #[trigger] captures@[j])
                    >= see_of(*evaluator, board@, #[trigger] captures@[k]),
            forall|j: int|
                0 <= j < captures@.len() ==> legal_moves_of(board@).contains(
                    #[trigger] captures@[j],
                ),
        ensures
            final(self).wf(),
            final(self).same_setup(old(self)),
            final(self).same_tables(old(self)),
            final(self).history@ == old(self).history@,
            final(self).deepest() == old(self).deepest(),
            inner(r),
            *final(node_count) >= *old(node_count),
            quiet_outcome(
                old(self).cache(),
                old(self).cache_mask(),
                *evaluator,
                old(self).history@,
                board@,
                halfmove_clock as int,
                ply_index as int,
                low.value(),
                beta.value(),
                r.value(),
            ),
        decreases 255 - ply_index, 0int,
    {
        let position: Snapshot = board.position();
        let ghost all = captures@;
        let ghost mut found: Seq<Evaluation> = Seq::empty();
        let mut value = stand;
        let mut alpha = if stand.0 > low.0 {
            stand
        } else {
            low
        };
        let mut i: usize = 0;
        proof {
            broadcast use vstd::multiset::group_multiset_axioms;
            all.take(0).to_multiset_ensures();
            assert(all.take(0).to_multiset() =~= vstd::multiset::Multiset::empty());
        }
        while i < captures.len()
            invariant
                self.wf(),
                self.same_setup(old(self)),
                self.same_tables(old(self)),
                self.history@ == old(self).history@,
                self.sel_depth == old(self).sel_depth,
                *node_count >= *old(node_count),
                position == board@,
                all == captures@,
                all.to_multiset() == captures_among(board@, legal_moves_of(board@)).to_multiset(),
                forall|j: int, k: int|
                    0 <= j <= k < all.len() ==> see_of(*evaluator, board@, #[trigger] all[j])
                        >= see_of(*evaluator, board@, #[trigger] all[k]),
                forall|j: int|
                    0 <= j < all.len() ==> legal_moves_of(board@).contains(#[trigger] all[j]),
                stand.value() == evaluator.static_score(board@),
                inner(value),
                value.value() == raised(stand.value(), found, i as int),
                alpha.value() == floor(low.value(), stand.value(), found, i as int),
                value.value() <= alpha.value() < beta.value(),
                -MAX_SCORE <= alpha.value(),
                -MAX_SCORE <= low.value() < beta.value(),
                ply_index < 255,
                i <= all.len(),
                found.len() == i,
                quiet_run(
                    old(self).cache(),
                    old(self).cache_mask(),
                    *evaluator,
                    old(self).history@,
                    board@,
                    halfmove_clock as int,
                    ply_index as int,
                    beta.value(),
                    all.take(i as int),
                    found,
                ),
                quiet_replies(
                    old(self).cache(),
                    old(self).cache_mask(),
                    *evaluator,
                    old(self).history@,
                    board@,
                    halfmove_clock as int,
                    ply_index as int,
                    low.value(),
                    beta.value(),
                    all.take(i as int),
                    found,
                ),
            decreases captures@.len() - i,
        {
            let mv = captures[i];
            let child_board = board.make_move(mv);
            let child_halfmove = child_clock(
                move_resets_fifty_move_rule(mv, &position),
                halfmove_clock,
            );
            let ghost before = self.history@;
            self.history.push(child_board.hash());
            let reply = self.quiescence_search(
                evaluator,
                &child_board,
                node_count,
                ply_index + 1,
                child_halfmove,
                negate(beta),
                negate(alpha),
            );
            let child_value = negate(reply);
            self.history.pop();
            proof {
                assert(self.history@ =~= before);
                assert(turned(child_value) == reply);
                lemma_settled_reply(
                    old(self).cache(),
                    old(self).cache_mask(),
                    *evaluator,
                    old(self).history@,
                    board@,
                    halfmove_clock as int,
                    ply_index as int,
                    mv,
                    -beta.value(),
                    -alpha.value(),
                    child_value,
                );
                lemma_reply_step(
                    old(self).cache(),
                    old(self).cache_mask(),
                    *evaluator,
                    old(self).history@,
                    board@,
                    halfmove_clock as int,
                    ply_index as int,
                    low.value(),
                    beta.value(),
                    all,
                    found,
                    child_value,
                    i as int,
                );
                lemma_quiet_step(
                    old(self).cache(),
                    old(self).cache_mask(),
                    *evaluator,
                    old(self).history@,
                    board@,
                    halfmove_clock as int,
                    ply_index as int,
                    beta.value(),
                    all,
                    found,
                    child_value,
                    i as int,
                );
                found = found.push(child_value);
            }
            if child_value.0 > value.0 {
                value = child_value;
                if value.0 > alpha.0 {
                    alpha = value;
                    if alpha.0 >= beta.0 {
                        proof {
                            lemma_quiet_cut(
                                old(self).cache(),
                                old(self).cache_mask(),
                                *evaluator,
                                old(self).history@,
                                board@,
                                halfmove_clock as int,
                                ply_index as int,
                                low.value(),
                                beta.value(),
                                all.take(i + 1),
                                found,
                            );
                        }
                        return value;
                    }
                }
            }
            i = i + 1;
        }
        proof {
            assert(all.take(all.len() as int) =~= all);
        }
        value
    }

    /// Searches the position `board`, `ply_index` plies below the root, to
    /// `depth` plies within the window from `alpha` to `beta`. The result is
    /// the value and, where moves were tried or the cache settled the node,
    /// the best move; or `Terminated` once the host says that time is up.
    /// The host is asked below the root only, once in 4096 nodes. The count
    /// of nodes never falls: it stops at the greatest number it can hold.
    #[verifier::rlimit(30)]
    fn search_position(
        &mut self,
        evaluator: &StandardEvaluator,
        board: &Position,
        node_count: &mut u32,
        depth: u8,
        ply_index: u8,
        halfmove_clock: u8,
        alpha: Evaluation,
        beta: Evaluation,
        root: bool,
    ) -> (r: Result<(Evaluation, Option<Move>), SearchError>)
        requires
            old(self).wf(),
            -MAX_SCORE <= alpha.value() < beta.value(),
            !root ==> ply_index > 0,
        ensures
            final(self).wf(),
            final(self).same_setup(old(self)),
            final(self).deepest() >= old(self).deepest(),
            final(self).deepest() >= ply_index,
            *final(node_count) >= *old(node_count),
            node_rests(
                old(self).cache(),
                old(self).cache_mask(),
                old(self).history@,
                board@,
                halfmove_clock as int,
                depth,
                ply_index as int,
                alpha,
                beta,
                root,
            ) ==> final(self).same_tables(old(self)) && (r.is_err() ==> !root && polls(
                *old(node_count),
            )),
            match r {
                Ok((value, mv)) => {
                    &&& value.is_balanced()
                    &&& !root || legal_moves_of(board@).len() > 0 ==> inner(value)
                    &&& final(self).history@ == old(self).history@
                    &&& root && mv.is_some() ==> legal_moves_of(board@).contains(mv.unwrap())
                    &&& node_result(
                        old(self).cache(),
                        old(self).cache_mask(),
                        *evaluator,
                        old(self).options(),
                        old(self).history@,
                        board@,
                        halfmove_clock as int,
                        depth,
                        ply_index as int,
                        alpha,
                        beta,
                        root,
                        value,
                        mv,
                        final(self).entry_for(board@.hash),
                    )
                    &&& node_leaf(
                        old(self).cache(),
                        old(self).cache_mask(),
                        *evaluator,
                        old(self).history@,
                        board@,
                        halfmove_clock as int,
                        depth,
                        ply_index as int,
                        alpha,
                        beta,
                        root,
                    ) ==> *final(node_count) == one_more(*old(node_count))
                },
                Err(error) => {
                    &&& error == SearchError::Terminated
                    &&& extends(final(self).history@, old(self).history@)
                    &&& !(root && legal_moves_of(board@).len() == 0)
                },
            },
        decreases 255 - ply_index, 4int,
    {
        if ply_index > self.sel_depth {
            self.sel_depth = ply_index;
        }
        if !root && (*node_count % 4096 == 0 || *node_count == u32::MAX) && self.handler.time_up() {
            return Err(SearchError::Terminated);
        }
        *node_count = node_count.saturating_add(1);
        let position: Snapshot = board.position();
        if !root && draw_by_move_rule(&position, &self.history, halfmove_clock) {
            return Ok((Evaluation::draw(), None));
        }
        let moves = board.legal_moves();
        let status = board_status(&position, &moves);
        if status != BoardStatus::Ongoing {
            let value = if status == BoardStatus::Checkmate {
                Evaluation::mated_in(ply_index)
            } else {
                Evaluation::draw()
            };
            return Ok((value, None));
        }
        if !root {
            match oracle(board) {
                Some(value) => {
                    return Ok((value, None));
                },
                None => {},
            }
        }
        self.search_open(
            evaluator,
            board,
            moves,
            node_count,
            depth,
            ply_index,
            halfmove_clock,
            alpha,
            beta,
            root,
        )
    }

    /// Searches a position that has legal moves and is no draw: with the
    /// cache first, then, where no depth is left, with the quiescence search,
    /// and else with a null move and with the moves. The node has been
    /// counted.
    #[verifier::rlimit(30)]
    fn search_open(
        &mut self,
        evaluator: &StandardEvaluator,
        board: &Position,
        moves: Vec<Move>,
        node_count: &mut u32,
        depth: u8,
        ply_index: u8,
        halfmove_clock: u8,
        alpha: Evaluation,
        beta: Evaluation,
        root: bool,
    ) -> (r: Result<(Evaluation, Option<Move>), SearchError>)
        requires
            old(self).wf(),
            -MAX_SCORE <= alpha.value() < beta.value(),
            !root ==> ply_index > 0,
            moves@ == legal_moves_of(board@),
            moves@.len() > 0,
            forall|i: int| 0 <= i < moves@.len() ==> (#[trigger] moves@[i]).on_board(),
            *old(node_count) >= 1,
        ensures
            final(self).wf(),
            final(self).same_setup(old(self)),
            final(self).deepest() >= old(self).deepest(),
            *final(node_count) >= *old(node_count),
            cache_settles(old(self).entry_for(board@.hash), board@, depth, alpha, beta, root)
                || node_quiet(board@, depth, ply_index as int) ==> final(self).same_tables(
                old(self),
            ) && r.is_ok(),
            match r {
                Ok((value, mv)) => {
                    &&& inner(value)
                    &&& final(self).history@ == old(self).history@
                    &&& root && mv.is_some() ==> legal_moves_of(board@).contains(mv.unwrap())
                    &&& open_result(
                        old(self).cache(),
                        old(self).cache_mask(),
                        *evaluator,
                        old(self).options(),
                        old(self).history@,
                        board@,
                        halfmove_clock as int,
                        depth,
                        ply_index as int,
                        alpha,
                        beta,
                        root,
                        value,
                        mv,
                        final(self).entry_for(board@.hash),
                    )
                    &&& open_leaf(
                        old(self).cache(),
                        old(self).cache_mask(),
                        *evaluator,
                        old(self).history@,
                        board@,
                        halfmove_clock as int,
                        depth,
                        ply_index as int,
                        alpha,
                        beta,
                        root,
                    ) ==> *final(node_count) == *old(node_count)
                },
                Err(error) => error == SearchError::Terminated && extends(
                    final(self).history@,
                    old(self).history@,
                ),
            },
        decreases 255 - ply_index, 3int,
    {
        let position: Snapshot = board.position();
        let in_check: bool = position.in_check();
        let depth: u8 = if in_check && depth < 255 {
            depth + 1
        } else {
            depth
        };
        let mut window = (alpha, beta);
        match self.cached(board) {
            Some(entry) => {
                // The root hands the move of the entry out, so there it must be
                // legal: an entry of another position with the same hash is passed over.
                if !root || Self::is_among(&moves, entry.best_move) {
                    match probe_window(Some(entry), depth, alpha, beta) {
                        Probe::Settled(value, mv) => {
                            return Ok((value, Some(mv)));
                        },
                        Probe::Window(a, b) => {
                            window = (a, b);
                        },
                    }
                }
            },
            None => {},
        }
        assert(window == narrowed(
            usable(old(self).entry_for(board@.hash), board@, root),
            depth,
            alpha,
            beta,
        ));
        if depth == 0 || ply_index == 255 {
            // The quiescence search counts the node itself.
            *node_count = *node_count - 1;
            let value = self.quiescence_search(
                evaluator,
                board,
                node_count,
                ply_index,
                halfmove_clock,
                window.0,
                window.1,
            );
            return Ok((value, None));
        }
        match self.null_move_cut(
            evaluator,
            board,
            node_count,
            depth,
            ply_index,
            halfmove_clock,
            window.1,
        ) {
            Ok(Some(value)) => {
                return Ok((value, None));
            },
            Ok(None) => {},
            Err(error) => {
                return Err(error);
            },
        }
        self.search_moves(
            evaluator,
            board,
            moves,
            node_count,
            depth,
            ply_index,
            halfmove_clock,
            in_check,
            alpha,
            window.0,
            window.1,
        )
    }

    /// Lets the side to move pass, if null move pruning is on and the side
    /// has a rook, bishop or queen, and searches the reply less deep just
    /// below `beta`. The result is the value if it reaches `beta`.
    fn null_move_cut(
        &mut self,
        evaluator: &StandardEvaluator,
        board: &Position,
        node_count: &mut u32,
        depth: u8,
        ply_index: u8,
        halfmove_clock: u8,
        beta: Evaluation,
    ) -> (r: Result<Option<Evaluation>, SearchError>)
        requires
            old(self).wf(),
            -MAX_SCORE < beta.value(),
            ply_index < 255,
        ensures
            final(self).wf(),
            final(self).same_setup(old(self)),
            final(self).deepest() >= old(self).deepest(),
            *final(node_count) >= *old(node_count),
            match r {
                Ok(cut) => {
                    &&& final(self).history@ == old(self).history@
                    &&& match cut {
                        Some(value) => inner(value) && value.value() >= beta.value() && may_pass(
                            board@,
                            old(self).options(),
                        ),
                        None => true,
                    }
                },
                Err(error) => error == SearchError::Terminated && extends(
                    final(self).history@,
                    old(self).history@,
                ),
            },
        decreases 255 - ply_index, 1int,
    {
        let position: Snapshot = board.position();
        if !self.options.null_move_pruning || (position.color_combined(position.side_to_move) & (
        position.pieces[3] | position.pieces[2] | position.pieces[4])) == 0 {
            return Ok(None);
        }
        match board.null_move() {
            Some(child_board) => {
                let ghost before = self.history@;
                let narrowed_alpha = Evaluation(beta.0 - 1);
                self.history.push(child_board.hash());
                let reply = self.search_position(
                    evaluator,
                    &child_board,
                    node_count,
                    null_move_depth(depth, self.options.null_move_reduction),
                    ply_index + 1,
                    child_clock(false, halfmove_clock),
                    negate(beta),
                    negate(narrowed_alpha),
                    false,
                );
                match reply {
                    Ok((value, _)) => {
                        self.history.pop();
                        proof {
                            assert(self.history@ =~= before);
                        }
                        let child_value = negate(value);
                        if child_value.0 >= beta.0 {
                            Ok(Some(child_value))
                        } else {
                            Ok(None)
                        }
                    },
                    Err(error) => Err(error),
                }
            },
            None => Ok(None),
        }
    }

    /// Searches the position `child_board`, which a move from a node at
    /// `ply_index` led to: first as `plan` says, and then in full if that
    /// search was reduced and its value rose above `alpha`. The result is the
    /// value for the side that made the move.
    fn search_child(
        &mut self,
        evaluator: &StandardEvaluator,
        child_board: &Position,
        node_count: &mut u32,
        plan: (u8, Evaluation),
        depth: u8,
        ply_index: u8,
        child_halfmove: u8,
        alpha: Evaluation,
        beta: Evaluation,
    ) -> (r: Result<Evaluation, SearchError>)
        requires
            old(self).wf(),
            -MAX_SCORE <= alpha.value() < beta.value(),
            alpha.value() < plan.1.value() <= beta.value(),
            1 <= plan.0 <= depth,
            ply_index < 255,
        ensures
            final(self).wf(),
            final(self).same_setup(old(self)),
            final(self).deepest() >= old(self).deepest(),
            *final(node_count) >= *old(node_count),
            match r {
                Ok(value) => {
                    &&& inner(value)
                    &&& final(self).history@ == old(self).history@
                    &&& match settled_value(
                        old(self).history@.push(child_board@.hash),
                        child_board@,
                        child_halfmove as int,
                        ply_index + 1,
                        false,
                    ) {
                        Some(settled) => value.value() == -settled,
                        None => true,
                    }
                },
                Err(error) => error == SearchError::Terminated && extends(
                    final(self).history@,
                    old(self).history@,
                ),
            },
        decreases 255 - ply_index, 1int,
    {
        let ghost before = self.history@;
        self.history.push(child_board.hash());
        let first = self.search_position(
            evaluator,
            child_board,
            node_count,
            plan.0 - 1,
            ply_index + 1,
            child_halfmove,
            negate(plan.1),
            negate(alpha),
            false,
        );
        let mut child_value = match first {
            Ok((value, _)) => negate(value),
            Err(error) => {
                return Err(error);
            },
        };
        if needs_full_search(child_value, alpha, plan.0, depth, plan.1, beta) {
            let second = self.search_position(
                evaluator,
                child_board,
                node_count,
                depth - 1,
                ply_index + 1,
                child_halfmove,
                negate(beta),
                negate(alpha),
                false,
            );
            child_value = match second {
                Ok((value, _)) => negate(value),
                Err(error) => {
                    return Err(error);
                },
            };
        }
        self.history.pop();
        proof {
            assert(self.history@ =~= before);
        }
        Ok(child_value)
    }

    /// Tries the moves of the position `board` one by one until one of them
    /// reaches `beta`, and stores what it found in the cache. The result is
    /// the tally of the moves that were tried, and every legal move was tried
    /// unless the lower bound reached `beta`. Whatever the cache holds for
    /// the position afterwards is this result.
    #[verifier::rlimit(30)]
    fn search_moves(
        &mut self,
        evaluator: &StandardEvaluator,
        board: &Position,
        moves: Vec<Move>,
        node_count: &mut u32,
        depth: u8,
        ply_index: u8,
        halfmove_clock: u8,
        in_check: bool,
        entry_alpha: Evaluation,
        alpha: Evaluation,
        beta: Evaluation,
    ) -> (r: Result<(Evaluation, Option<Move>), SearchError>)
        requires
            old(self).wf(),
            -MAX_SCORE <= alpha.value() < beta.value(),
            moves@ == legal_moves_of(board@),
            moves@.len() > 0,
            forall|i: int| 0 <= i < moves@.len() ==> (#[trigger] moves@[i]).on_board(),
            depth >= 1,
            ply_index < 255,
        ensures
            final(self).wf(),
            final(self).same_setup(old(self)),
            final(self).deepest() >= old(self).deepest(),
            *final(node_count) >= *old(node_count),
            match r {
                Ok((value, mv)) => {
                    &&& inner(value)
                    &&& final(self).history@ == old(self).history@
                    &&& mv.is_some()
                    &&& legal_moves_of(board@).contains(mv.unwrap())
                    &&& tally_outcome(
                        old(self).history@,
                        board@,
                        halfmove_clock as int,
                        ply_index as int,
                        alpha,
                        beta,
                        value,
                        mv,
                    )
                    &&& stored_as(
                        final(self).entry_for(board@.hash),
                        value,
                        entry_alpha,
                        beta,
                        depth,
                        mv.unwrap(),
                    )
                },
                Err(error) => error == SearchError::Terminated && extends(
                    final(self).history@,
                    old(self).history@,
                ),
            },
        decreases 255 - ply_index, 2int,
    {
        let position: Snapshot = board.position();
        let killers = if (ply_index as usize) < self.killer_table.len() {
            self.killer_table[ply_index as usize].copy()
        } else {
            KillerQueue::new()
        };
        let ghost all_moves = moves@;
        let total: usize = moves.len();
        let mut generator = SortedMoveGenerator::new(
            &self.cache_table,
            evaluator,
            killers,
            position,
            moves,
        );
        let mut tally = Tally { value: Evaluation::lowest(), best_move: None, alpha };
        let mut index: usize = 0;
        let mut cut: bool = false;
        let ghost mut tried: Seq<Move> = Seq::empty();
        let ghost mut found: Seq<Evaluation> = Seq::empty();
        proof {
            broadcast use vstd::multiset::group_multiset_axioms;
            all_moves.to_multiset_ensures();
            tried.to_multiset_ensures();
            assert(tried.to_multiset() =~= vstd::multiset::Multiset::empty());
            assert(tried.to_multiset().add(generator.remaining()) =~= all_moves.to_multiset());
        }
        while !cut
            invariant
                went_on(alpha, beta, tried, found),
                settled_as_found(
                    old(self).history@,
                    board@,
                    halfmove_clock as int,
                    ply_index as int,
                    tried,
                    found,
                ),
                tally == tallied(empty_tally(alpha), tried, found, tried.len() as int),
                tally.alpha.value() == if tally.value.value() > alpha.value() {
                    tally.value.value()
                } else {
                    alpha.value()
                },
                tried.to_multiset().add(generator.remaining()) == all_moves.to_multiset(),
                !cut ==> tried.len() == index,
                cut ==> tried.len() >= 1,
                cut ==> generator.remaining().len() == 0 || tally.alpha.value() >= beta.value(),
                -MAX_SCORE <= alpha.value() < beta.value(),
                self.sel_depth >= old(self).sel_depth,
                *node_count >= *old(node_count),
                self.wf(),
                self.same_setup(old(self)),
                self.history@ == old(self).history@,
                all_moves == legal_moves_of(board@),
                all_moves.len() > 0,
                all_moves.len() == total,
                position == board@,
                depth >= 1,
                ply_index < 255,
                generator.wf(),
                generator.board() == position,
                generator.evaluator() == *evaluator,
                generator.remaining().subset_of(all_moves.to_multiset()),
                !cut ==> index + generator.remaining().len() == all_moves.len(),
                tally.value.is_balanced(),
                tried.len() >= 1 ==> inner(tally.value),
                -MAX_SCORE <= tally.alpha.value(),
                tally.alpha.value() < beta.value() || cut,
                cut ==> tally.best_move.is_some(),
                index > 0 ==> tally.best_move.is_some(),
                match tally.best_move {
                    Some(m) => all_moves.contains(m),
                    None => true,
                },
            decreases generator.remaining().len(), (if cut { 0int } else { 1int }),
        {
            let ghost remaining_before = generator.remaining();
            let next = generator.next(&self.history_table);
            match next {
                Some(mv) => {
                    proof {
                        broadcast use vstd::multiset::group_multiset_axioms;
                        all_moves.to_multiset_ensures();
                        assert(all_moves.to_multiset().count(mv) > 0);
                        assert(all_moves.contains(mv));
                        assert(generator.remaining().len() == remaining_before.len() - 1);
                        assert(index < total);
                        assert(generator.remaining().subset_of(all_moves.to_multiset()));
                    }
                    let child_board = board.make_move(mv);
                    let child_position = child_board.position();
                    let quiet: bool = move_is_quiet(&position, &child_position);
                    let gives_check: bool = child_position.in_check();
                    let child_halfmove = child_clock(
                        move_resets_fifty_move_rule(mv, &position),
                        halfmove_clock,
                    );
                    let plan = late_move_plan(
                        &self.options,
                        index,
                        depth,
                        quiet,
                        in_check,
                        gives_check,
                        tally.alpha,
                        beta,
                    );
                    let searched = self.search_child(
                        evaluator,
                        &child_board,
                        node_count,
                        plan,
                        depth,
                        ply_index,
                        child_halfmove,
                        tally.alpha,
                        beta,
                    );
                    let child_value = match searched {
                        Ok(value) => value,
                        Err(error) => {
                            return Err(error);
                        },
                    };
                    let ghost tally_before = tally;
                    let ghost tried_before = tried;
                    let ghost found_before = found;
                    tally = take_in(tally, mv, child_value);
                    proof {
                        broadcast use vstd::multiset::group_multiset_axioms;
                        tried = tried.push(mv);
                        found = found.push(child_value);
                        let n = tried_before.len() as int;
                        lemma_tallied_prefix(
                            empty_tally(alpha),
                            tried_before,
                            found_before,
                            tried,
                            found,
                            n,
                        );
                        assert forall|i: int| 1 <= i < tried.len() implies (#[trigger] tallied(
                            empty_tally(alpha),
                            tried,
                            found,
                            i,
                        )).alpha.value() < beta.value() by {
                            lemma_tallied_prefix(
                                empty_tally(alpha),
                                tried_before,
                                found_before,
                                tried,
                                found,
                                i,
                            );
                            if i < n {
                                assert(tallied(
                                    empty_tally(alpha),
                                    tried_before,
                                    found_before,
                                    i,
                                ).alpha.value() < beta.value());
                            }
                        }
                        vstd::seq_lib::to_multiset_build(tried_before, mv);
                        assert(tried.to_multiset().add(generator.remaining())
                            =~= all_moves.to_multiset());
                        assert forall|i: int| 0 <= i < tried.len() implies match settled_child(
                            old(self).history@,
                            board@,
                            halfmove_clock as int,
                            ply_index as int,
                            tried[i],
                        ) {
                            Some(settled) => (#[trigger] found[i]).value() == -settled,
                            None => true,
                        } by {
                            if i < n {
                                assert(found[i] == found_before[i]);
                                assert(tried[i] == tried_before[i]);
                            }
                        }
                    }
                    if tally.alpha.0 >= beta.0 {
                        if quiet {
                            self.reward(&position, mv, ply_index, depth);
                        }
                        cut = true;
                    } else {
                        index = index + 1;
                    }
                },
                None => {
                    cut = true;
                },
            }
        }
        proof {
            broadcast use vstd::multiset::group_multiset_axioms;
            if generator.remaining().len() == 0 {
                assert(generator.remaining() =~= vstd::multiset::Multiset::empty());
                assert(tried.to_multiset() =~= all_moves.to_multiset());
            }
            assert(tally.alpha.value() >= beta.value() ==> tally.value.value() >= beta.value());
            assert(tried.to_multiset().subset_of(all_moves.to_multiset()));
            assert(went_on(alpha, beta, tried, found));
            assert(tally_outcome(
                old(self).history@,
                board@,
                halfmove_clock as int,
                ply_index as int,
                alpha,
                beta,
                tally.value,
                tally.best_move,
            ));
        }
        let value = tally.value;
        match tally.best_move {
            Some(best_move) => {
                self.remember(
                    board,
                    TableEntry {
                        kind: bound_kind(value, entry_alpha, beta),
                        value,
                        depth,
                        best_move,
                    },
                );
                Ok((value, Some(best_move)))
            },
            None => Ok((value, None)),
        }
    }

    /// Whether `mv` is one of `moves`.
    fn is_among(moves: &Vec<Move>, mv: Move) -> (r: bool)
        ensures
            r == moves@.contains(mv),
    {
        let mut i: usize = 0;
        while i < moves.len()
            invariant
                i <= moves@.len(),
                forall|j: int| 0 <= j < i ==> moves@[j] != mv,
            decreases moves@.len() - i,
        {
            if moves[i] == mv {
                return true;
            }
            i = i + 1;
        }
        false
    }
    /// A search from the position that the legal moves `moves` lead to from
    /// `init_pos`, with the standard evaluator, an empty cache of the size
    /// that `options` give and no killer moves or history counts.
    pub fn new(handler: H, init_pos: &Position, moves: Vec<Move>, options: SearchOptions) -> (r:
        Self)
        requires
            playable(init_pos@, moves@),
        ensures
            r.wf(),
            r.root() == position_at(init_pos@, moves@, moves@.len() as int),
            r.history() == history_at(init_pos@, moves@, moves@.len() as int),
            r.clock() == clock_of(r.history()),
            r.options() == options,
            r.host() == handler,
            r.evaluator() == standard_values(),
            forall|hash: u64| (#[trigger] r.entry_for(hash)).is_none(),
            r.killers().len() == options.max_depth,
            forall|ply: int| 0 <= ply < r.killers().len() ==> (#[trigger] r.killers()[ply]).len() == 0,
            forall|i: int| 0 <= i < r.counters().len() ==> r.counters()[i] == 0,
            r.deepest() == 0,
    {
        let mut history: Vec<u64> = Vec::new();
        let mut board: Position = *init_pos;
        history.push(board.hash());
        let mut i: usize = 0;
        while i < moves.len()
            invariant
                i <= moves@.len(),
                playable(init_pos@, moves@),
                board@ == position_at(init_pos@, moves@, i as int),
                history@ == history_at(init_pos@, moves@, i as int),
                history@.len() > 0,
            decreases moves@.len() - i,
        {
            let mv = moves[i];
            let position = board.position();
            if move_resets_fifty_move_rule(mv, &position) {
                history.clear();
            }
            board = board.make_move(mv);
            history.push(board.hash());
            i = i + 1;
        }
        let halfmove_clock: u8 = if history.len() > 255 {
            255
        } else {
            (history.len() - 1) as u8
        };
        let mut killer_table: Vec<KillerQueue> = Vec::new();
        let mut k: u8 = 0;
        while k < options.max_depth
            invariant
                k <= options.max_depth,
                killer_table@.len() == k,
                forall|ply: int| 0 <= ply < k ==> killer_items(#[trigger] killer_table@[ply]).len() == 0,
            decreases options.max_depth - k,
        {
            killer_table.push(KillerQueue::new());
            k = k + 1;
        }
        let cache_table = TranspositionTable::with_rounded_size(options.transposition_table_size);
        proof {
            cache_table.lemma_wf();
            assert forall|hash: u64|
                (#[trigger] probe(
                    cache_table@[slot_index(hash, cache_table.mask())],
                    hash,
                )).is_none() by {
                assert(0 <= slot_index(hash, cache_table.mask()) < cache_table@.len());
            }
        }
        LunaticSearchState {
            handler,
            board,
            history,
            halfmove_clock,
            options,
            evaluator: StandardEvaluator::default(),
            cache_table,
            killer_table,
            history_table: HistoryTable::new(),
            sel_depth: 0,
        }
    }

    /// Whether each of `moves` is legal where it is played, from `init_pos` on.
    pub fn can_play(init_pos: &Position, moves: &Vec<Move>) -> (r: bool)
        ensures
            r == playable(init_pos@, moves@),
    {
        let mut board: Position = *init_pos;
        let mut i: usize = 0;
        while i < moves.len()
            invariant
                i <= moves@.len(),
                board@ == position_at(init_pos@, moves@, i as int),
                forall|n: int|
                    0 <= n < i ==> legal_moves_of(#[trigger] position_at(init_pos@, moves@, n)).contains(
                        moves@[n],
                    ),
            decreases moves@.len() - i,
        {
            match board.try_move(moves[i]) {
                Some(child) => {
                    board = child;
                },
                None => {
                    return false;
                },
            }
            i = i + 1;
        }
        true
    }

    /// The same search as `new` makes, or `None` if one of `moves` is not
    /// legal where it is played.
    pub fn try_new(handler: H, init_pos: &Position, moves: Vec<Move>, options: SearchOptions) -> (r:
        Option<Self>)
        ensures
            r.is_some() == playable(init_pos@, moves@),
            match r {
                Some(state) => {
                    &&& state.wf()
                    &&& state.root() == position_at(init_pos@, moves@, moves@.len() as int)
                    &&& state.history() == history_at(init_pos@, moves@, moves@.len() as int)
                    &&& state.clock() == clock_of(state.history())
                    &&& state.options() == options
                    &&& state.host() == handler
                    &&& state.evaluator() == standard_values()
                    &&& forall|hash: u64| (#[trigger] state.entry_for(hash)).is_none()
                    &&& state.killers().len() == options.max_depth
                    &&& forall|ply: int|
                        0 <= ply < state.killers().len() ==> (#[trigger] state.killers()[ply]).len()
                            == 0
                    &&& forall|i: int|
                        0 <= i < state.counters().len() ==> state.counters()[i] == 0
                    &&& state.deepest() == 0
                },
                None => true,
            },
    {
        if Self::can_play(init_pos, &moves) {
            Some(Self::new(handler, init_pos, moves, options))
        } else {
            None
        }
    }

    /// A search with the evaluator `evaluator` in place of the one it had.
    pub fn with_evaluator(self, evaluator: StandardEvaluator) -> (r: Self)
        requires
            self.wf(),
        ensures
            r.wf(),
            r.evaluator() == evaluator,
            r.root() == self.root(),
            r.history() == self.history(),
            r.clock() == self.clock(),
            r.options() == self.options(),
            r.host() == self.host(),
            forall|hash: u64| r.entry_for(hash) == self.entry_for(hash),
            r.killers() == self.killers(),
            r.counters() == self.counters(),
            r.deepest() == self.deepest(),
    {
        let mut state = self;
        state.evaluator = evaluator;
        state
    }

    /// The host that was given to the search.
    pub fn handler(&self) -> (r: &H)
        ensures
            *r == self.host(),
    {
        &self.handler
    }

    /// The position that the search starts from.
    pub fn board(&self) -> (r: &Position)
        ensures
            r@ == self.root(),
    {
        &self.board
    }

    /// The hashes of the positions since the last irreversible move, the
    /// root's last.
    pub fn game_history(&self) -> (r: &Vec<u64>)
        ensures
            r@ == self.history(),
    {
        &self.history
    }

    /// The plies since the last pawn move or capture at the root.
    pub fn halfmove_clock(&self) -> (r: u8)
        ensures
            r == self.clock(),
    {
        self.halfmove_clock
    }

    /// The options that the search was made with.
    pub fn search_options(&self) -> (r: SearchOptions)
        ensures
            r == self.options(),
    {
        self.options
    }

    /// Takes the search apart and gives the host back.
    pub fn into_handler(self) -> (r: H)
        ensures
            r == self.host(),
    {
        self.handler
    }

    /// The line that the cache holds from the root on, beginning with `mv`:
    /// it follows the best moves of the cache until a position is drawn by
    /// rule, has no entry, or has one whose move is not legal there.
    #[verifier::rlimit(30)]
    fn principal_variation(&mut self, mv: Move) -> (r: Vec<Move>)
        requires
            old(self).wf(),
            legal_moves_of(old(self).board@).contains(mv),
        ensures
            final(self).wf(),
            final(self).same_setup(old(self)),
            final(self).history@ == old(self).history@,
            final(self).sel_depth == old(self).sel_depth,
            final(self).same_tables(old(self)),
            playable(final(self).board@, r@),
            1 <= r@.len() <= 255,
            r@[0] == mv,
            r@ == line_of(
                old(self).cache(),
                old(self).cache_mask(),
                old(self).history@,
                old(self).board@,
                old(self).halfmove_clock as int,
                Some(mv),
                255,
            ),
    {
        let ghost whole = line_of(
            self.cache(),
            self.cache_mask(),
            self.history@,
            self.board@,
            self.halfmove_clock as int,
            Some(mv),
            255,
        );
        let history_len: usize = self.history.len();
        let mut line: Vec<Move> = Vec::new();
        let mut board: Position = self.board;
        let mut halfmove_clock: u8 = self.halfmove_clock;
        let mut next_move: Option<Move> = Some(mv);
        while next_move.is_some() && line.len() < 255
            invariant
                self.wf(),
                self.same_setup(old(self)),
                self.same_tables(old(self)),
                self.sel_depth == old(self).sel_depth,
                extends(self.history@, old(self).history@),
                history_len == old(self).history@.len(),
                line@.len() <= 255,
                board@ == position_at(self.board@, line@, line@.len() as int),
                playable(self.board@, line@),
                line@.len() == 0 ==> next_move == Some(mv),
                line@.len() > 0 ==> line@[0] == mv,
                legal_moves_of(self.board@).contains(mv),
                whole == line@ + line_of(
                    old(self).cache(),
                    old(self).cache_mask(),
                    self.history@,
                    board@,
                    halfmove_clock as int,
                    next_move,
                    (255 - line@.len()) as nat,
                ),
            decreases 255 - line@.len(), (if next_move.is_some() { 1int } else { 0int }),
        {
            let candidate = match next_move {
                Some(m) => m,
                None => mv,
            };
            let position = board.position();
            let ghost rest = line_of(
                old(self).cache(),
                old(self).cache_mask(),
                self.history@,
                board@,
                halfmove_clock as int,
                next_move,
                (255 - line@.len()) as nat,
            );
            match board.try_move(candidate) {
                Some(child) => {
                    let ghost tail = line_of(
                        old(self).cache(),
                        old(self).cache_mask(),
                        self.history@.push(child@.hash),
                        child@,
                        next_clock(resets_clock(board@, candidate), halfmove_clock as int) as int,
                        follows(
                            old(self).cache(),
                            old(self).cache_mask(),
                            self.history@.push(child@.hash),
                            child@,
                            next_clock(resets_clock(board@, candidate), halfmove_clock as int)
                                as int,
                        ),
                        (254 - line@.len()) as nat,
                    );
                    proof {
                        assert(rest == seq![candidate] + tail);
                        assert(line@ + (seq![candidate] + tail) =~= line@.push(candidate) + tail);
                    }
                    halfmove_clock = child_clock(
                        move_resets_fifty_move_rule(candidate, &position),
                        halfmove_clock,
                    );
                    let ghost before = line@;
                    line.push(candidate);
                    proof {
                        lemma_position_at_prefix(self.board@, before, line@, before.len() as int);
                        assert forall|n: int| 0 <= n < line@.len() implies legal_moves_of(
                            #[trigger] position_at(self.board@, line@, n),
                        ).contains(line@[n]) by {
                            lemma_position_at_prefix(self.board@, before, line@, n);
                        }
                    }
                    board = child;
                    self.history.push(board.hash());
                    let child_position = board.position();
                    next_move = if draw_by_move_rule(&child_position, &self.history, halfmove_clock) {
                        None
                    } else {
                        match self.cached(&board) {
                            Some(entry) => Some(entry.best_move),
                            None => None,
                        }
                    };
                },
                None => {
                    proof {
                        assert(rest =~= Seq::<Move>::empty());
                    }
                    next_move = None;
                },
            }
        }
        self.history.truncate(history_len);
        proof {
            assert(self.history@ =~= old(self).history@);
            assert(whole =~= line@);
        }
        line
    }

    /// Searches the root to `depth` plies and counts the nodes in `nodes`.
    /// The result is what the iteration found, or nothing where it ended
    /// without a best move; `NoMoves` if the root has no legal move; or
    /// `Terminated` once the host says that time is up. The history is left
    /// as it was found.
    ///
    /// Where the cache holds nothing deep enough for the root, the result is
    /// the tally of the root's moves, and a mate in one is found if there is
    /// one.
    #[verifier::rlimit(30)]
    pub fn deepen(&mut self, depth: u8, nodes: &mut u32) -> (r: Result<
        Option<SearchResult>,
        SearchError,
    >)
        requires
            old(self).wf(),
        ensures
            final(self).wf(),
            final(self).same_setup(old(self)),
            final(self).history() == old(self).history(),
            final(self).root() == old(self).root(),
            final(self).clock() == old(self).clock(),
            final(self).options() == old(self).options(),
            final(self).evaluator() == old(self).evaluator(),
            final(self).deepest() >= old(self).deepest(),
            *final(nodes) >= *old(nodes),
            node_rests(
                old(self).cache(),
                old(self).cache_mask(),
                old(self).history(),
                old(self).root(),
                old(self).clock() as int,
                depth,
                0,
                Evaluation((-MAX_SCORE) as i32),
                Evaluation(MAX_SCORE),
                true,
            ) ==> final(self).same_tables(old(self)) && r != Err::<
                Option<SearchResult>,
                SearchError,
            >(SearchError::Terminated),
            match r {
                Ok(Some(result)) => {
                    &&& result.depth == depth
                    &&& node_result(
                        old(self).cache(),
                        old(self).cache_mask(),
                        old(self).evaluator(),
                        old(self).options(),
                        old(self).history(),
                        old(self).root(),
                        old(self).clock() as int,
                        depth,
                        0,
                        Evaluation((-MAX_SCORE) as i32),
                        Evaluation(MAX_SCORE),
                        true,
                        result.value,
                        Some(result.mv),
                        final(self).entry_for(old(self).root().hash),
                    )
                    &&& result.sel_depth == final(self).deepest()
                    &&& result.nodes == *final(nodes)
                    &&& result.value.is_balanced()
                    &&& legal_moves_of(old(self).root()).contains(result.mv)
                    &&& result.principal_variation@.len() >= 1
                    &&& result.principal_variation@[0] == result.mv
                    &&& playable(old(self).root(), result.principal_variation@)
                    &&& result.principal_variation@ == line_of(
                        final(self).cache(),
                        final(self).cache_mask(),
                        old(self).history(),
                        old(self).root(),
                        old(self).clock() as int,
                        Some(result.mv),
                        255,
                    )
                    &&& result.transposition_table_entries <= result.transposition_table_size
                    &&& inner(result.value)
                    &&& no_deep_entry(
                        old(self).entry_for(old(self).root().hash),
                        old(self).root(),
                        depth,
                    ) && depth > 0 ==> tally_outcome(
                        old(self).history(),
                        old(self).root(),
                        old(self).clock() as int,
                        0,
                        Evaluation((-MAX_SCORE) as i32),
                        Evaluation(MAX_SCORE),
                        result.value,
                        Some(result.mv),
                    ) && forall|mate: Move| #[trigger]
                        mates(
                            old(self).history(),
                            old(self).root(),
                            old(self).clock() as int,
                            mate,
                        ) ==> result.value.value() == mate_score(1)
                },
                Ok(None) => legal_moves_of(old(self).root()).len() > 0 && !(depth > 0
                    && no_deep_entry(
                    old(self).entry_for(old(self).root().hash),
                    old(self).root(),
                    depth,
                )) && exists|value: Evaluation| #[trigger]
                    node_result(
                        old(self).cache(),
                        old(self).cache_mask(),
                        old(self).evaluator(),
                        old(self).options(),
                        old(self).history(),
                        old(self).root(),
                        old(self).clock() as int,
                        depth,
                        0,
                        Evaluation((-MAX_SCORE) as i32),
                        Evaluation(MAX_SCORE),
                        true,
                        value,
                        None,
                        final(self).entry_for(old(self).root().hash),
                    ),
                Err(error) => if legal_moves_of(old(self).root()).len() == 0 {
                    error == SearchError::NoMoves
                } else {
                    error == SearchError::Terminated
                },
            },
    {
        let history_len: usize = self.history.len();
        let evaluator: StandardEvaluator = self.evaluator;
        let board: Position = self.board;
        let root_moves = board.legal_moves();
        if root_moves.len() == 0 {
            return Err(SearchError::NoMoves);
        }
        let result = self.search_position(
            &evaluator,
            &board,
            nodes,
            depth,
            0,
            self.halfmove_clock,
            Evaluation::lowest(),
            Evaluation::highest(),
            true,
        );
        self.history.truncate(history_len);
        proof {
            assert(self.history@ =~= old(self).history@);
        }
        match result {
            Ok((value, Some(mv))) => {
                let principal_variation = self.principal_variation(mv);
                proof {
                    lemma_taken_bounds(self.cache_table@);
                    if depth > 0 && no_deep_entry(
                        old(self).entry_for(old(self).root().hash),
                        old(self).root(),
                        depth,
                    ) {
                        assert forall|mate: Move| #[trigger]
                            mates(
                                old(self).history(),
                                old(self).root(),
                                old(self).clock() as int,
                                mate,
                            ) implies value.value() == mate_score(1) by {
                            lemma_mate_in_one_is_found(
                                old(self).history(),
                                old(self).root(),
                                old(self).clock() as int,
                                0,
                                value,
                                Some(mv),
                                mate,
                            );
                        }
                    }
                }
                Ok(
                    Some(
                        SearchResult {
                            mv,
                            value,
                            nodes: *nodes,
                            depth,
                            sel_depth: self.sel_depth,
                            principal_variation,
                            transposition_table_size: self.cache_table.capacity(),
                            transposition_table_entries: self.cache_table.len(),
                        },
                    ),
                )
            },
            Ok((value, None)) => {
                proof {
                    let entry = usable(
                        old(self).entry_for(old(self).root().hash),
                        old(self).root(),
                        true,
                    );
                    if depth > 0 && no_deep_entry(
                        old(self).entry_for(old(self).root().hash),
                        old(self).root(),
                        depth,
                    ) {
                        let least = Evaluation((-MAX_SCORE) as i32);
                        let most = Evaluation(MAX_SCORE);
                        assert(!probed(
                            entry,
                            extended(old(self).root(), depth),
                            least.value(),
                            most.value(),
                        ).0);
                        assert(narrowed(entry, extended(old(self).root(), depth), least, most).1
                            == most);
                        assert(!node_quiet(old(self).root(), depth, 0));
                        assert(inner(value));
                        assert(false);
                    }
                    assert(node_result(
                        old(self).cache(),
                        old(self).cache_mask(),
                        old(self).evaluator(),
                        old(self).options(),
                        old(self).history(),
                        old(self).root(),
                        old(self).clock() as int,
                        depth,
                        0,
                        Evaluation((-MAX_SCORE) as i32),
                        Evaluation(MAX_SCORE),
                        true,
                        value,
                        None,
                        self.entry_for(old(self).root().hash),
                    ));
                }
                Ok(None)
            },
            Err(_) => Err(SearchError::Terminated),
        }
    }

    /// Searches the root one ply deeper after another, up to the greatest
    /// depth of the options, and hands the result of each finished iteration
    /// to the host. It ends with `NoMoves` if the root has no legal move, with
    /// `Terminated` once the host says that time is up, and else with
    /// `MaxDepth`. The history is left as it was found.
    pub fn search(&mut self) -> (r: SearchError)
        requires
            old(self).wf(),
        ensures
            final(self).wf(),
            final(self).same_setup(old(self)),
            final(self).history() == old(self).history(),
            final(self).root() == old(self).root(),
            final(self).clock() == old(self).clock(),
            final(self).options() == old(self).options(),
            final(self).evaluator() == old(self).evaluator(),
            final(self).deepest() >= old(self).deepest(),
            (r == SearchError::NoMoves) == (legal_moves_of(old(self).root()).len() == 0),
            r == SearchError::NoMoves ==> final(self).same_tables(old(self)),
            old(self).options().max_depth == 0 && legal_moves_of(old(self).root()).len() > 0 ==> r
                == SearchError::MaxDepth,
    {
        if self.board.legal_moves().len() == 0 {
            return SearchError::NoMoves;
        }
        let mut nodes: u32 = 0;
        let mut depth: u8 = 0;
        while depth < self.options.max_depth
            invariant
                self.wf(),
                self.same_setup(old(self)),
                self.history@ == old(self).history@,
                self.sel_depth >= old(self).sel_depth,
                legal_moves_of(old(self).root()).len() > 0,
            decreases self.options.max_depth - depth,
        {
            depth = depth + 1;
            match self.deepen(depth, &mut nodes) {
                Ok(Some(result)) => {
                    self.handler.search_result(result);
                },
                Ok(None) => {},
                Err(error) => {
                    return error;
                },
            }
        }
        SearchError::MaxDepth
    }
}

} // verus!