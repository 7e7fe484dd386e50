//! Move ordering: the static exchange evaluation of captures, and the
//! generator that hands the moves of a position to the search in stages.

use vstd::prelude::*;
use vstd::multiset::Multiset;
use crate::bits::{holds, lowest_from, lowest_square, on, square_bit, lemma_nonempty_has_one};
use crate::board::{
    bishop_attacks, bishop_moves, king_attacks, king_moves, knight_attacks, knight_moves,
    pawn_attacks, pawn_moves, rook_attacks, rook_moves, Color, Move, Piece, Snapshot,
};
use crate::collections::{gain_items, killer_items, others, GainStack, KillerItem, KillerQueue};
use crate::history::HistoryTable;
use crate::table::{probe, slot_index, TranspositionTable};
use crate::evaluation::{Evaluation, MAX_CENTIPAWNS};
use crate::standard::{clamp_centipawns, StandardEvaluator};

verus! {

/// Where an exchange of captures on one square stands.
#[derive(Debug, Clone, Copy, PartialEq, Eq, Structural)]
pub struct Exchange {
    /// The pieces still on the board.
    pub blockers: u64,
    /// The white pieces that bear on the square.
    pub white: u64,
    /// The black pieces that bear on the square.
    pub black: u64,
    /// The side that captures next.
    pub mover: Color,
    /// The value of what stands on the square.
    pub prize: i32,
    /// The square of the piece that captures next.
    pub attacker: u8,
}

/// The rooks, bishops and queens that bear on `sq` along open lines.
pub open spec fn slider_guards(p: Snapshot, sq: u8, blockers: u64) -> u64 {
    (rook_attacks(sq, blockers) & (p.pieces[3] | p.pieces[4])) | (bishop_attacks(sq, blockers) & (
    p.pieces[2] | p.pieces[4]))
}

/// The pieces of `side` that bear on `sq` before anything is taken.
pub open spec fn first_guards(p: Snapshot, sq: u8, side: Color) -> u64 {
    p.colors[side.spec_index() as int] & ((king_attacks(sq) & p.pieces[5]) | (knight_attacks(sq)
        & p.pieces[1]) | slider_guards(p, sq, p.occupied()) | (pawn_attacks(
        sq,
        side == Color::Black,
        p.occupied(),
    ) & p.pieces[0]))
}

/// The square of the least valuable piece in `set`, the lowest square
/// first, or `fallback` where `set` holds no piece.
pub open spec fn least_attacker(p: Snapshot, set: u64, fallback: u8) -> u8 {
    if set & p.pieces[0] != 0 {
        lowest_from(set & p.pieces[0], 0) as u8
    } else if set & p.pieces[1] != 0 {
        lowest_from(set & p.pieces[1], 0) as u8
    } else if set & p.pieces[2] != 0 {
        lowest_from(set & p.pieces[2], 0) as u8
    } else if set & p.pieces[3] != 0 {
        lowest_from(set & p.pieces[3], 0) as u8
    } else if set & p.pieces[4] != 0 {
        lowest_from(set & p.pieces[4], 0) as u8
    } else if set & p.pieces[5] != 0 {
        lowest_from(set & p.pieces[5], 0) as u8
    } else {
        fallback
    }
}

/// The value of the piece on `sq`, or `empty` where none stands there.
pub open spec fn value_on(ev: StandardEvaluator, p: Snapshot, sq: u8, empty: i32) -> i32 {
    match p.piece_at(sq as int) {
        Some(piece) => ev.piece_values.of(piece),
        None => empty,
    }
}

/// The exchange that `capture` opens: it takes what stands on its
/// destination, or a pawn where the destination is empty (en passant).
pub open spec fn first_exchange(ev: StandardEvaluator, p: Snapshot, capture: Move) -> Exchange {
    Exchange {
        blockers: p.occupied(),
        white: first_guards(p, capture.dest, Color::White),
        black: first_guards(p, capture.dest, Color::Black),
        mover: p.side_to_move,
        prize: value_on(ev, p, capture.dest, ev.piece_values.pawn),
        attacker: capture.source,
    }
}

/// The exchange after the capture that `x` has ready: the capturing piece
/// leaves its square, the sliders behind it join in, its own value is the new
/// prize, and the other side's least valuable piece is to capture next.
pub open spec fn after_capture(ev: StandardEvaluator, p: Snapshot, sq: u8, x: Exchange) -> Exchange {
    let bit = 1u64 << (x.attacker as u64);
    let blockers = x.blockers ^ bit;
    let guards = slider_guards(p, sq, blockers);
    let white = (if x.mover == Color::White {
        x.white ^ bit
    } else {
        x.white
    }) | (p.colors[0] & blockers & guards);
    let black = (if x.mover == Color::Black {
        x.black ^ bit
    } else {
        x.black
    }) | (p.colors[1] & blockers & guards);
    Exchange {
        blockers,
        white,
        black,
        mover: x.mover.spec_other(),
        prize: value_on(ev, p, x.attacker, 0),
        attacker: least_attacker(
            p,
            if x.mover == Color::White {
                black
            } else {
                white
            },
            x.attacker,
        ),
    }
}

/// Whether the side that is to capture has a piece to do it with.
pub open spec fn can_capture(x: Exchange) -> bool {
    (if x.mover == Color::White {
        x.white
    } else {
        x.black
    }) != 0
}

/// What the capture that `x` has ready wins for the side that makes it: the
/// prize, less whatever the other side wins by capturing back, which it does
/// only if that wins something. After `budget` more captures the exchange is
/// taken to end.
pub open spec fn exchange_value(
    ev: StandardEvaluator,
    p: Snapshot,
    sq: u8,
    x: Exchange,
    budget: nat,
) -> int
    decreases budget,
{
    let next = after_capture(ev, p, sq, x);
    if budget == 0 || !can_capture(next) {
        x.prize as int
    } else {
        let reply = exchange_value(ev, p, sq, next, (budget - 1) as nat);
        x.prize - if reply > 0 {
            reply
        } else {
            0
        }
    }
}

/// The static exchange evaluation of `capture`: what the side to move wins
/// or loses on the destination square if both sides keep capturing there
/// with their least valuable piece for as long as it pays.
pub open spec fn see_value(ev: StandardEvaluator, p: Snapshot, capture: Move) -> int {
    exchange_value(ev, p, capture.dest, first_exchange(ev, p, capture), 31)
}

fn piece_value_on(evaluator: &StandardEvaluator, board: &Snapshot, sq: u8, empty: i32) -> (r: i32)
    ensures
        r == value_on(*evaluator, *board, sq, empty),
{
    match board.piece_on(sq) {
        Some(piece) => *evaluator.piece_values.get(piece),
        None => empty,
    }
}

fn sliders_on(board: &Snapshot, sq: u8, blockers: u64) -> (r: u64)
    requires
        sq < 64,
    ensures
        r == slider_guards(*board, sq, blockers),
{
    (rook_moves(sq, blockers) & (board.pieces[3] | board.pieces[4])) | (bishop_moves(sq, blockers)
        & (board.pieces[2] | board.pieces[4]))
}

fn guards_of(board: &Snapshot, sq: u8, side: Color) -> (r: u64)
    requires
        sq < 64,
    ensures
        r == first_guards(*board, sq, side),
{
    let blockers: u64 = board.combined();
    board.color_combined(side) & ((king_moves(sq) & board.pieces[5]) | (knight_moves(sq)
        & board.pieces[1]) | sliders_on(board, sq, blockers) | (pawn_moves(
        sq,
        side == Color::Black,
        blockers,
    ) & board.pieces[0]))
}

fn pick_attacker(board: &Snapshot, set: u64, fallback: u8) -> (r: u8)
    requires
        fallback < 64,
    ensures
        r == least_attacker(*board, set, fallback),
        r < 64,
{
    let mut k: usize = 0;
    while k < 6
        invariant
            k <= 6,
            forall|j: int| 0 <= j < k ==> set & #[trigger] board.pieces[j] == 0,
        decreases 6 - k,
    {
        let candidates: u64 = set & board.pieces[k];
        if candidates != 0 {
            proof {
                lemma_nonempty_has_one(candidates);
            }
            return lowest_square(candidates);
        }
        k = k + 1;
    }
    fallback
}

fn open_exchange(evaluator: &StandardEvaluator, board: &Snapshot, capture: Move) -> (r: Exchange)
    requires
        capture.on_board(),
    ensures
        r == first_exchange(*evaluator, *board, capture),
        r.attacker < 64,
{
    Exchange {
        blockers: board.combined(),
        white: guards_of(board, capture.dest, Color::White),
        black: guards_of(board, capture.dest, Color::Black),
        mover: board.side_to_move,
        prize: piece_value_on(evaluator, board, capture.dest, evaluator.piece_values.pawn),
        attacker: capture.source,
    }
}

fn advance(evaluator: &StandardEvaluator, board: &Snapshot, sq: u8, x: &Exchange) -> (r: Exchange)
    requires
        sq < 64,
        x.attacker < 64,
    ensures
        r == after_capture(*evaluator, *board, sq, *x),
        r.attacker < 64,
{
    let bit: u64 = square_bit(x.attacker);
    let blockers: u64 = x.blockers ^ bit;
    let guards: u64 = sliders_on(board, sq, blockers);
    let white: u64 = (if x.mover == Color::White {
        x.white ^ bit
    } else {
        x.white
    }) | (board.colors[0] & blockers & guards);
    let black: u64 = (if x.mover == Color::Black {
        x.black ^ bit
    } else {
        x.black
    }) | (board.colors[1] & blockers & guards);
    let theirs: u64 = if x.mover == Color::White {
        black
    } else {
        white
    };
    Exchange {
        blockers,
        white,
        black,
        mover: x.mover.other(),
        prize: piece_value_on(evaluator, board, x.attacker, 0),
        attacker: pick_attacker(board, theirs, x.attacker),
    }
}

fn has_capture(x: &Exchange) -> (r: bool)
    ensures
        r == can_capture(*x),
{
    (if x.mover == Color::White {
        x.white
    } else {
        x.black
    }) != 0
}

/// The gain that each capture of a run adds: its prize less the gain before it.
spec fn gains_follow(gains: Seq<i64>, states: Seq<Exchange>) -> bool {
    forall|j: int|
        0 <= j < gains.len() ==> #[trigger] gains[j] == states[j].prize - if j > 0 {
            gains[j - 1] as int
        } else {
            0
        }
}

/// Each state of a run comes from the one before it by a capture that the
/// other side can answer.
spec fn states_follow(ev: StandardEvaluator, p: Snapshot, sq: u8, states: Seq<Exchange>) -> bool {
    forall|j: int|
        0 <= j < states.len() - 1 ==> #[trigger] states[j + 1] == after_capture(ev, p, sq, states[j])
            && can_capture(states[j + 1])
}

/// The static exchange evaluation of `capture`, brought into the centipawn band.
pub fn static_exchange_evaluation(
    evaluator: &StandardEvaluator,
    board: &Snapshot,
    capture: Move,
) -> (r: Evaluation)
    requires
        capture.on_board(),
    ensures
        r.value() == clamp_centipawns(see_value(*evaluator, *board, capture)),
{
    let sq: u8 = capture.dest;
    let mut x: Exchange = open_exchange(evaluator, board, capture);
    let mut gains = GainStack::new();
    let mut last_gain: i64 = 0;
    let mut steps: usize = 0;
    let ghost mut states: Seq<Exchange> = seq![x];
    loop
        invariant_except_break
            steps < 32,
            states.len() == steps + 1,
            gain_items(gains).len() == steps,
        invariant
            sq == capture.dest,
            sq < 64,
            x.attacker < 64,
            steps <= 32,
            states.len() > 0,
            states[0] == first_exchange(*evaluator, *board, capture),
            x == states.last(),
            states_follow(*evaluator, *board, sq, states),
            gains_follow(gain_items(gains), states),
            last_gain == if steps > 0 {
                gain_items(gains)[steps - 1]
            } else {
                0
            },
            forall|j: int|
                0 <= j < gain_items(gains).len() ==> -0x8000_0000 * (j + 1) <= #[trigger] gain_items(
                    gains,
                )[j] <= 0x8000_0000 * (j + 1),
        ensures
            1 <= steps <= 32,
            states.len() == steps,
            gain_items(gains).len() == steps,
            steps == 32 || !can_capture(after_capture(*evaluator, *board, sq, states.last())),
        decreases 32 - steps,
    {
        let gain: i64 = x.prize as i64 - last_gain;
        let ghost before = gain_items(gains);
        gains.push(gain);
        last_gain = gain;
        steps = steps + 1;
        let next: Exchange = advance(evaluator, board, sq, &x);
        if steps == 32 || !has_capture(&next) {
            break ;
        }
        x = next;
        proof {
            let ghost earlier = states;
            states = states.push(next);
            assert forall|j: int| 0 <= j < states.len() - 1 implies #[trigger] states[j + 1]
                == after_capture(*evaluator, *board, sq, states[j]) && can_capture(
                states[j + 1],
            ) by {
                if j < earlier.len() - 1 {
                    assert(earlier[j + 1] == after_capture(*evaluator, *board, sq, earlier[j]));
                }
            }
        }
    }
    let ghost all_gains = gain_items(gains);
    let ghost last: int = steps - 1;
    let mut top: i64 = match gains.pop() {
        Some(gain) => gain,
        None => 0,
    };
    let ghost mut j: int = last;
    assert(exchange_value(*evaluator, *board, sq, states[last], (31 - last) as nat)
        == states[last].prize);
    while gains.len() > 0
        invariant
            0 <= j <= last < 32,
            states.len() == last + 1,
            all_gains.len() == last + 1,
            gain_items(gains) == all_gains.take(j),
            states_follow(*evaluator, *board, sq, states),
            gains_follow(all_gains, states),
            top == exchange_value(*evaluator, *board, sq, states[j], (31 - j) as nat) - if j > 0 {
                all_gains[j - 1] as int
            } else {
                0
            },
            -0x10_0000_0000 <= top <= 0x10_0000_0000,
            forall|i: int|
                0 <= i < all_gains.len() ==> -0x8000_0000 * (i + 1) <= #[trigger] all_gains[i]
                    <= 0x8000_0000 * (i + 1),
        decreases gain_items(gains).len(),
    {
        let below: i64 = match gains.pop() {
            Some(gain) => gain,
            None => 0,
        };
        proof {
            assert(below == all_gains[j - 1]);
            assert(states[j - 1 + 1] == after_capture(*evaluator, *board, sq, states[j - 1]));
            assert(all_gains.take(j).drop_last() =~= all_gains.take(j - 1));
        }
        top = if top > -below {
            -top
        } else {
            below
        };
        proof {
            j = j - 1;
        }
    }
    if top > MAX_CENTIPAWNS as i64 {
        Evaluation::from_centipawns(MAX_CENTIPAWNS)
    } else if top < -(MAX_CENTIPAWNS as i64) {
        Evaluation::from_centipawns(-MAX_CENTIPAWNS)
    } else {
        Evaluation::from_centipawns(top as i32)
    }
}

/// What the killer queue holds of `mv`.
pub open spec fn killer_item(mv: Move) -> KillerItem {
    (
        mv.source,
        mv.dest,
        match mv.promotion {
            None => 0u8,
            Some(piece) => (piece.spec_index() + 1) as u8,
        },
    )
}

/// The move that a killer item stands for.
pub open spec fn killer_move(item: KillerItem) -> Move {
    Move {
        source: item.0,
        dest: item.1,
        promotion: if item.2 == 0 {
            None
        } else {
            Some(Piece::spec_from_index((item.2 - 1) as usize))
        },
    }
}

pub fn item_of(mv: Move) -> (r: KillerItem)
    ensures
        r == killer_item(mv),
        killer_move(r) == mv,
{
    (
        mv.source,
        mv.dest,
        match mv.promotion {
            None => 0u8,
            Some(piece) => (piece.index() + 1) as u8,
        },
    )
}

pub fn move_of(item: KillerItem) -> (r: Move)
    ensures
        r == killer_move(item),
{
    Move {
        source: item.0,
        dest: item.1,
        promotion: if item.2 == 0 {
            None
        } else {
            Some(Piece::from_index((item.2 - 1) as usize))
        },
    }
}

/// The queue after `item` became its newest killer move: the item is taken
/// out where it stood, goes to the back, and pushes the oldest one out of a
/// queue that held two others.
pub open spec fn with_killer(items: Seq<KillerItem>, item: KillerItem) -> Seq<KillerItem> {
    let rest = others(items, item);
    if rest.len() < 2 {
        rest.push(item)
    } else {
        rest.drop_first().push(item)
    }
}

/// The queue after each of the first `n` of `moves` became its newest
/// killer move in turn.
pub open spec fn with_killers(moves: Seq<Move>, n: int) -> Seq<KillerItem>
    decreases n,
{
    if n <= 0 {
        Seq::<KillerItem>::empty()
    } else {
        with_killer(with_killers(moves, n - 1), killer_item(moves[n - 1]))
    }
}

/// Makes `mv` the newest killer move of the queue.
pub fn add_killer(killers: &mut KillerQueue, mv: Move)
    ensures
        killer_items(*final(killers)) == with_killer(killer_items(*old(killers)), killer_item(mv)),
{
    killers.remove(item_of(mv));
    let _ = killers.push_back(item_of(mv));
}

/// A queue in which each of `moves` became the newest killer move in turn:
/// it holds the last two different ones of them.
pub fn killers_of(moves: &Vec<Move>) -> (r: KillerQueue)
    ensures
        killer_items(r) == with_killers(moves@, moves@.len() as int),
{
    let mut killers = KillerQueue::new();
    let mut i: usize = 0;
    proof {
        assert(killer_items(killers) =~= Seq::<KillerItem>::empty());
    }
    while i < moves.len()
        invariant
            i <= moves@.len(),
            killer_items(killers) == with_killers(moves@, i as int),
        decreases moves@.len() - i,
    {
        add_killer(&mut killers, moves[i]);
        i = i + 1;
    }
    killers
}

/// The killer moves of a queue, the oldest first.
pub fn killer_moves(killers: &KillerQueue) -> (r: Vec<Move>)
    ensures
        r@.len() == killer_items(*killers).len(),
        forall|i: int| 0 <= i < r@.len() ==> r@[i] == killer_move(killer_items(*killers)[i]),
{
    let mut rest = killers.copy();
    let mut moves: Vec<Move> = Vec::new();
    let ghost all = killer_items(*killers);
    let mut more: bool = true;
    while more
        invariant
            moves@.len() + killer_items(rest).len() == all.len(),
            forall|i: int| 0 <= i < moves@.len() ==> moves@[i] == killer_move(all[i]),
            killer_items(rest) == all.skip(moves@.len() as int),
            !more ==> killer_items(rest).len() == 0,
        decreases killer_items(rest).len(), (if more { 1int } else { 0int }),
    {
        let ghost n = moves@.len() as int;
        match rest.pop_front() {
            Some(item) => {
                moves.push(move_of(item));
                proof {
                    assert(all.skip(n)[0] == all[n]);
                    assert(all.skip(n).drop_first() =~= all.skip(n + 1));
                }
            },
            None => {
                more = false;
            },
        }
    }
    moves
}

/// Whether `mv` lands on an occupied square.
pub open spec fn is_capture(p: Snapshot, mv: Move) -> bool {
    on(p.occupied(), mv.dest as int)
}

/// The exchange value of `mv` as the generator sorts by it.
pub open spec fn see_of(ev: StandardEvaluator, p: Snapshot, mv: Move) -> int {
    clamp_centipawns(see_value(ev, p, mv))
}

/// The history counter that a quiet move is sorted by: that of the piece it
/// moves and of its destination, or zero where its source square is empty.
pub open spec fn history_of(history: &HistoryTable, p: Snapshot, mv: Move) -> u32 {
    match p.piece_at(mv.source as int) {
        Some(piece) => history.counter(p.side_to_move, piece, mv.dest as int),
        None => 0,
    }
}

/// Whether `mv` is left and lands on an empty square.
pub open spec fn is_quiet_left(p: Snapshot, left: Multiset<Move>, mv: Move) -> bool {
    left.count(mv) > 0 && !is_capture(p, mv)
}

/// The first of the killer moves `killers` that is left and lands on an
/// empty square.
pub open spec fn first_killer(p: Snapshot, left: Multiset<Move>, killers: Seq<KillerItem>) -> Option<
    Move,
>
    decreases killers.len(),
{
    if killers.len() == 0 {
        None
    } else if is_quiet_left(p, left, killer_move(killers[0])) {
        Some(killer_move(killers[0]))
    } else {
        first_killer(p, left, killers.drop_first())
    }
}

/// The multiset of one move or of none.
pub open spec fn optional(mv: Option<Move>) -> Multiset<Move> {
    match mv {
        Some(m) => Multiset::singleton(m),
        None => Multiset::empty(),
    }
}

/// Taking the item at `i` out of a sequence by putting the last one in its
/// place takes one copy of it out of the multiset.
pub proof fn lemma_swap_remove<A>(s: Seq<A>, i: int)
    requires
        0 <= i < s.len(),
    ensures
        s.update(i, s.last()).drop_last().to_multiset() == s.to_multiset().remove(s[i]),
{
    broadcast use vstd::multiset::group_multiset_axioms;
    broadcast use vstd::seq_lib::group_to_multiset_ensures;

    let last = s.last();
    let u = s.update(i, last);
    let d = u.drop_last();
    vstd::seq_lib::to_multiset_update(s, i, last);
    assert(u =~= d.push(last));
    vstd::seq_lib::to_multiset_build(d, last);
    assert(u.to_multiset() == d.to_multiset().insert(last));
    assert(s.contains(s[i]));
    assert(s.to_multiset().count(s[i]) > 0);
    assert forall|a: A| d.to_multiset().count(a) == s.to_multiset().remove(s[i]).count(a) by {
        assert(u.to_multiset().count(a) == d.to_multiset().insert(last).count(a));
        assert(u.to_multiset().count(a) == s.to_multiset().insert(last).remove(s[i]).count(a));
    }
    assert(d.to_multiset() =~= s.to_multiset().remove(s[i]));
}

/// Hands out the moves of a position one by one: first the move that the
/// cache holds for the position, then the captures that lose nothing, best
/// first, then the killer moves, then the quiet moves by their history
/// counters, and last the losing captures.
pub struct SortedMoveGenerator<'s> {
    evaluator: &'s StandardEvaluator,
    board: Snapshot,
    pv_move: Option<Move>,
    sorted: bool,
    capture_moves: Vec<Move>,
    capture_values: Vec<i32>,
    killers: KillerQueue,
    quiets: Vec<Move>,
    moves: Vec<Move>,
}

impl<'s> SortedMoveGenerator<'s> {
    /// The move of the cache, while it has not been handed out.
    pub closed spec fn pv(&self) -> Option<Move> {
        self.pv_move
    }

    pub closed spec fn board(&self) -> Snapshot {
        self.board
    }

    pub closed spec fn evaluator(&self) -> StandardEvaluator {
        *self.evaluator
    }

    /// The killer moves that have not been tried.
    pub closed spec fn killers(&self) -> Seq<KillerItem> {
        killer_items(self.killers)
    }

    /// The moves that have not been handed out.
    pub closed spec fn remaining(&self) -> Multiset<Move> {
        optional(self.pv_move).add(self.moves@.to_multiset()).add(
            self.capture_moves@.to_multiset(),
        ).add(self.quiets@.to_multiset())
    }

    pub closed spec fn wf(&self) -> bool {
        &&& forall|i: int| 0 <= i < self.moves@.len() ==> (#[trigger] self.moves@[i]).on_board()
        &&& forall|i: int| 0 <= i < self.quiets@.len() ==> (#[trigger] self.quiets@[i]).on_board()
        &&& forall|i: int|
            0 <= i < self.quiets@.len() ==> !is_capture(self.board, #[trigger] self.quiets@[i])
        &&& self.capture_moves@.len() == self.capture_values@.len()
        &&& forall|i: int|
            0 <= i < self.capture_moves@.len() ==> (#[trigger] self.capture_moves@[i]).on_board()
                && is_capture(self.board, self.capture_moves@[i]) && self.capture_values@[i]
                == see_of(*self.evaluator, self.board, self.capture_moves@[i])
        &&& self.sorted ==> self.moves@.len() == 0
        &&& !self.sorted ==> self.capture_moves@.len() == 0 && self.quiets@.len() == 0
        &&& match self.pv_move {
            Some(m) => m.on_board(),
            None => true,
        }
    }

    /// A generator for the position `board`, whose moves are `moves`. The
    /// best move that `table` holds for the position comes first, if it is
    /// one of `moves`.
    #[verifier::loop_isolation(false)]
    pub fn new(
        table: &TranspositionTable,
        evaluator: &'s StandardEvaluator,
        killers: KillerQueue,
        board: Snapshot,
        moves: Vec<Move>,
    ) -> (r: Self)
        requires
            table.wf(),
            forall|i: int| 0 <= i < moves@.len() ==> (#[trigger] moves@[i]).on_board(),
        ensures
            r.wf(),
            r.board() == board,
            r.evaluator() == *evaluator,
            r.killers() == killer_items(killers),
            r.remaining() == moves@.to_multiset(),
            r.pv() == match probe(table@[slot_index(board.hash, table.mask())], board.hash) {
                Some(entry) => if moves@.contains(entry.best_move) {
                    Some(entry.best_move)
                } else {
                    None
                },
                None => None,
            },
    {
        broadcast use vstd::multiset::group_multiset_axioms;
        broadcast use vstd::seq_lib::group_to_multiset_ensures;

        let mut moves = moves;
        let mut pv_move: Option<Move> = None;
        let ghost all = moves@;
        match table.probe_hash(board.hash) {
            Some(entry) => {
                let mut i: usize = 0;
                while i < moves.len()
                    invariant
                        i <= moves@.len(),
                        moves@ == all,
                        forall|j: int| 0 <= j < i ==> moves@[j] != entry.best_move,
                    decreases moves@.len() - i,
                {
                    if moves[i] == entry.best_move {
                        break ;
                    }
                    i = i + 1;
                }
                if i < moves.len() {
                    let found = moves.remove(i);
                    pv_move = Some(found);
                    proof {
                        vstd::seq_lib::to_multiset_remove(all, i as int);
                        assert(all[i as int] == found);
                        assert(all.contains(found));
                        assert(all.to_multiset().count(found) > 0);
                        assert(optional(pv_move).add(moves@.to_multiset()) =~= all.to_multiset());
                    }
                } else {
                    assert(!all.contains(entry.best_move));
                }
            },
            None => {},
        }
        let r = SortedMoveGenerator {
            evaluator,
            board,
            pv_move,
            sorted: false,
            capture_moves: Vec::new(),
            capture_values: Vec::new(),
            killers,
            quiets: Vec::new(),
            moves,
        };
        proof {
            assert(r.capture_moves@.to_multiset() =~= Multiset::empty());
            assert(r.quiets@.to_multiset() =~= Multiset::empty());
            assert(r.remaining() =~= all.to_multiset());
        }
        r
    }

    /// Parts the moves into captures, each with its exchange value, and the rest.
    fn sort_out(&mut self)
        requires
            old(self).wf(),
            !old(self).sorted,
        ensures
            final(self).wf(),
            final(self).sorted,
            final(self).pv_move == old(self).pv_move,
            final(self).board == old(self).board,
            final(self).evaluator == old(self).evaluator,
            final(self).killers == old(self).killers,
            final(self).remaining() == old(self).remaining(),
    {
        broadcast use vstd::multiset::group_multiset_axioms;
        broadcast use vstd::seq_lib::group_to_multiset_ensures;

        let ghost all = self.moves@;
        let mut i: usize = 0;
        proof {
            assert(all.take(0) =~= Seq::<Move>::empty());
            assert(all.take(0).to_multiset() =~= Multiset::empty());
            assert(self.capture_moves@.to_multiset() =~= Multiset::empty());
            assert(self.quiets@.to_multiset() =~= Multiset::empty());
        }
        while i < self.moves.len()
            invariant
                i <= all.len(),
                self.moves@ == all,
                self.pv_move == old(self).pv_move,
                self.board == old(self).board,
                self.evaluator == old(self).evaluator,
                self.killers == old(self).killers,
                !self.sorted,
                forall|j: int| 0 <= j < all.len() ==> (#[trigger] all[j]).on_board(),
                forall|j: int| 0 <= j < self.quiets@.len() ==> (#[trigger] self.quiets@[j]).on_board(),
                forall|j: int|
                    0 <= j < self.quiets@.len() ==> !is_capture(self.board, #[trigger] self.quiets@[j]),
                self.capture_moves@.len() == self.capture_values@.len(),
                forall|j: int|
                    0 <= j < self.capture_moves@.len() ==> (#[trigger] self.capture_moves@[j]).on_board()
                        && is_capture(self.board, self.capture_moves@[j])
                        && self.capture_values@[j] == see_of(
                        *self.evaluator,
                        self.board,
                        self.capture_moves@[j],
                    ),
                all.take(i as int).to_multiset() == self.capture_moves@.to_multiset().add(
                    self.quiets@.to_multiset(),
                ),
            decreases all.len() - i,
        {
            let mv = self.moves[i];
            proof {
                assert(all.take(i + 1) =~= all.take(i as int).push(mv));
            }
            let ghost captures_before = self.capture_moves@;
            let ghost quiets_before = self.quiets@;
            if holds(self.board.combined(), mv.dest) {
                let value = static_exchange_evaluation(self.evaluator, &self.board, mv);
                self.capture_moves.push(mv);
                self.capture_values.push(value.0);
            } else {
                self.quiets.push(mv);
            }
            proof {
                vstd::seq_lib::to_multiset_build(all.take(i as int), mv);
                vstd::seq_lib::to_multiset_build(captures_before, mv);
                vstd::seq_lib::to_multiset_build(quiets_before, mv);
                assert(all.take(i + 1).to_multiset() =~= self.capture_moves@.to_multiset().add(
                    self.quiets@.to_multiset(),
                ));
            }
            i = i + 1;
        }
        self.moves.clear();
        self.sorted = true;
        proof {
            assert(all.take(all.len() as int) =~= all);
            assert(self.moves@.to_multiset() =~= Multiset::empty());
            assert(self.remaining() =~= old(self).remaining());
        }
    }

    /// The place of a capture of the greatest exchange value, the last of them.
    fn best_capture(&self) -> (r: Option<usize>)
        requires
            self.wf(),
        ensures
            match r {
                Some(i) => i < self.capture_moves@.len() && forall|j: int|
                    0 <= j < self.capture_values@.len() ==> #[trigger] self.capture_values@[j]
                        <= self.capture_values@[i as int],
                None => self.capture_moves@.len() == 0,
            },
    {
        if self.capture_values.len() == 0 {
            return None;
        }
        let mut best: usize = 0;
        let mut i: usize = 1;
        while i < self.capture_values.len()
            invariant
                1 <= i <= self.capture_values@.len(),
                best < i,
                forall|j: int|
                    0 <= j < i ==> #[trigger] self.capture_values@[j] <= self.capture_values@[best as int],
            decreases self.capture_values@.len() - i,
        {
            if self.capture_values[i] >= self.capture_values[best] {
                best = i;
            }
            i = i + 1;
        }
        Some(best)
    }

    /// Takes the capture at `i` out.
    fn take_capture(&mut self, i: usize) -> (mv: Move)
        requires
            old(self).wf(),
            old(self).sorted,
            i < old(self).capture_moves@.len(),
        ensures
            final(self).wf(),
            final(self).sorted,
            mv == old(self).capture_moves@[i as int],
            final(self).pv_move == old(self).pv_move,
            final(self).board == old(self).board,
            final(self).evaluator == old(self).evaluator,
            final(self).quiets == old(self).quiets,
            final(self).killers == old(self).killers,
            final(self).remaining() == old(self).remaining().remove(mv),
            old(self).remaining().count(mv) > 0,
    {
        broadcast use vstd::multiset::group_multiset_axioms;
        broadcast use vstd::seq_lib::group_to_multiset_ensures;

        proof {
            lemma_swap_remove(self.capture_moves@, i as int);
            assert(self.capture_moves@.contains(self.capture_moves@[i as int]));
        }
        let mv = self.capture_moves.swap_remove(i);
        let _ = self.capture_values.swap_remove(i);
        proof {
            assert(self.remaining() =~= old(self).remaining().remove(mv));
        }
        mv
    }

    /// Takes the quiet move at `i` out. With `keep_order` the moves behind it
    /// move up; else the last one takes its place.
    fn take_quiet(&mut self, i: usize, keep_order: bool) -> (mv: Move)
        requires
            old(self).wf(),
            old(self).sorted,
            i < old(self).quiets@.len(),
        ensures
            final(self).wf(),
            final(self).sorted,
            mv == old(self).quiets@[i as int],
            final(self).pv_move == old(self).pv_move,
            final(self).board == old(self).board,
            final(self).evaluator == old(self).evaluator,
            final(self).capture_moves == old(self).capture_moves,
            final(self).capture_values == old(self).capture_values,
            final(self).killers == old(self).killers,
            final(self).remaining() == old(self).remaining().remove(mv),
            old(self).remaining().count(mv) > 0,
    {
        broadcast use vstd::multiset::group_multiset_axioms;
        broadcast use vstd::seq_lib::group_to_multiset_ensures;

        proof {
            lemma_swap_remove(self.quiets@, i as int);
            vstd::seq_lib::to_multiset_remove(self.quiets@, i as int);
            assert(self.quiets@.contains(self.quiets@[i as int]));
        }
        let mv = if keep_order {
            self.quiets.remove(i)
        } else {
            self.quiets.swap_remove(i)
        };
        proof {
            assert(self.remaining() =~= old(self).remaining().remove(mv));
        }
        mv
    }

    /// The place of `mv` among the quiet moves.
    fn find_quiet(&self, mv: Move) -> (r: Option<usize>)
        ensures
            match r {
                Some(i) => i < self.quiets@.len() && self.quiets@[i as int] == mv,
                None => !self.quiets@.contains(mv),
            },
    {
        let mut i: usize = 0;
        while i < self.quiets.len()
            invariant
                i <= self.quiets@.len(),
                forall|j: int| 0 <= j < i ==> self.quiets@[j] != mv,
            decreases self.quiets@.len() - i,
        {
            if self.quiets[i] == mv {
                return Some(i);
            }
            i = i + 1;
        }
        None
    }

    /// The history counter that the quiet move `mv` is sorted by.
    fn history_key(&self, history_table: &HistoryTable, mv: Move) -> (r: u32)
        requires
            mv.on_board(),
        ensures
            r == history_of(history_table, self.board, mv),
    {
        match self.board.piece_on(mv.source) {
            Some(piece) => history_table.get(self.board.side_to_move, piece, mv.dest),
            None => 0,
        }
    }

    /// The place of a quiet move of the greatest history counter, the last of them.
    fn best_quiet(&self, history_table: &HistoryTable) -> (r: usize)
        requires
            self.wf(),
            self.quiets@.len() > 0,
        ensures
            r < self.quiets@.len(),
            forall|j: int|
                0 <= j < self.quiets@.len() ==> history_of(
                    history_table,
                    self.board,
                    #[trigger] self.quiets@[j],
                ) <= history_of(history_table, self.board, self.quiets@[r as int]),
    {
        let mut best: usize = 0;
        let mut best_key: u32 = self.history_key(history_table, self.quiets[0]);
        let mut i: usize = 1;
        while i < self.quiets.len()
            invariant
                self.wf(),
                1 <= i <= self.quiets@.len(),
                best < i,
                best_key == history_of(history_table, self.board, self.quiets@[best as int]),
                forall|j: int|
                    0 <= j < i ==> history_of(history_table, self.board, #[trigger] self.quiets@[j])
                        <= best_key,
            decreases self.quiets@.len() - i,
        {
            let key: u32 = self.history_key(history_table, self.quiets[i]);
            if key >= best_key {
                best = i;
                best_key = key;
            }
            i = i + 1;
        }
        best
    }

    /// The next move, or `None` when all have been handed out.
    ///
    /// Every move comes once. The move of the cache comes first. No capture
    /// comes while another one left has a greater exchange value; no other
    /// move comes while a capture is left that loses nothing; and a losing
    /// capture comes only when nothing but captures is left. Of the other
    /// moves the first killer move that is left comes first, and when no
    /// killer move is left, a move that no other one left beats by its
    /// history counter.
    #[verifier::loop_isolation(false)]
    pub fn next(&mut self, history_table: &HistoryTable) -> (r: Option<Move>)
        requires
            old(self).wf(),
        ensures
            final(self).wf(),
            final(self).board() == old(self).board(),
            final(self).evaluator() == old(self).evaluator(),
            final(self).pv().is_none(),
            match r {
                Some(mv) => mv.on_board() && old(self).remaining().count(mv) > 0
                    && final(self).remaining() == old(self).remaining().remove(mv),
                None => old(self).remaining().len() == 0 && final(self).remaining() == old(
                    self,
                ).remaining(),
            },
            old(self).pv().is_some() ==> r == old(self).pv(),
            old(self).pv().is_none() && r.is_some() ==> forall|m: Move|
                #![trigger is_capture(old(self).board(), m)]
                old(self).remaining().count(m) > 0 && is_capture(old(self).board(), m) ==> if is_capture(
                    old(self).board(),
                    r.unwrap(),
                ) {
                    see_of(old(self).evaluator(), old(self).board(), m) <= see_of(
                        old(self).evaluator(),
                        old(self).board(),
                        r.unwrap(),
                    )
                } else {
                    see_of(old(self).evaluator(), old(self).board(), m) < 0
                },
            old(self).pv().is_none() && r.is_some() && is_capture(old(self).board(), r.unwrap())
                && see_of(old(self).evaluator(), old(self).board(), r.unwrap()) < 0 ==> forall|
                m: Move,
            |
                #![trigger is_capture(old(self).board(), m)]
                old(self).remaining().count(m) > 0 ==> is_capture(old(self).board(), m),
            exists|tried: int|
                0 <= tried <= old(self).killers().len() && final(self).killers() == old(
                    self,
                ).killers().skip(tried),
            old(self).pv().is_none() && r.is_some() && !is_capture(old(self).board(), r.unwrap())
                ==> match first_killer(
                old(self).board(),
                old(self).remaining(),
                old(self).killers(),
            ) {
                Some(killer) => r.unwrap() == killer,
                None => forall|m: Move|
                    #![trigger is_capture(old(self).board(), m)]
                    old(self).remaining().count(m) > 0 && !is_capture(old(self).board(), m)
                        ==> history_of(history_table, old(self).board(), m) <= history_of(
                        history_table,
                        old(self).board(),
                        r.unwrap(),
                    ),
            },
    {
        broadcast use vstd::multiset::group_multiset_axioms;
        broadcast use vstd::seq_lib::group_to_multiset_ensures;

        match self.pv_move {
            Some(mv) => {
                self.pv_move = None;
                proof {
                    assert(self.remaining() =~= old(self).remaining().remove(mv));
                    assert(self.killers() =~= old(self).killers().skip(0));
                }
                return Some(mv);
            },
            None => {},
        }
        if !self.sorted {
            self.sort_out();
        }
        let ghost sorted = *self;
        proof {
            assert forall|m: Move|
                sorted.remaining().count(m) > 0 && is_capture(
                    sorted.board,
                    m,
                ) implies sorted.capture_moves@.contains(m) by {
                if sorted.quiets@.contains(m) {
                    let k = choose|k: int| 0 <= k < sorted.quiets@.len() && sorted.quiets@[k] == m;
                    assert(!is_capture(sorted.board, sorted.quiets@[k]));
                }
            }
        }
        let best = self.best_capture();
        match best {
            Some(i) => {
                if self.capture_values[i] >= 0 {
                    let mv = self.take_capture(i);
                    proof {
                        assert(self.killers() =~= old(self).killers().skip(0));
                        assert forall|m: Move|
                            sorted.remaining().count(m) > 0 && is_capture(
                                sorted.board,
                                m,
                            ) implies see_of(*sorted.evaluator, sorted.board, m) <= see_of(
                            *sorted.evaluator,
                            sorted.board,
                            mv,
                        ) by {
                            let k = choose|k: int|
                                0 <= k < sorted.capture_moves@.len() && sorted.capture_moves@[k]
                                    == m;
                            assert(sorted.capture_values@[k] <= sorted.capture_values@[i as int]);
                        }
                    }
                    return Some(mv);
                }
            },
            None => {},
        }
        proof {
            assert forall|m: Move|
                sorted.remaining().count(m) > 0 && is_capture(sorted.board, m) implies see_of(
                *sorted.evaluator,
                sorted.board,
                m,
            ) < 0 by {
                let k = choose|k: int|
                    0 <= k < sorted.capture_moves@.len() && sorted.capture_moves@[k] == m;
                assert(sorted.capture_values@[k] <= sorted.capture_values@[best.unwrap() as int]);
            }
        }
        proof {
            assert forall|m: Move|
                is_quiet_left(sorted.board, sorted.remaining(), m) == sorted.quiets@.contains(
                    m,
                ) by {
                if sorted.quiets@.contains(m) {
                    let k = choose|k: int| 0 <= k < sorted.quiets@.len() && sorted.quiets@[k] == m;
                    assert(!is_capture(sorted.board, sorted.quiets@[k]));
                }
                if sorted.capture_moves@.contains(m) {
                    let k = choose|k: int|
                        0 <= k < sorted.capture_moves@.len() && sorted.capture_moves@[k] == m;
                    assert(is_capture(sorted.board, sorted.capture_moves@[k]));
                }
            }
        }
        let mut untried: bool = true;
        let ghost mut tried: int = 0;
        proof {
            assert(self.killers() =~= old(self).killers().skip(0));
        }
        while untried
            invariant
                0 <= tried <= old(self).killers().len(),
                killer_items(self.killers) == old(self).killers().skip(tried),
                self.wf(),
                self.sorted,
                self.pv_move.is_none(),
                self.board == sorted.board,
                self.evaluator == sorted.evaluator,
                self.quiets == sorted.quiets,
                self.capture_moves == sorted.capture_moves,
                self.capture_values == sorted.capture_values,
                self.remaining() == sorted.remaining(),
                first_killer(sorted.board, sorted.remaining(), killer_items(self.killers))
                    == first_killer(sorted.board, sorted.remaining(), killer_items(sorted.killers)),
                !untried ==> first_killer(
                    sorted.board,
                    sorted.remaining(),
                    killer_items(sorted.killers),
                ).is_none(),
            decreases killer_items(self.killers).len(), (if untried { 1int } else { 0int }),
        {
            let ghost queue = killer_items(self.killers);
            match self.killers.pop_front() {
                Some(item) => {
                    proof {
                        assert(queue.drop_first() =~= old(self).killers().skip(tried + 1));
                        tried = tried + 1;
                    }
                    let found = self.find_quiet(move_of(item));
                    match found {
                        Some(i) => {
                            let mv = self.take_quiet(i, true);
                            assert(!is_capture(sorted.board, sorted.quiets@[i as int]));
                            assert(sorted.quiets@.contains(mv));
                            return Some(mv);
                        },
                        None => {},
                    }
                },
                None => {
                    untried = false;
                },
            }
        }
        if self.quiets.len() > 0 {
            let i = self.best_quiet(history_table);
            let mv = self.take_quiet(i, false);
            proof {
                assert(!is_capture(sorted.board, sorted.quiets@[i as int]));
                assert forall|m: Move|
                    sorted.remaining().count(m) > 0 && !is_capture(
                        sorted.board,
                        m,
                    ) implies history_of(history_table, sorted.board, m) <= history_of(
                    history_table,
                    sorted.board,
                    mv,
                ) by {
                    assert(is_quiet_left(sorted.board, sorted.remaining(), m));
                    let k = choose|k: int| 0 <= k < sorted.quiets@.len() && sorted.quiets@[k] == m;
                    assert(history_of(history_table, sorted.board, sorted.quiets@[k])
                        <= history_of(history_table, sorted.board, sorted.quiets@[i as int]));
                }
            }
            return Some(mv);
        }
        match best {
            Some(i) => {
                let mv = self.take_capture(i);
                proof {
                    assert(sorted.quiets@.to_multiset() =~= Multiset::empty());
                    assert forall|m: Move|
                        sorted.remaining().count(m) > 0 && is_capture(
                            sorted.board,
                            m,
                        ) implies see_of(*sorted.evaluator, sorted.board, m) <= see_of(
                        *sorted.evaluator,
                        sorted.board,
                        mv,
                    ) by {
                        let k = choose|k: int|
                            0 <= k < sorted.capture_moves@.len() && sorted.capture_moves@[k] == m;
                        assert(sorted.capture_values@[k] <= sorted.capture_values@[i as int]);
                    }
                }
                Some(mv)
            },
            None => {
                proof {
                    assert(self.capture_moves@.to_multiset() =~= Multiset::empty());
                    assert(self.quiets@.to_multiset() =~= Multiset::empty());
                    assert(self.moves@.to_multiset() =~= Multiset::empty());
                    assert(self.remaining() =~= Multiset::empty());
                }
                None
            },
        }
    }
}

/// The moves among `moves` that land on an occupied square, in their order.
pub open spec fn captures_among(p: Snapshot, moves: Seq<Move>) -> Seq<Move> {
    moves.filter(|m: Move| is_capture(p, m))
}

/// The captures among `moves`, the one of the greatest exchange value first.
/// A move counts as a capture by landing on an occupied square, so a capture
/// en passant is not among them.
#[verifier::loop_isolation(false)]
pub fn quiescence_move_generator(
    evaluator: &StandardEvaluator,
    board: &Snapshot,
    moves: &Vec<Move>,
) -> (r: Vec<Move>)
    requires
        forall|i: int| 0 <= i < moves@.len() ==> (#[trigger] moves@[i]).on_board(),
    ensures
        r@.to_multiset() == captures_among(*board, moves@).to_multiset(),
        forall|i: int, j: int|
            0 <= i <= j < r@.len() ==> see_of(*evaluator, *board, #[trigger] r@[i]) >= see_of(
                *evaluator,
                *board,
                #[trigger] r@[j],
            ),
        forall|i: int| 0 <= i < r@.len() ==> (#[trigger] r@[i]).on_board() && moves@.contains(r@[i]),
{
    broadcast use vstd::multiset::group_multiset_axioms;
    broadcast use vstd::seq_lib::group_to_multiset_ensures;

    let ghost capturing = |m: Move| is_capture(*board, m);
    assert(captures_among(*board, moves@) == moves@.filter(capturing));
    let mut captures: Vec<Move> = Vec::new();
    let mut values: Vec<i32> = Vec::new();
    let mut i: usize = 0;
    proof {
        reveal(Seq::filter);
        assert(moves@.take(0) =~= Seq::<Move>::empty());
    }
    while i < moves.len()
        invariant
            i <= moves@.len(),
            captures@ == moves@.take(i as int).filter(capturing),
            values@.len() == captures@.len(),
            forall|j: int|
                0 <= j < captures@.len() ==> (#[trigger] captures@[j]).on_board() && values@[j]
                    == see_of(*evaluator, *board, captures@[j]) && moves@.contains(captures@[j]),
        decreases moves@.len() - i,
    {
        let mv = moves[i];
        proof {
            reveal(Seq::filter);
            assert(moves@.take(i + 1).drop_last() =~= moves@.take(i as int));
            assert(moves@.take(i + 1).last() == mv);
        }
        if holds(board.combined(), mv.dest) {
            let value = static_exchange_evaluation(evaluator, board, mv);
            captures.push(mv);
            values.push(value.0);
        }
        i = i + 1;
    }
    proof {
        assert(moves@.take(moves@.len() as int) =~= moves@);
    }
    let ghost all = captures@;
    let mut sorted: Vec<Move> = Vec::new();
    while captures.len() > 0
        invariant
            values@.len() == captures@.len(),
            forall|j: int|
                0 <= j < captures@.len() ==> (#[trigger] captures@[j]).on_board() && values@[j]
                    == see_of(*evaluator, *board, captures@[j]) && moves@.contains(captures@[j]),
            forall|j: int|
                0 <= j < sorted@.len() ==> (#[trigger] sorted@[j]).on_board() && moves@.contains(
                    sorted@[j],
                ),
            sorted@.to_multiset().add(captures@.to_multiset()) == all.to_multiset(),
            forall|j: int, k: int|
                0 <= j <= k < sorted@.len() ==> see_of(*evaluator, *board, #[trigger] sorted@[j])
                    >= see_of(*evaluator, *board, #[trigger] sorted@[k]),
            forall|j: int, k: int|
                0 <= j < sorted@.len() && 0 <= k < captures@.len() ==> see_of(
                    *evaluator,
                    *board,
                    #[trigger] sorted@[j],
                ) >= #[trigger] values@[k],
        decreases captures@.len(),
    {
        let mut best: usize = 0;
        let mut k: usize = 1;
        while k < values.len()
            invariant
                1 <= k <= values@.len(),
                best < k,
                forall|j: int| 0 <= j < k ==> #[trigger] values@[j] <= values@[best as int],
            decreases values@.len() - k,
        {
            if values[k] >= values[best] {
                best = k;
            }
            k = k + 1;
        }
        let ghost captures_before = captures@;
        let ghost sorted_before = sorted@;
        let ghost values_before = values@;
        proof {
            lemma_swap_remove(captures@, best as int);
            assert(captures@.contains(captures@[best as int]));
        }
        let mv = captures.swap_remove(best);
        let _ = values.swap_remove(best);
        sorted.push(mv);
        proof {
            vstd::seq_lib::to_multiset_build(sorted_before, mv);
            assert(sorted@.to_multiset().add(captures@.to_multiset()) =~= all.to_multiset());
            assert forall|j: int, k: int|
                0 <= j < sorted@.len() && 0 <= k < captures@.len() implies see_of(
                *evaluator,
                *board,
                #[trigger] sorted@[j],
            ) >= #[trigger] values@[k] by {
                let from: int = if k == best {
                    values_before.len() - 1
                } else {
                    k
                };
                assert(values@[k] == values_before[from]);
                if j < sorted_before.len() {
                    assert(sorted@[j] == sorted_before[j]);
                }
            }
        }
    }
    proof {
        assert(captures@.to_multiset() =~= Multiset::empty());
        assert(sorted@.to_multiset() =~= all.to_multiset());
    }
    sorted
}

} // verus!