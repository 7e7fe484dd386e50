//! The standard evaluator: material and piece-square tables, blended between
//! a midgame and an endgame set by how much material is left.

use vstd::prelude::*;
use crate::bits::{count, holds, on, popcount, lemma_empty_has_none, lemma_nonempty_has_one, lemma_lowest_from, lowest_from};
use crate::board::{legal_moves_of, Color, Piece, Position, Snapshot};
use crate::evaluation::{
    kind_of, mate_score, Evaluation, EvaluationKind, Evaluator, MAX_CENTIPAWNS,
};
use crate::squares::{flip, sum_below, sum_board, lemma_count_flip, lemma_sum_flip};

verus! {

/// One value for each square, written down as seen from black's side: row 0
/// is the eighth rank. For white the ranks are read in reverse.
#[derive(Debug, Clone, Copy)]
pub struct PieceSquareTable(pub [[i32; 8]; 8]);

impl PieceSquareTable {
    /// The row of the table that holds the squares of `square`'s rank for `side`.
    pub open spec fn row_of(side: Color, square: int) -> int {
        if side == Color::White {
            7 - square / 8
        } else {
            square / 8
        }
    }

    /// The value of `square` for a piece of `side`.
    pub open spec fn at(self, side: Color, square: int) -> int {
        self.0[Self::row_of(side, square)][square % 8] as int
    }

    fn key(side: Color, square: u8) -> (r: (usize, usize))
        requires
            square < 64,
        ensures
            r.0 == Self::row_of(side, square as int),
            r.1 == square % 8,
            r.0 < 8,
            r.1 < 8,
    {
        let mut rank: usize = (square / 8) as usize;
        if side == Color::White {
            rank = 7 - rank;
        }
        (rank, (square % 8) as usize)
    }

    pub fn get(&self, side: Color, square: u8) -> (r: i32)
        requires
            square < 64,
        ensures
            r == self.at(side, square as int),
    {
        let (rank, file) = Self::key(side, square);
        self.0[rank][file]
    }

    pub fn set(&mut self, side: Color, square: u8, value: i32)
        requires
            square < 64,
        ensures
            final(self).at(side, square as int) == value,
            forall|row: int, file: int|
                0 <= row < 8 && 0 <= file < 8 && !(row == Self::row_of(side, square as int) && file
                    == square % 8) ==> final(self).0[row][file] == old(self).0[row][file],
    {
        let (rank, file) = Self::key(side, square);
        let mut row: [i32; 8] = self.0[rank];
        row[file] = value;
        self.0[rank] = row;
    }
}

/// One value of type `T` for each kind of piece.
#[derive(Debug, Clone, Copy)]
pub struct PieceEvalSet<T> {
    pub pawn: T,
    pub knight: T,
    pub bishop: T,
    pub rook: T,
    pub queen: T,
    pub king: T,
}

impl<T> PieceEvalSet<T> {
    pub open spec fn of(self, piece: Piece) -> T {
        match piece {
            Piece::Pawn => self.pawn,
            Piece::Knight => self.knight,
            Piece::Bishop => self.bishop,
            Piece::Rook => self.rook,
            Piece::Queen => self.queen,
            Piece::King => self.king,
        }
    }

    pub fn get(&self, piece: Piece) -> (r: &T)
        ensures
            *r == self.of(piece),
    {
        match piece {
            Piece::Pawn => &self.pawn,
            Piece::Knight => &self.knight,
            Piece::Bishop => &self.bishop,
            Piece::Rook => &self.rook,
            Piece::Queen => &self.queen,
            Piece::King => &self.king,
        }
    }
}

#[derive(Debug, Clone, Copy)]
pub struct StandardEvaluator {
    pub piece_values: PieceEvalSet<i32>,
    pub midgame_piece_tables: PieceEvalSet<PieceSquareTable>,
    pub endgame_piece_tables: PieceEvalSet<PieceSquareTable>,
}

/// The phase at which only the endgame tables count.
pub const MAX_PHASE: u32 = 256;

/// The material weight of the starting position: four knights, four bishops,
/// four rooks at two and two queens at four.
pub const INIT_PHASE: u32 = 24;

/// `x / 256`, rounded towards zero.
pub open spec fn scale_down(x: int) -> int {
    if x >= 0 {
        x / 256
    } else {
        -((-x) / 256)
    }
}

/// `x` brought into the centipawn band.
pub open spec fn clamp_centipawns(x: int) -> int {
    if x > MAX_CENTIPAWNS {
        MAX_CENTIPAWNS as int
    } else if x < -MAX_CENTIPAWNS {
        -(MAX_CENTIPAWNS as int)
    } else {
        x
    }
}

/// How far the game has gone from the midgame (0) to the endgame (256), by
/// the knights, bishops, rooks and queens left on the board.
pub open spec fn phase_of(p: Snapshot) -> int {
    let weight = count(p.pieces[1]) + count(p.pieces[2]) + 2 * count(p.pieces[3]) + 4 * count(
        p.pieces[4],
    );
    let left = if weight > INIT_PHASE {
        0int
    } else {
        INIT_PHASE - weight
    };
    (left * 256 + 12) / 24
}

/// A blend of two totals within `bound` stays within 256 times `bound`.
proof fn lemma_blend_bounds(mid: int, end: int, phase: int, bound: int)
    requires
        0 <= phase <= 256,
        -bound <= mid <= bound,
        -bound <= end <= bound,
    ensures
        -bound * (256 - phase) <= mid * (256 - phase) <= bound * (256 - phase),
        -bound * phase <= end * phase <= bound * phase,
        -bound * 256 <= mid * (256 - phase) + end * phase <= bound * 256,
        -bound <= scale_down(mid * (256 - phase) + end * phase) <= bound,
{
    assert(-bound * (256 - phase) <= mid * (256 - phase) <= bound * (256 - phase))
        by (nonlinear_arith)
        requires
            0 <= 256 - phase,
            -bound <= mid <= bound,
    ;
    assert(-bound * phase <= end * phase <= bound * phase) by (nonlinear_arith)
        requires
            0 <= phase,
            -bound <= end <= bound,
    ;
    assert(bound * (256 - phase) + bound * phase == bound * 256) by (nonlinear_arith);
    assert(-bound * (256 - phase) + -bound * phase == -bound * 256) by (nonlinear_arith);
    let x = mid * (256 - phase) + end * phase;
    assert(-(bound * 256) <= x <= bound * 256);
    assert(-bound * 256 == -(bound * 256)) by (nonlinear_arith);
    if x >= 0 {
        assert(x / 256 <= bound);
    } else {
        assert((-x) / 256 <= bound);
    }
}

impl StandardEvaluator {
    /// What a piece of kind `piece` and colour `side` on `square` is worth
    /// with the midgame tables (`endgame` false) or the endgame tables.
    pub open spec fn worth(self, endgame: bool, piece: Piece, side: Color, square: int) -> int {
        self.piece_values.of(piece) + if endgame {
            self.endgame_piece_tables.of(piece).at(side, square)
        } else {
            self.midgame_piece_tables.of(piece).at(side, square)
        }
    }

    /// The same, or nothing where no piece of that kind stands on `square`.
    pub open spec fn kind_term(
        self,
        p: Snapshot,
        endgame: bool,
        piece: Piece,
        side: Color,
        square: int,
    ) -> int {
        if on(p.pieces[piece.spec_index() as int], square) {
            self.worth(endgame, piece, side, square)
        } else {
            0
        }
    }

    /// The terms of the kinds of piece with an index below `k`.
    pub open spec fn kinds_below(
        self,
        p: Snapshot,
        endgame: bool,
        side: Color,
        square: int,
        k: int,
    ) -> int
        decreases k,
    {
        if k <= 0 {
            0
        } else {
            self.kinds_below(p, endgame, side, square, k - 1) + self.kind_term(
                p,
                endgame,
                Piece::spec_from_index((k - 1) as usize),
                side,
                square,
            )
        }
    }

    /// What `square` adds to the score of `side`: the worth of every kind of
    /// piece that stands there, if a piece of `side` does.
    pub open spec fn square_term(self, p: Snapshot, endgame: bool, side: Color, square: int) -> int {
        if on(p.colors[side.spec_index() as int], square) {
            self.kinds_below(p, endgame, side, square, 6)
        } else {
            0
        }
    }

    /// Material and table values of all pieces of `side`.
    pub open spec fn side_total(self, p: Snapshot, endgame: bool, side: Color) -> int {
        sum_board(|square: int| self.square_term(p, endgame, side, square))
    }

    /// The score of `side` at the given phase: its midgame and endgame totals blended.
    pub open spec fn side_score(self, p: Snapshot, side: Color, phase: int) -> int {
        scale_down(
            self.side_total(p, false, side) * (256 - phase) + self.side_total(p, true, side) * phase,
        )
    }

    /// The score of a position with moves left, for the side to move.
    pub open spec fn static_score(self, p: Snapshot) -> int {
        let white = self.side_score(p, Color::White, phase_of(p));
        let black = self.side_score(p, Color::Black, phase_of(p));
        clamp_centipawns(
            if p.side_to_move == Color::White {
                white - black
            } else {
                black - white
            },
        )
    }

    /// The score of a position `ply` plies below the root: lost where the
    /// side to move is mated, drawn where it is stalemated, else the static score.
    pub open spec fn score(self, p: Snapshot, ongoing: bool, ply: int) -> int {
        if ongoing {
            self.static_score(p)
        } else if p.checkers != 0 {
            -mate_score(ply)
        } else {
            0
        }
    }

    pub fn game_phase(board: &Snapshot) -> (r: u32)
        ensures
            r == phase_of(*board),
            r <= MAX_PHASE,
    {
        let weight: u32 = popcount(board.pieces[1]) + popcount(board.pieces[2]) + 2 * popcount(
            board.pieces[3],
        ) + 4 * popcount(board.pieces[4]);
        let left: u32 = if weight > INIT_PHASE {
            0
        } else {
            INIT_PHASE - weight
        };
        (left * 256 + 12) / 24
    }

    /// What the pieces on `square` add to the totals of `side`.
    fn square_worth(&self, board: &Snapshot, side: Color, square: u8) -> (r: (i64, i64))
        requires
            square < 64,
        ensures
            r.0 == self.square_term(*board, false, side, square as int),
            r.1 == self.square_term(*board, true, side, square as int),
            -0x6_0000_0000 <= r.0 <= 0x6_0000_0000,
            -0x6_0000_0000 <= r.1 <= 0x6_0000_0000,
    {
        let mut mid: i64 = 0;
        let mut end: i64 = 0;
        if holds(board.colors[side.index()], square) {
            let mut k: usize = 0;
            while k < 6
                invariant
                    k <= 6,
                    square < 64,
                    -0x1_0000_0000 * k <= mid <= 0x1_0000_0000 * k,
                    -0x1_0000_0000 * k <= end <= 0x1_0000_0000 * k,
                    mid == self.kinds_below(*board, false, side, square as int, k as int),
                    end == self.kinds_below(*board, true, side, square as int, k as int),
                decreases 6 - k,
            {
                let piece = Piece::from_index(k);
                if holds(board.pieces[k], square) {
                    let value: i64 = *self.piece_values.get(piece) as i64;
                    mid = mid + value + self.midgame_piece_tables.get(piece).get(side, square) as i64;
                    end = end + value + self.endgame_piece_tables.get(piece).get(side, square) as i64;
                }
                k = k + 1;
            }
        }
        (mid, end)
    }

    pub fn evaluate_for_side(&self, board: &Snapshot, side: Color, phase: u32) -> (r: i64)
        requires
            phase <= MAX_PHASE,
        ensures
            r == self.side_score(*board, side, phase as int),
            -0x180_0000_0000 <= r <= 0x180_0000_0000,
    {
        let mut mid: i64 = 0;
        let mut end: i64 = 0;
        let mut square: u8 = 0;
        while square < 64
            invariant
                square <= 64,
                mid == sum_below(|s: int| self.square_term(*board, false, side, s), square as int),
                end == sum_below(|s: int| self.square_term(*board, true, side, s), square as int),
                -0x6_0000_0000 * square <= mid <= 0x6_0000_0000 * square,
                -0x6_0000_0000 * square <= end <= 0x6_0000_0000 * square,
            decreases 64 - square,
        {
            let (m, e) = self.square_worth(board, side, square);
            mid = mid + m;
            end = end + e;
            square = square + 1;
        }
        let phase: i64 = phase as i64;
        proof {
            lemma_blend_bounds(mid as int, end as int, phase as int, 0x180_0000_0000);
        }
        let blend: i64 = mid * (256 - phase) + end * phase;
        if blend >= 0 {
            blend / 256
        } else {
            -((-blend) / 256)
        }
    }

    /// The static score of `board` for the side to move.
    pub fn evaluate_static(&self, board: &Snapshot) -> (r: Evaluation)
        ensures
            r.value() == self.static_score(*board),
            -MAX_CENTIPAWNS <= r.value() <= MAX_CENTIPAWNS,
            kind_of(r.value()) == EvaluationKind::Centipawn(r.0),
    {
        let phase = Self::game_phase(board);
        let white = self.evaluate_for_side(board, Color::White, phase);
        let black = self.evaluate_for_side(board, Color::Black, phase);
        let score: i64 = if board.side_to_move == Color::White {
            white - black
        } else {
            black - white
        };
        if score > MAX_CENTIPAWNS as i64 {
            Evaluation::from_centipawns(MAX_CENTIPAWNS)
        } else if score < -(MAX_CENTIPAWNS as i64) {
            Evaluation::from_centipawns(-MAX_CENTIPAWNS)
        } else {
            Evaluation::from_centipawns(score as i32)
        }
    }

    /// The score of `board`, which is `ply` plies below the root and has
    /// legal moves left or not, as `ongoing` says.
    pub fn evaluate_known(&self, board: &Snapshot, ongoing: bool, ply: u8) -> (r: Evaluation)
        ensures
            r.value() == self.score(*board, ongoing, ply as int),
            r.is_balanced(),
    {
        if ongoing {
            self.evaluate_static(board)
        } else if board.in_check() {
            Evaluation::mated_in(ply)
        } else {
            Evaluation::draw()
        }
    }
}

impl Evaluator for StandardEvaluator {
    fn evaluate(&self, board: &Position, ply_index: u8) -> (r: Evaluation)
        ensures
            r.value() == self.score(board@, legal_moves_of(board@).len() > 0, ply_index as int),
    {
        let moves = board.legal_moves();
        let position = board.position();
        self.evaluate_known(&position, moves.len() > 0, ply_index)
    }

    fn piece_value(&self, piece: Piece) -> (r: Evaluation)
        ensures
            r.value() == self.piece_values.of(piece),
    {
        Evaluation::from_centipawns(*self.piece_values.get(piece))
    }
}

/// Whether `q` is `p` seen from the other side: the board mirrored top to
/// bottom, the colours exchanged and the other side to move.
pub open spec fn color_swapped(p: Snapshot, q: Snapshot) -> bool {
    &&& forall|k: int, square: int|
        0 <= k < 6 && 0 <= square < 64 ==> #[trigger] on(q.pieces[k], square) == on(
            p.pieces[k],
            flip(square),
        )
    &&& forall|square: int|
        0 <= square < 64 ==> on(q.colors[0], square) == on(p.colors[1], flip(square))
    &&& forall|square: int|
        0 <= square < 64 ==> on(q.colors[1], square) == on(p.colors[0], flip(square))
    &&& forall|square: int| 0 <= square < 64 ==> on(q.checkers, square) == on(p.checkers, flip(square))
    &&& q.side_to_move == p.side_to_move.spec_other()
}

proof fn lemma_kinds_swapped(
    ev: StandardEvaluator,
    p: Snapshot,
    q: Snapshot,
    endgame: bool,
    side: Color,
    square: int,
    k: int,
)
    requires
        color_swapped(p, q),
        0 <= square < 64,
        0 <= k <= 6,
    ensures
        ev.kinds_below(q, endgame, side, square, k) == ev.kinds_below(
            p,
            endgame,
            side.spec_other(),
            flip(square),
            k,
        ),
    decreases k,
{
    if k > 0 {
        lemma_kinds_swapped(ev, p, q, endgame, side, square, k - 1);
        let piece = Piece::spec_from_index((k - 1) as usize);
        assert(piece.spec_index() == k - 1);
        assert(on(q.pieces[k - 1], square) == on(p.pieces[k - 1], flip(square)));
        assert(flip(square) / 8 == 7 - square / 8);
        assert(flip(square) % 8 == square % 8);
        assert(PieceSquareTable::row_of(side, square) == PieceSquareTable::row_of(
            side.spec_other(),
            flip(square),
        ));
    }
}

proof fn lemma_total_swapped(
    ev: StandardEvaluator,
    p: Snapshot,
    q: Snapshot,
    endgame: bool,
    side: Color,
)
    requires
        color_swapped(p, q),
    ensures
        ev.side_total(q, endgame, side) == ev.side_total(p, endgame, side.spec_other()),
{
    let f = |square: int| ev.square_term(p, endgame, side.spec_other(), square);
    let g = |square: int| ev.square_term(q, endgame, side, square);
    assert forall|square: int| 0 <= square < 64 implies #[trigger] g(square) == f(flip(square)) by {
        lemma_kinds_swapped(ev, p, q, endgame, side, square, 6);
    }
    lemma_sum_flip(f, g);
}

proof fn lemma_empty_swapped(a: u64, b: u64)
    requires
        forall|square: int| 0 <= square < 64 ==> on(b, square) == on(a, flip(square)),
    ensures
        (a == 0) == (b == 0),
{
    if a != 0 && b == 0 {
        lemma_nonempty_has_one(a);
        lemma_lowest_from(a, 0);
        let s = lowest_from(a, 0);
        assert(flip(flip(s)) == s);
        assert(on(b, flip(s)));
        lemma_empty_has_none(flip(s));
    }
    if b != 0 && a == 0 {
        lemma_nonempty_has_one(b);
        lemma_lowest_from(b, 0);
        let s = lowest_from(b, 0);
        assert(on(a, flip(s)));
        lemma_empty_has_none(flip(s));
    }
}

/// The evaluation does not depend on which colour plays which side: a
/// position and its colour-swapped image get the same score.
pub proof fn lemma_evaluation_symmetry(
    ev: StandardEvaluator,
    p: Snapshot,
    q: Snapshot,
    ongoing: bool,
    ply: int,
)
    requires
        color_swapped(p, q),
    ensures
        phase_of(q) == phase_of(p),
        ev.static_score(q) == ev.static_score(p),
        ev.score(q, ongoing, ply) == ev.score(p, ongoing, ply),
{
    lemma_count_flip(p.pieces[1], q.pieces[1]);
    lemma_count_flip(p.pieces[2], q.pieces[2]);
    lemma_count_flip(p.pieces[3], q.pieces[3]);
    lemma_count_flip(p.pieces[4], q.pieces[4]);
    lemma_total_swapped(ev, p, q, false, Color::White);
    lemma_total_swapped(ev, p, q, true, Color::White);
    lemma_total_swapped(ev, p, q, false, Color::Black);
    lemma_total_swapped(ev, p, q, true, Color::Black);
    lemma_empty_swapped(p.checkers, q.checkers);
}

/// The squares of pawns in the midgame, the eighth rank first.
pub const MIDGAME_PAWN: [[i32; 8]; 8] = [
    [  0,   0,   0,   0,   0,   0,   0,   0],
    [-23, -11,  -5,  18,  23,   5,  -1, -11],
    [-61, -49, -14,  -3,  16,  16, -33, -41],
    [-25, -17, -19,  11,  28,   1, -19, -24],
    [-52, -17, -17,  18,  11, -18, -28, -70],
    [-30, -25,  -5, -22,   3, -42,  29,   0],
    [-37,  -8, -35, -31, -14,  25,  47,   6],
    [  0,   0,   0,   0,   0,   0,   0,   0],
];

/// The squares of knights in the midgame, the eighth rank first.
pub const MIDGAME_KNIGHT: [[i32; 8]; 8] = [
    [-89, -29, -27, -34, -20, -40, -36, -44],
    [-68, -27,  42,  16,  39,  37,  -4, -27],
    [-28,   8,  22,  56,  63,  53,  34, -20],
    [-23,   8,  12,  58,  28,  45,  -3, -10],
    [-26,   3,  16,  17,  31,  24,  12, -35],
    [-27, -11,  25,  14,  20,  21,  25, -30],
    [-29, -23,   1,  -1,   1,  15, -12,   6],
    [-49, -25, -47, -38, -41, -20, -32, -58],
];

/// The squares of bishops in the midgame, the eighth rank first.
pub const MIDGAME_BISHOP: [[i32; 8]; 8] = [
    [-18,  -9,  -4, -17, -10, -12,  -1, -25],
    [-28,  18,  -6,  10,  13,  31,  22,   9],
    [-13,   4,  50,  24,  38,  28,  18,  37],
    [-29,  -3,  16,  31,  36,  21,  14,   2],
    [ -8,  17,  20,  44,  53,  25,  19, -18],
    [ 26,  35,  28,  31,  28,  36,  31,  32],
    [ -9,  50,  25,  17,  22,  32,  64,  17],
    [ -6,  -5,  19,  -9, -13, -14,  -1, -21],
];

/// The squares of rooks in the midgame, the eighth rank first.
pub const MIDGAME_ROOK: [[i32; 8]; 8] = [
    [-22, -16, -18, -14, -15,  -9, -11, -10],
    [-12,  -7,   4,   6,  10,   9,  12,   3],
    [-16, -18,  -9,  -1,   7,   2,  -7,  -8],
    [-26, -17, -10,  -2,  -4,  -1,  -6,   4],
    [-13, -18, -25, -14, -12,  -5,  -5,  -4],
    [-25, -15, -11,  -4, -10,  -4,  -2,  -7],
    [-35, -10, -19, -15, -16,   7,   1, -30],
    [-20, -13,   7,   4,  17,   4, -44, -13],
];

/// The squares of queens in the midgame, the eighth rank first.
pub const MIDGAME_QUEEN: [[i32; 8]; 8] = [
    [-45, -37, -23, -29, -25, -26, -26, -46],
    [-39, -32, -15, -17, -15,  15,  16,  32],
    [-25, -13,   6,  17,  14,  31,  33,  33],
    [-17, -19,  -6, -11,  -1,   2,  -9,  12],
    [-22,  -5, -13,  -9,   3,  -4,  15,  -8],
    [-20,   3,  -7,  -7, -12,   8,   7, -10],
    [-23,   2,   5,  -2,   8,  17,  10,  -3],
    [ -3, -24, -12,  20, -22, -23, -27, -23],
];

/// The squares of the king in the midgame, the eighth rank first.
pub const MIDGAME_KING: [[i32; 8]; 8] = [
    [-33, -46, -43, -46, -51, -52, -53, -38],
    [-35, -46, -39, -39, -44, -48, -57, -50],
    [-35, -43, -24, -22, -26, -31, -58, -52],
    [-33, -37, -14, -18, -17, -23, -48, -48],
    [-17, -24,  -6, -13, -14, -14, -37, -35],
    [ -8, -14, -12, -13, -17, -19, -28, -25],
    [ 20,   0,  -8, -66, -67, -17,   5,  27],
    [  2,  37,   4, -53,  14, -44,  63,  43],
];

/// The squares of pawns in the endgame, the eighth rank first.
pub const ENDGAME_PAWN: [[i32; 8]; 8] = [
    [  0,   0,   0,   0,   0,   0,   0,   0],
    [119, 113, 102,  91,  87,  91, 106, 102],
    [ 58,  61,  60,  46,  47,  50,  52,  50],
    [ 17,  17,   6,   4,   6,   7,  11,   7],
    [ -7,   2, -11,  -2,  -3,  -9,  -4, -22],
    [-10,  -1,  -6,  -7,   1, -11,  14,  -4],
    [ -5,   7,  -5, -15,  -3,  14,  23,  -3],
    [  0,   0,   0,   0,   0,   0,   0,   0],
];

/// The squares of knights in the endgame, the eighth rank first.
pub const ENDGAME_KNIGHT: [[i32; 8]; 8] = [
    [-84, -54, -38, -29, -33, -50, -50, -79],
    [-59, -33,   7,  -4,   1,   2, -25, -49],
    [-32, -10,  11,  23,  16,  18,  -1, -31],
    [-20,   6,   8,  37,  17,  23,  -1, -21],
    [-21,  -9,  10,  12,  21,   9,  -8, -28],
    [-32, -13,   4,   8,  10,   0,  -3, -36],
    [-38, -29, -18,  -8,  -9,  -8, -25, -17],
    [-64, -36, -45, -32, -41, -24, -37, -63],
];

/// The squares of bishops in the endgame, the eighth rank first.
pub const ENDGAME_BISHOP: [[i32; 8]; 8] = [
    [-13, -22, -20, -13, -19, -16, -19, -17],
    [-25,  10,  -2,  -3,   4,   6,  10, -16],
    [ -6,   6,  23,  18,  18,  20,   7,  12],
    [ -7,   8,  14,  25,  27,  10,  12,  -6],
    [ -8,   9,  19,  24,  30,  24,   5, -15],
    [  8,  13,  20,  20,  28,  20,  10,   3],
    [-19,  20,   4,  13,  17,  13,  30,  -1],
    [-19, -18,  -1,  -7, -12,  -9, -20, -19],
];

/// The squares of rooks in the endgame, the eighth rank first.
pub const ENDGAME_ROOK: [[i32; 8]; 8] = [
    [ 24,  19,  21,  20,  21,  11,  11,  11],
    [ 17,  23,  26,  27,  19,  26,  21,  11],
    [ 14,  14,  16,  17,  15,  16,  13,   7],
    [  6,   7,  16,  14,  10,  14,   8,  10],
    [  3,   4,   7,   9,   5,   3,   0,  -4],
    [ -9,   0,   2,   4,   1,  -3,  -2,  -6],
    [-10,   1,   2,   1,   0,   7,   2, -17],
    [ -7,  -1,   9,  15,   9,   1, -16, -22],
];

/// The squares of queens in the endgame, the eighth rank first.
pub const ENDGAME_QUEEN: [[i32; 8]; 8] = [
    [ -2,   8,  15,  20,  24,  20,   5,  11],
    [-19, -13,   1,  17,   8,  47,  31,  13],
    [-23,  -9,  21,  24,  42,  39,  38,  26],
    [-16,  -1,   6,  16,  27,  31,  11,  19],
    [-11,   6,   2,  17,  22,  12,  22,   0],
    [-17,   0,   9,   7,  10,  16,  19,  -4],
    [-11,   7,   4,  10,  11,   9,   2,  -5],
    [  1, -17, -11,  -1,  -9, -19, -18, -25],
];

/// The squares of the king in the endgame, the eighth rank first.
pub const ENDGAME_KING: [[i32; 8]; 8] = [
    [-43, -28, -21, -19, -15, -11, -22, -38],
    [-20,  -4,  -4,  -8,  -3,   5,   0,  -9],
    [-19,   2,   4,   4,   4,  13,  14,  -6],
    [-25,  -9,   5,   6,   4,  10,   0, -11],
    [-31, -12,   5,   6,   9,   8,  -4, -19],
    [-28, -12,   0,   4,   5,   4,  -4, -17],
    [-22, -11,  -4, -15, -15,   0,   2,  -8],
    [-43, -12, -12, -41, -16, -31,  -6, -28],
];

/// The engine's own values: a pawn is worth 100, a knight 320, a bishop 330,
/// a rook 500 and a queen 900, the king nothing; and each piece has its
/// squares for the midgame and for the endgame.
pub open spec fn standard_values() -> StandardEvaluator {
    StandardEvaluator {
        piece_values: PieceEvalSet {
            pawn: 100,
            knight: 320,
            bishop: 330,
            rook: 500,
            queen: 900,
            king: 0,
        },
        midgame_piece_tables: PieceEvalSet {
            pawn: PieceSquareTable(MIDGAME_PAWN),
            knight: PieceSquareTable(MIDGAME_KNIGHT),
            bishop: PieceSquareTable(MIDGAME_BISHOP),
            rook: PieceSquareTable(MIDGAME_ROOK),
            queen: PieceSquareTable(MIDGAME_QUEEN),
            king: PieceSquareTable(MIDGAME_KING),
        },
        endgame_piece_tables: PieceEvalSet {
            pawn: PieceSquareTable(ENDGAME_PAWN),
            knight: PieceSquareTable(ENDGAME_KNIGHT),
            bishop: PieceSquareTable(ENDGAME_BISHOP),
            rook: PieceSquareTable(ENDGAME_ROOK),
            queen: PieceSquareTable(ENDGAME_QUEEN),
            king: PieceSquareTable(ENDGAME_KING),
        },
    }
}

impl Default for StandardEvaluator {
    fn default() -> (r: StandardEvaluator)
        ensures
            r == standard_values(),
    {
        StandardEvaluator {
            piece_values: PieceEvalSet {
                pawn: 100,
                knight: 320,
                bishop: 330,
                rook: 500,
                queen: 900,
                king: 0,
            },
            midgame_piece_tables: PieceEvalSet {
                pawn: PieceSquareTable(MIDGAME_PAWN),
                knight: PieceSquareTable(MIDGAME_KNIGHT),
                bishop: PieceSquareTable(MIDGAME_BISHOP),
                rook: PieceSquareTable(MIDGAME_ROOK),
                queen: PieceSquareTable(MIDGAME_QUEEN),
                king: PieceSquareTable(MIDGAME_KING),
            },
            endgame_piece_tables: PieceEvalSet {
                pawn: PieceSquareTable(ENDGAME_PAWN),
                knight: PieceSquareTable(ENDGAME_KNIGHT),
                bishop: PieceSquareTable(ENDGAME_BISHOP),
                rook: PieceSquareTable(ENDGAME_ROOK),
                queen: PieceSquareTable(ENDGAME_QUEEN),
                king: PieceSquareTable(ENDGAME_KING),
            },
        }
    }
}

} // verus!
