//! Positions and moves as plain values, and the calls into the `chess` crate
//! that generate moves and make them.

use vstd::prelude::*;
use std::convert::TryFrom;
use std::str::FromStr;
use crate::bits::{count, holds, lemma_same_squares, on, popcount};

verus! {

#[derive(Debug, Clone, Copy, PartialEq, Eq, Hash, Structural)]
pub enum Color {
    White,
    Black,
}

#[derive(Debug, Clone, Copy, PartialEq, Eq, Hash, Structural)]
pub enum Piece {
    Pawn,
    Knight,
    Bishop,
    Rook,
    Queen,
    King,
}

/// A move: the squares it goes from and to, numbered 0 (a1) to 63 (h8), and
/// the piece a pawn turns into on the last rank.
#[derive(Debug, Clone, Copy, PartialEq, Eq, Hash, Structural)]
pub struct Move {
    pub source: u8,
    pub dest: u8,
    pub promotion: Option<Piece>,
}

/// What the engine reads of a position: one set of squares for each kind of
/// piece and for each colour, the side to move, castling rights, the en
/// passant square, the pieces that give check or are pinned, and the hash.
#[derive(Debug, Clone, Copy, PartialEq, Eq)]
pub struct Snapshot {
    /// Squares of the pawns, knights, bishops, rooks, queens and kings.
    pub pieces: [u64; 6],
    /// Squares of the white and of the black pieces.
    pub colors: [u64; 2],
    /// Castling rights of white and of black: 0 none, 1 king side, 2 queen side, 3 both.
    pub castles: [usize; 2],
    pub side_to_move: Color,
    pub en_passant: Option<u8>,
    /// The pieces that attack the king of the side to move.
    pub checkers: u64,
    pub pinned: u64,
    pub hash: u64,
}

impl Color {
    pub open spec fn spec_index(self) -> usize {
        match self {
            Color::White => 0,
            Color::Black => 1,
        }
    }

    #[verifier::when_used_as_spec(spec_index)]
    pub fn index(self) -> (r: usize)
        ensures
            r == self.spec_index(),
            r < 2,
    {
        match self {
            Color::White => 0,
            Color::Black => 1,
        }
    }

    pub open spec fn spec_other(self) -> Color {
        match self {
            Color::White => Color::Black,
            Color::Black => Color::White,
        }
    }

    #[verifier::when_used_as_spec(spec_other)]
    pub fn other(self) -> (r: Color)
        ensures
            r == self.spec_other(),
    {
        match self {
            Color::White => Color::Black,
            Color::Black => Color::White,
        }
    }
}

impl Piece {
    pub open spec fn spec_index(self) -> usize {
        match self {
            Piece::Pawn => 0,
            Piece::Knight => 1,
            Piece::Bishop => 2,
            Piece::Rook => 3,
            Piece::Queen => 4,
            Piece::King => 5,
        }
    }

    #[verifier::when_used_as_spec(spec_index)]
    pub fn index(self) -> (r: usize)
        ensures
            r == self.spec_index(),
            r < 6,
    {
        match self {
            Piece::Pawn => 0,
            Piece::Knight => 1,
            Piece::Bishop => 2,
            Piece::Rook => 3,
            Piece::Queen => 4,
            Piece::King => 5,
        }
    }

    /// The piece with the given index; every index above 4 gives the king.
    pub open spec fn spec_from_index(i: usize) -> Piece {
        if i == 0 {
            Piece::Pawn
        } else if i == 1 {
            Piece::Knight
        } else if i == 2 {
            Piece::Bishop
        } else if i == 3 {
            Piece::Rook
        } else if i == 4 {
            Piece::Queen
        } else {
            Piece::King
        }
    }

    #[verifier::when_used_as_spec(spec_from_index)]
    pub fn from_index(i: usize) -> (r: Piece)
        ensures
            r == Piece::spec_from_index(i),
            i < 6 ==> r.spec_index() == i,
    {
        if i == 0 {
            Piece::Pawn
        } else if i == 1 {
            Piece::Knight
        } else if i == 2 {
            Piece::Bishop
        } else if i == 3 {
            Piece::Rook
        } else if i == 4 {
            Piece::Queen
        } else {
            Piece::King
        }
    }
}

impl Move {
    pub fn new(source: u8, dest: u8, promotion: Option<Piece>) -> (r: Move)
        ensures
            r == (Move { source, dest, promotion }),
    {
        Move { source, dest, promotion }
    }

    /// Both squares are on the board.
    pub open spec fn on_board(self) -> bool {
        self.source < 64 && self.dest < 64
    }
}

impl Snapshot {
    /// The squares that hold any piece.
    pub open spec fn occupied(self) -> u64 {
        self.colors[0] | self.colors[1]
    }

    /// The kind of the piece on `sq`: the first kind, pawns first and kings
    /// last, whose set holds the square.
    pub open spec fn piece_at(self, sq: int) -> Option<Piece> {
        if on(self.pieces[0], sq) {
            Some(Piece::Pawn)
        } else if on(self.pieces[1], sq) {
            Some(Piece::Knight)
        } else if on(self.pieces[2], sq) {
            Some(Piece::Bishop)
        } else if on(self.pieces[3], sq) {
            Some(Piece::Rook)
        } else if on(self.pieces[4], sq) {
            Some(Piece::Queen)
        } else if on(self.pieces[5], sq) {
            Some(Piece::King)
        } else {
            None
        }
    }

    pub fn pieces(&self, piece: Piece) -> (r: u64)
        ensures
            r == self.pieces[piece.spec_index() as int],
    {
        self.pieces[piece.index()]
    }

    pub fn color_combined(&self, color: Color) -> (r: u64)
        ensures
            r == self.colors[color.spec_index() as int],
    {
        self.colors[color.index()]
    }

    pub fn combined(&self) -> (r: u64)
        ensures
            r == self.occupied(),
    {
        self.colors[0] | self.colors[1]
    }

    pub fn in_check(&self) -> (r: bool)
        ensures
            r == (self.checkers != 0),
    {
        self.checkers != 0
    }

    pub fn piece_on(&self, sq: u8) -> (r: Option<Piece>)
        ensures
            r == self.piece_at(sq as int),
    {
        if holds(self.pieces[0], sq) {
            Some(Piece::Pawn)
        } else if holds(self.pieces[1], sq) {
            Some(Piece::Knight)
        } else if holds(self.pieces[2], sq) {
            Some(Piece::Bishop)
        } else if holds(self.pieces[3], sq) {
            Some(Piece::Rook)
        } else if holds(self.pieces[4], sq) {
            Some(Piece::Queen)
        } else if holds(self.pieces[5], sq) {
            Some(Piece::King)
        } else {
            None
        }
    }
}

/// `chess::Board`, a position of the `chess` crate, carried as it is.
#[verifier::external_type_specification]
#[verifier::external_body]
pub struct ExChessBoard(chess::Board);

/// `chess::BoardBuilder`, what the `chess` crate reads from a FEN string
/// before it checks it, carried as it is.
#[verifier::external_type_specification]
#[verifier::external_body]
pub struct ExChessBoardBuilder(chess::BoardBuilder);

/// Whether neither side has more than sixteen pieces. The move generator of
/// the `chess` crate keeps one entry for each piece of the side to move and
/// two for captures en passant in a list of eighteen.
pub open spec fn fits(p: Snapshot) -> bool {
    count(p.colors[0]) <= 16 && count(p.colors[1]) <= 16
}

/// What a `chess::Board` holds, as plain values.
pub uninterp spec fn snapshot(b: chess::Board) -> Snapshot;

/// The position that `chess::Board::from_str` reads from a FEN string, if it
/// accepts the string.
pub uninterp spec fn fen_position(fen: Seq<char>) -> Option<Snapshot>;

/// What stands on each of the 64 squares of a `chess::BoardBuilder`: the
/// index of the piece and that of its colour.
pub uninterp spec fn squares_of(b: chess::BoardBuilder) -> Seq<Option<(usize, usize)>>;

/// The position that `chess::Board::try_from` makes of a builder, if it
/// accepts it.
pub uninterp spec fn board_of(b: chess::BoardBuilder) -> Option<Snapshot>;

/// Whether a king of the colour with index `color` stands on one of the squares.
pub open spec fn has_king(squares: Seq<Option<(usize, usize)>>, color: usize) -> bool {
    exists|sq: int| 0 <= sq < 64 && #[trigger] squares[sq] == Some((5usize, color))
}

/// The legal moves that `chess::MoveGen::new_legal` yields, in its order.
pub uninterp spec fn legal_moves_of(p: Snapshot) -> Seq<Move>;

/// The position that `chess::Board::make_move_new` gives.
pub uninterp spec fn position_after(p: Snapshot, mv: Move) -> Snapshot;

/// The position that `chess::Board::null_move` gives to the other side.
pub uninterp spec fn position_passed(p: Snapshot) -> Snapshot;

/// How many ranks lie between two squares.
pub open spec fn ranks_apart(a: int, b: int) -> int {
    if a / 8 >= b / 8 {
        a / 8 - b / 8
    } else {
        b / 8 - a / 8
    }
}

/// How many files lie between two squares.
pub open spec fn files_apart(a: int, b: int) -> int {
    if a % 8 >= b % 8 {
        a % 8 - b % 8
    } else {
        b % 8 - a % 8
    }
}

/// Whether a king goes from `from` to `to`: at most one rank and one file
/// away, and not to its own square.
pub open spec fn king_reaches(from: int, to: int) -> bool {
    to != from && ranks_apart(from, to) <= 1 && files_apart(from, to) <= 1
}

/// Whether a knight goes from `from` to `to`: two ranks and one file away, or
/// one rank and two files.
pub open spec fn knight_reaches(from: int, to: int) -> bool {
    (ranks_apart(from, to) == 2 && files_apart(from, to) == 1) || (ranks_apart(from, to) == 1
        && files_apart(from, to) == 2)
}

/// Whether a pawn on `from`, white or black, attacks `to`: one rank ahead
/// and one file to the side.
pub open spec fn pawn_reaches(from: int, white: bool, to: int) -> bool {
    files_apart(from, to) == 1 && if white {
        to / 8 == from / 8 + 1
    } else {
        to / 8 == from / 8 - 1
    }
}

/// Whether `set` holds just the squares that a king on `sq` attacks.
pub open spec fn is_king_set(sq: u8, set: u64) -> bool {
    forall|to: int| 0 <= to < 64 ==> #[trigger] on(set, to) == king_reaches(sq as int, to)
}

/// Whether `set` holds just the squares that a knight on `sq` attacks.
pub open spec fn is_knight_set(sq: u8, set: u64) -> bool {
    forall|to: int| 0 <= to < 64 ==> #[trigger] on(set, to) == knight_reaches(sq as int, to)
}

/// Whether `set` holds just the squares among `blockers` that a pawn on
/// `sq`, white or black, attacks.
pub open spec fn is_pawn_set(sq: u8, white: bool, blockers: u64, set: u64) -> bool {
    forall|to: int|
        0 <= to < 64 ==> #[trigger] on(set, to) == (on(blockers, to) && pawn_reaches(
            sq as int,
            white,
            to,
        ))
}

/// The squares a king on `sq` attacks.
pub open spec fn king_attacks(sq: u8) -> u64 {
    choose|set: u64| is_king_set(sq, set)
}

/// The squares a knight on `sq` attacks.
pub open spec fn knight_attacks(sq: u8) -> u64 {
    choose|set: u64| is_knight_set(sq, set)
}

/// The squares a rook on `sq` attacks when `blockers` are in its way, by
/// `chess::get_rook_moves`.
pub uninterp spec fn rook_attacks(sq: u8, blockers: u64) -> u64;

/// The squares a bishop on `sq` attacks when `blockers` are in its way, by
/// `chess::get_bishop_moves`.
pub uninterp spec fn bishop_attacks(sq: u8, blockers: u64) -> u64;

/// The squares among `blockers` that a pawn on `sq`, white or black, attacks.
pub open spec fn pawn_attacks(sq: u8, white: bool, blockers: u64) -> u64 {
    choose|set: u64| is_pawn_set(sq, white, blockers, set)
}

/// `chess::get_king_moves`, a lookup in a table that the crate fills with
/// the squares at most one rank and one file away, the square itself left out.
#[verifier::external_body]
fn king_table(sq: u8) -> (r: u64)
    requires
        sq < 64,
    ensures
        is_king_set(sq, r),
{
    chess::get_king_moves(chess::ALL_SQUARES[sq as usize]).0
}

/// `chess::get_knight_moves`, a lookup in a table that the crate fills with
/// the squares two ranks and one file away, or one rank and two files.
#[verifier::external_body]
fn knight_table(sq: u8) -> (r: u64)
    requires
        sq < 64,
    ensures
        is_knight_set(sq, r),
{
    chess::get_knight_moves(chess::ALL_SQUARES[sq as usize]).0
}

/// `chess::get_rook_moves`, a lookup in the crate's magic tables. The
/// contract names the result.
#[verifier::external_body]
pub(crate) fn rook_moves(sq: u8, blockers: u64) -> (r: u64)
    requires
        sq < 64,
    ensures
        r == rook_attacks(sq, blockers),
{
    chess::get_rook_moves(chess::ALL_SQUARES[sq as usize], chess::BitBoard(blockers)).0
}

/// `chess::get_bishop_moves`, a lookup in the crate's magic tables. The
/// contract names the result.
#[verifier::external_body]
pub(crate) fn bishop_moves(sq: u8, blockers: u64) -> (r: u64)
    requires
        sq < 64,
    ensures
        r == bishop_attacks(sq, blockers),
{
    chess::get_bishop_moves(chess::ALL_SQUARES[sq as usize], chess::BitBoard(blockers)).0
}

/// `chess::get_pawn_attacks`, a lookup in a table that the crate fills with
/// the squares one rank ahead and one file to the side, cut down to `blockers`.
#[verifier::external_body]
fn pawn_table(sq: u8, white: bool, blockers: u64) -> (r: u64)
    requires
        sq < 64,
    ensures
        is_pawn_set(sq, white, blockers, r),
{
    let color = if white { chess::Color::White } else { chess::Color::Black };
    chess::get_pawn_attacks(chess::ALL_SQUARES[sq as usize], color, chess::BitBoard(blockers)).0
}

/// The squares a king on `sq` attacks.
pub(crate) fn king_moves(sq: u8) -> (r: u64)
    requires
        sq < 64,
    ensures
        r == king_attacks(sq),
{
    let r = king_table(sq);
    proof {
        lemma_same_squares(r, king_attacks(sq));
    }
    r
}

/// The squares a knight on `sq` attacks.
pub(crate) fn knight_moves(sq: u8) -> (r: u64)
    requires
        sq < 64,
    ensures
        r == knight_attacks(sq),
{
    let r = knight_table(sq);
    proof {
        lemma_same_squares(r, knight_attacks(sq));
    }
    r
}

/// The squares among `blockers` that a pawn on `sq`, white or black, attacks.
pub(crate) fn pawn_moves(sq: u8, white: bool, blockers: u64) -> (r: u64)
    requires
        sq < 64,
    ensures
        r == pawn_attacks(sq, white, blockers),
{
    let r = pawn_table(sq, white, blockers);
    proof {
        lemma_same_squares(r, pawn_attacks(sq, white, blockers));
    }
    r
}

/// Reads every field of a `chess::Board` through its accessors (`pieces`,
/// `color_combined`, `castle_rights`, `side_to_move`, `en_passant`,
/// `checkers`, `pinned`, `get_hash`). The contract only names what was read.
#[verifier::external_body]
fn observe(b: &chess::Board) -> (p: Snapshot)
    ensures
        p == snapshot(*b),
{
    Snapshot {
        pieces: chess::ALL_PIECES.map(|k| b.pieces(k).0),
        colors: chess::ALL_COLORS.map(|c| b.color_combined(c).0),
        castles: chess::ALL_COLORS.map(|c| b.castle_rights(c).to_index()),
        side_to_move: match b.side_to_move() {
            chess::Color::White => Color::White,
            chess::Color::Black => Color::Black,
        },
        en_passant: b.en_passant().map(|s| s.to_int()),
        checkers: b.checkers().0,
        pinned: b.pinned().0,
        hash: b.get_hash(),
    }
}

/// `chess::BoardBuilder::from_str`: reads the fields of a FEN string. Where it
/// fails, `chess::Board::from_str` fails too; where it succeeds,
/// `chess::Board::from_str` goes on to build the board from what it read, and
/// that gives no board unless each side has a king.
#[verifier::external_body]
fn read_fen(fen: &str) -> (r: Option<chess::BoardBuilder>)
    ensures
        match r {
            Some(b) => fen_position(fen@) == board_of(b) && (!(has_king(squares_of(b), 0)
                && has_king(squares_of(b), 1)) ==> board_of(b).is_none()),
            None => fen_position(fen@).is_none(),
        },
{
    chess::BoardBuilder::from_str(fen).ok()
}

/// Indexing a `chess::BoardBuilder` by a square: the piece and the colour on
/// it, each by its index.
#[verifier::external_body]
fn piece_of(b: &chess::BoardBuilder, sq: u8) -> (r: Option<(usize, usize)>)
    requires
        sq < 64,
    ensures
        r == squares_of(*b)[sq as int],
{
    b[chess::ALL_SQUARES[sq as usize]].map(|(piece, color)| (piece.to_index(), color.to_index()))
}

/// `chess::Board::try_from` a builder, which looks for the king of the side
/// to move before it checks that there is one: the board, unless it fails
/// the crate's sanity checks.
#[verifier::external_body]
fn build(b: &chess::BoardBuilder) -> (r: Option<chess::Board>)
    requires
        has_king(squares_of(*b), 0),
        has_king(squares_of(*b), 1),
    ensures
        match r {
            Some(board) => board_of(*b) == Some(snapshot(board)),
            None => board_of(*b).is_none(),
        },
{
    chess::Board::try_from(b).ok()
}

/// `chess::MoveGen::new_legal`, collected: the legal moves of the side to
/// move. The generator writes one entry for each piece of the side to move,
/// and two more at most, into a list of eighteen without a check, so boards
/// with more than sixteen pieces of a colour are left out. The contract names
/// the list and says that every square is on the board, as every
/// `chess::Square` is.
#[verifier::external_body]
fn generate(b: &chess::Board) -> (r: Vec<Move>)
    requires
        fits(snapshot(*b)),
    ensures
        r@ == legal_moves_of(snapshot(*b)),
        forall|i: int| 0 <= i < r@.len() ==> (#[trigger] r@[i]).on_board(),
{
    chess::MoveGen::new_legal(b).map(|m| Move {
        source: m.get_source().to_int(),
        dest: m.get_dest().to_int(),
        promotion: m.get_promotion().map(|p| Piece::from_index(p.to_index())),
    }).collect()
}

/// `chess::Board::make_move_new`, which is meant for legal moves only: it
/// panics where the source square is empty. The contract names the result
/// and says that the other side is to move in it, and that neither side has
/// more pieces than before: a move only moves, takes or exchanges pieces.
#[verifier::external_body]
fn moved(b: &chess::Board, mv: Move) -> (r: chess::Board)
    requires
        legal_moves_of(snapshot(*b)).contains(mv),
    ensures
        snapshot(r) == position_after(snapshot(*b), mv),
        snapshot(r).side_to_move == snapshot(*b).side_to_move.spec_other(),
        count(snapshot(r).colors[0]) <= count(snapshot(*b).colors[0]),
        count(snapshot(r).colors[1]) <= count(snapshot(*b).colors[1]),
{
    let promotion = mv.promotion.map(|p| chess::ALL_PIECES[p.index()]);
    let source = chess::ALL_SQUARES[mv.source as usize];
    let dest = chess::ALL_SQUARES[mv.dest as usize];
    b.make_move_new(chess::ChessMove::new(source, dest, promotion))
}

/// `chess::Board::null_move`: `None` exactly when the side to move is in
/// check, else a copy of the board in which the other side is to move and
/// no pawn can be taken en passant. The contract says so and names the copy.
#[verifier::external_body]
fn passed(b: &chess::Board) -> (r: Option<chess::Board>)
    ensures
        r.is_none() == (snapshot(*b).checkers != 0),
        match r {
            Some(c) => {
                &&& snapshot(c) == position_passed(snapshot(*b))
                &&& snapshot(c).pieces == snapshot(*b).pieces
                &&& snapshot(c).colors == snapshot(*b).colors
                &&& snapshot(c).castles == snapshot(*b).castles
                &&& snapshot(c).side_to_move == snapshot(*b).side_to_move.spec_other()
                &&& snapshot(c).en_passant.is_none()
            },
            None => true,
        },
{
    b.null_move()
}

/// Whether a king of the colour with index `color` stands on the builder's board.
fn finds_king(b: &chess::BoardBuilder, color: usize) -> (r: bool)
    ensures
        r == has_king(squares_of(*b), color),
{
    let mut sq: u8 = 0;
    while sq < 64
        invariant
            sq <= 64,
            forall|s: int| 0 <= s < sq ==> squares_of(*b)[s] != Some((5usize, color)),
        decreases 64 - sq,
    {
        match piece_of(b, sq) {
            Some((piece, side)) => {
                if piece == 5 && side == color {
                    return true;
                }
            },
            None => {},
        }
        sq = sq + 1;
    }
    false
}

/// A position of the `chess` crate together with what the engine reads of it.
#[derive(Debug, Clone, Copy)]
pub struct Position {
    inner: chess::Board,
    position: Snapshot,
}

impl View for Position {
    type V = Snapshot;

    closed spec fn view(&self) -> Snapshot {
        self.position
    }
}

impl Position {
    #[verifier::type_invariant]
    spec fn agrees(self) -> bool {
        self.position == snapshot(self.inner) && fits(self.position)
    }

    /// The board that a FEN string describes, if the string is one, the
    /// position is sound, and neither side has more than sixteen pieces.
    pub fn from_fen(fen: &str) -> (r: Option<Position>)
        ensures
            match r {
                Some(b) => fen_position(fen@) == Some(b@) && fits(b@),
                None => match fen_position(fen@) {
                    Some(p) => !fits(p),
                    None => true,
                },
            },
    {
        match read_fen(fen) {
            Some(builder) => {
                if finds_king(&builder, 0) && finds_king(&builder, 1) {
                    match build(&builder) {
                        Some(inner) => {
                            let position = observe(&inner);
                            if popcount(position.colors[0]) <= 16 && popcount(position.colors[1])
                                <= 16 {
                                Some(Position { inner, position })
                            } else {
                                None
                            }
                        },
                        None => None,
                    }
                } else {
                    None
                }
            },
            None => None,
        }
    }

    /// What the engine reads of the position.
    pub fn position(&self) -> (r: Snapshot)
        ensures
            r == self@,
            fits(r),
    {
        proof {
            use_type_invariant(self);
        }
        self.position
    }

    /// The hash of the position.
    pub fn hash(&self) -> (r: u64)
        ensures
            r == self@.hash,
    {
        self.position.hash
    }

    /// The legal moves of the side to move.
    pub fn legal_moves(&self) -> (r: Vec<Move>)
        ensures
            r@ == legal_moves_of(self@),
            forall|i: int| 0 <= i < r@.len() ==> (#[trigger] r@[i]).on_board(),
    {
        proof {
            use_type_invariant(self);
        }
        generate(&self.inner)
    }

    /// Whether `mv` is a legal move here.
    pub fn is_legal(&self, mv: Move) -> (r: bool)
        ensures
            r == legal_moves_of(self@).contains(mv),
    {
        let moves = self.legal_moves();
        let mut i: usize = 0;
        while i < moves.len()
            invariant
                i <= moves@.len(),
                moves@ == legal_moves_of(self@),
                forall|j: int| 0 <= j < i ==> moves@[j] != mv,
            decreases moves@.len() - i,
        {
            if moves[i] == mv {
                return true;
            }
            i = i + 1;
        }
        false
    }

    /// The board after the legal move `mv`.
    pub fn make_move(&self, mv: Move) -> (r: Position)
        requires
            legal_moves_of(self@).contains(mv),
        ensures
            r@ == position_after(self@, mv),
            r@.side_to_move == self@.side_to_move.spec_other(),
            count(r@.colors[0]) <= count(self@.colors[0]),
            count(r@.colors[1]) <= count(self@.colors[1]),
    {
        proof {
            use_type_invariant(self);
        }
        let inner = moved(&self.inner, mv);
        let position = observe(&inner);
        Position { inner, position }
    }

    /// The board after `mv` if the move is legal here, else `None`.
    pub fn try_move(&self, mv: Move) -> (r: Option<Position>)
        ensures
            match r {
                Some(b) => legal_moves_of(self@).contains(mv) && b@ == position_after(self@, mv),
                None => !legal_moves_of(self@).contains(mv),
            },
    {
        if self.is_legal(mv) {
            Some(self.make_move(mv))
        } else {
            None
        }
    }

    /// The same position with the other side to move, unless the side to
    /// move is in check.
    pub fn null_move(&self) -> (r: Option<Position>)
        ensures
            r.is_none() == (self@.checkers != 0),
            match r {
                Some(b) => {
                    &&& b@ == position_passed(self@)
                    &&& b@.pieces == self@.pieces
                    &&& b@.colors == self@.colors
                    &&& b@.castles == self@.castles
                    &&& b@.side_to_move == self@.side_to_move.spec_other()
                    &&& b@.en_passant.is_none()
                },
                None => true,
            },
    {
        proof {
            use_type_invariant(self);
        }
        match passed(&self.inner) {
            Some(inner) => {
                let position = observe(&inner);
                Some(Position { inner, position })
            },
            None => None,
        }
    }
}

} // verus!
