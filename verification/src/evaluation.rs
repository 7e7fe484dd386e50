//! Scores: centipawns from the side to move's point of view, with the two
//! ends of the `i32` range set aside for forced mates.

use vstd::prelude::*;
use crate::board::{Piece, Position};

verus! {

/// A score from the point of view of the side to move.
///
/// Scores within 255 of `i32::MAX` are mates for the side to move, scores
/// within 255 of `-i32::MAX` are mates against it, and everything between is
/// a centipawn count.
#[derive(Debug, Clone, Copy, PartialEq, Eq, PartialOrd, Ord, Hash, Structural)]
pub struct Evaluation(pub i32);

/// What an [`Evaluation`] means.
#[derive(Debug, Clone, Copy, PartialEq, Eq, Hash, Structural)]
pub enum EvaluationKind {
    Centipawn(i32),
    MateIn(u8),
    MatedIn(u8),
}

/// The largest score: mate on the board for the side to move.
pub const MAX_SCORE: i32 = 2147483647i32;

/// The lowest score of the band that stands for "mate in `p` plies".
pub const MATE_BAND: i32 = 2147483392i32;

/// The highest score that stands for centipawns.
pub const MAX_CENTIPAWNS: i32 = 2147483391i32;

/// The score of a mate delivered in `plies` plies.
pub open spec fn mate_score(plies: int) -> int {
    MAX_SCORE - plies
}

/// The meaning of the raw score `v`.
pub open spec fn kind_of(v: int) -> EvaluationKind {
    if v >= MATE_BAND {
        EvaluationKind::MateIn((MAX_SCORE - v) as u8)
    } else if v < -(MAX_SCORE as int) {
        EvaluationKind::MatedIn(255u8)
    } else if v <= -(MATE_BAND as int) {
        EvaluationKind::MatedIn((v + MAX_SCORE) as u8)
    } else {
        EvaluationKind::Centipawn(v as i32)
    }
}

/// The text that `format!` gives for "whole.hundredths".
pub uninterp spec fn pawns_text(whole: i32, hundredths: i32) -> Seq<char>;

/// The text that `format!` gives for "M" and a number.
pub uninterp spec fn mate_text(moves: u8) -> Seq<char>;

/// The text that `format!` gives for "-M" and a number.
pub uninterp spec fn mated_text(moves: u8) -> Seq<char>;

/// `format!` of two numbers with a dot between them. The contract names the text.
#[verifier::external_body]
fn show_pawns(whole: i32, hundredths: i32) -> (r: String)
    ensures
        r@ == pawns_text(whole, hundredths),
{
    format!("{}.{}", whole, hundredths)
}

/// `format!` of "M" and a number. The contract names the text.
#[verifier::external_body]
fn show_mate(moves: u8) -> (r: String)
    ensures
        r@ == mate_text(moves),
{
    format!("M{}", moves)
}

/// `format!` of "-M" and a number. The contract names the text.
#[verifier::external_body]
fn show_mated(moves: u8) -> (r: String)
    ensures
        r@ == mated_text(moves),
{
    format!("-M{}", moves)
}

/// The whole pawns in a centipawn count, rounded towards zero.
pub open spec fn whole_pawns(cp: i32) -> i32 {
    if cp >= 0 {
        (cp / 100) as i32
    } else {
        (-((-cp) / 100)) as i32
    }
}

/// The centipawns beyond the whole pawns, without their sign.
pub open spec fn odd_centipawns(cp: i32) -> i32 {
    if cp >= 0 {
        (cp % 100) as i32
    } else {
        ((-cp) % 100) as i32
    }
}

/// The moves that a mate in `plies` plies takes the side that mates.
pub open spec fn mate_moves(plies: u8) -> u8 {
    ((plies + 1) / 2) as u8
}

impl EvaluationKind {
    /// The text of what a score means. A centipawn count is shown in pawns,
    /// the whole pawns with their sign before the dot and the hundredths
    /// without it after the dot; a mate is shown as "M" and the moves it
    /// takes, after "-" where it is against the side to move.
    pub open spec fn text(self) -> Seq<char> {
        match self {
            EvaluationKind::Centipawn(cp) => pawns_text(whole_pawns(cp), odd_centipawns(cp)),
            EvaluationKind::MateIn(m) => mate_text(mate_moves(m)),
            EvaluationKind::MatedIn(m) => mated_text(mate_moves(m)),
        }
    }

    pub fn to_text(&self) -> (r: String)
        ensures
            r@ == self.text(),
    {
        match *self {
            EvaluationKind::Centipawn(cp) => {
                let wide: i64 = cp as i64;
                if wide >= 0 {
                    show_pawns((wide / 100) as i32, (wide % 100) as i32)
                } else {
                    show_pawns((-((-wide) / 100)) as i32, ((-wide) % 100) as i32)
                }
            },
            EvaluationKind::MateIn(m) => show_mate(((m as u16 + 1) / 2) as u8),
            EvaluationKind::MatedIn(m) => show_mated(((m as u16 + 1) / 2) as u8),
        }
    }
}

impl Evaluation {
    /// The text of what the score means.
    pub fn to_text(&self) -> (r: String)
        ensures
            r@ == kind_of(self.value()).text(),
    {
        self.kind().to_text()
    }

    /// The score of a drawn position.
    pub fn draw() -> (r: Evaluation)
        ensures
            r.value() == 0,
    {
        Evaluation(0)
    }

    /// The highest score, a mate already on the board.
    pub fn highest() -> (r: Evaluation)
        ensures
            r.value() == MAX_SCORE,
    {
        Evaluation(MAX_SCORE)
    }

    /// The lowest score that the search works with, the negation of the highest.
    pub fn lowest() -> (r: Evaluation)
        ensures
            r.value() == -(MAX_SCORE as int),
    {
        Evaluation(-MAX_SCORE)
    }

    /// The raw score as a mathematical integer.
    pub open spec fn value(self) -> int {
        self.0 as int
    }

    /// Whether the score can be negated: every score but `i32::MIN`.
    pub open spec fn is_balanced(self) -> bool {
        -(MAX_SCORE as int) <= self.0
    }

    pub fn from_centipawns(centipawns: i32) -> (r: Evaluation)
        ensures
            r.value() == centipawns,
    {
        Evaluation(centipawns)
    }

    pub fn mate_in(plies_to_mate: u8) -> (r: Evaluation)
        ensures
            r.value() == mate_score(plies_to_mate as int),
            r.is_balanced(),
    {
        Evaluation(MAX_SCORE - plies_to_mate as i32)
    }

    pub fn mated_in(plies_to_mate: u8) -> (r: Evaluation)
        ensures
            r.value() == -mate_score(plies_to_mate as int),
            r.is_balanced(),
    {
        Evaluation(-(MAX_SCORE - plies_to_mate as i32))
    }

    /// The greater of two scores.
    pub fn max(self, other: Evaluation) -> (r: Evaluation)
        ensures
            r == if other.value() > self.value() {
                other
            } else {
                self
            },
    {
        if other.0 > self.0 {
            other
        } else {
            self
        }
    }

    /// The lesser of two scores.
    pub fn min(self, other: Evaluation) -> (r: Evaluation)
        ensures
            r == if other.value() < self.value() {
                other
            } else {
                self
            },
    {
        if other.0 < self.0 {
            other
        } else {
            self
        }
    }

    pub fn kind(self) -> (r: EvaluationKind)
        ensures
            r == kind_of(self.value()),
    {
        let v: i32 = self.0;
        if v >= MATE_BAND {
            EvaluationKind::MateIn((MAX_SCORE - v) as u8)
        } else if v < -MAX_SCORE {
            EvaluationKind::MatedIn(255u8)
        } else if v <= -MATE_BAND {
            EvaluationKind::MatedIn((v + MAX_SCORE) as u8)
        } else {
            EvaluationKind::Centipawn(v)
        }
    }
}

/// The bands do not overlap: the score of a mate in so many plies reads as
/// that mate, the score of being mated as that, and whatever lies between
/// the two bands reads as centipawns.
pub proof fn lemma_bands_are_apart(plies: u8, centipawns: i32)
    requires
        -MAX_CENTIPAWNS <= centipawns <= MAX_CENTIPAWNS,
    ensures
        kind_of(mate_score(plies as int)) == EvaluationKind::MateIn(plies),
        kind_of(-mate_score(plies as int)) == EvaluationKind::MatedIn(plies),
        kind_of(centipawns as int) == EvaluationKind::Centipawn(centipawns),
        -mate_score(plies as int) < centipawns < mate_score(plies as int),
{
}

/// A mate in fewer plies scores higher, and being mated later scores higher.
pub proof fn lemma_sooner_mate_scores_higher(sooner: u8, later: u8)
    requires
        sooner < later,
    ensures
        mate_score(sooner as int) > mate_score(later as int),
        -mate_score(sooner as int) < -mate_score(later as int),
{
}

impl core::ops::Neg for Evaluation {
    type Output = Evaluation;

    fn neg(self) -> (r: Evaluation) {
        Evaluation(-self.0)
    }
}

impl vstd::std_specs::ops::NegSpecImpl for Evaluation {
    open spec fn obeys_neg_spec() -> bool {
        true
    }

    open spec fn neg_req(self) -> bool {
        self.is_balanced()
    }

    open spec fn neg_spec(self) -> Evaluation {
        Evaluation((-self.0) as i32)
    }
}

impl core::ops::Add for Evaluation {
    type Output = Evaluation;

    fn add(self, other: Evaluation) -> (r: Evaluation) {
        Evaluation(self.0 + other.0)
    }
}

impl vstd::std_specs::ops::AddSpecImpl for Evaluation {
    open spec fn obeys_add_spec() -> bool {
        true
    }

    open spec fn add_req(self, other: Evaluation) -> bool {
        i32::MIN <= self.0 + other.0 <= i32::MAX
    }

    open spec fn add_spec(self, other: Evaluation) -> Evaluation {
        Evaluation((self.0 + other.0) as i32)
    }
}

impl core::ops::Sub for Evaluation {
    type Output = Evaluation;

    fn sub(self, other: Evaluation) -> (r: Evaluation) {
        Evaluation(self.0 - other.0)
    }
}

impl vstd::std_specs::ops::SubSpecImpl for Evaluation {
    open spec fn obeys_sub_spec() -> bool {
        true
    }

    open spec fn sub_req(self, other: Evaluation) -> bool {
        i32::MIN <= self.0 - other.0 <= i32::MAX
    }

    open spec fn sub_spec(self, other: Evaluation) -> Evaluation {
        Evaluation((self.0 - other.0) as i32)
    }
}

/// Something that scores positions and pieces.
pub trait Evaluator {
    /// The score of `board`, `ply_index` plies below the root, for the side
    /// to move.
    fn evaluate(&self, board: &Position, ply_index: u8) -> (r: Evaluation)
        ensures
            r.is_balanced(),
    ;

    /// The material value of a piece.
    fn piece_value(&self, piece: Piece) -> Evaluation;
}

} // verus!
