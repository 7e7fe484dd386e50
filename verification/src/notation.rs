//! Moves in coordinate notation, as `e2e4` or `e7e8q`.

use vstd::prelude::*;
use vstd::string::StrSliceExecFns;
use crate::board::{Move, Piece};

verus! {

/// The index of the file or rank that `c` names among the eight letters or
/// digits that begin with `first`.
pub open spec fn place_of(c: char, first: char) -> Option<u8> {
    if first as u32 <= c as u32 && (c as u32) < first as u32 + 8 {
        Some((c as u32 - first as u32) as u8)
    } else {
        None
    }
}

/// The square that a file letter from `a` to `h` and a rank digit from `1`
/// to `8` name.
pub open spec fn square_named(file: char, rank: char) -> Option<u8> {
    match (place_of(file, 'a'), place_of(rank, '1')) {
        (Some(f), Some(r)) => Some((r * 8 + f) as u8),
        _ => None,
    }
}

/// The piece that a promotion letter names.
pub open spec fn promotion_named(c: char) -> Option<Piece> {
    if c == 'q' {
        Some(Piece::Queen)
    } else if c == 'r' {
        Some(Piece::Rook)
    } else if c == 'n' {
        Some(Piece::Knight)
    } else if c == 'b' {
        Some(Piece::Bishop)
    } else {
        None
    }
}

/// The move that `text` names: two squares, and in a text of five
/// characters the letter of a promotion piece after them. What follows a
/// sixth character is not read.
pub open spec fn move_named(text: Seq<char>) -> Option<Move> {
    if text.len() < 4 {
        None
    } else {
        match (square_named(text[0], text[1]), square_named(text[2], text[3])) {
            (Some(source), Some(dest)) => if text.len() == 5 {
                match promotion_named(text[4]) {
                    Some(piece) => Some(Move { source, dest, promotion: Some(piece) }),
                    None => None,
                }
            } else {
                Some(Move { source, dest, promotion: None })
            },
            _ => None,
        }
    }
}

fn place(c: char, first: char) -> (r: Option<u8>)
    requires
        first as u32 <= 0xff,
    ensures
        r == place_of(c, first),
        r.is_some() ==> r.unwrap() < 8,
{
    let code: u32 = c as u32;
    let base: u32 = first as u32;
    if base <= code && code < base + 8 {
        Some((code - base) as u8)
    } else {
        None
    }
}

fn square(file: char, rank: char) -> (r: Option<u8>)
    ensures
        r == square_named(file, rank),
        r.is_some() ==> r.unwrap() < 64,
{
    match (place(file, 'a'), place(rank, '1')) {
        (Some(f), Some(r)) => Some(r * 8 + f),
        _ => None,
    }
}

fn promotion(c: char) -> (r: Option<Piece>)
    ensures
        r == promotion_named(c),
{
    if c == 'q' {
        Some(Piece::Queen)
    } else if c == 'r' {
        Some(Piece::Rook)
    } else if c == 'n' {
        Some(Piece::Knight)
    } else if c == 'b' {
        Some(Piece::Bishop)
    } else {
        None
    }
}

/// Reads a move in coordinate notation.
pub fn parse_move(mv: &str) -> (r: Option<Move>)
    ensures
        r == move_named(mv@),
        r.is_some() ==> r.unwrap().on_board(),
{
    let len: usize = mv.unicode_len();
    if len < 4 {
        return None;
    }
    match (square(mv.get_char(0), mv.get_char(1)), square(mv.get_char(2), mv.get_char(3))) {
        (Some(source), Some(dest)) => {
            if len == 5 {
                match promotion(mv.get_char(4)) {
                    Some(piece) => Some(Move { source, dest, promotion: Some(piece) }),
                    None => None,
                }
            } else {
                Some(Move { source, dest, promotion: None })
            }
        },
        _ => None,
    }
}

} // verus!
