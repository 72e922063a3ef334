//! Piece kinds.

use vstd::prelude::*;

verus! {

/// A piece kind.  `UNKNOWN` stands for an empty square when a board is asked
/// what occupies it, and for "no letter seen yet" while a SAN token is being
/// scanned.
#[allow(non_camel_case_types)]
#[derive(Debug, Clone, Copy, PartialEq, Eq, Structural)]
pub enum Piece {
    PAWN,
    BISHOP,
    KNIGHT,
    ROOK,
    QUEEN,
    KING,
    UNKNOWN,
}

impl Piece {
    /// The long English name of the piece, "?" for `UNKNOWN`.
    pub open spec fn name_seq(self) -> Seq<char> {
        match self {
            Piece::PAWN => "Pawn"@,
            Piece::BISHOP => "Bishop"@,
            Piece::KNIGHT => "Knight"@,
            Piece::ROOK => "Rook"@,
            Piece::QUEEN => "Queen"@,
            Piece::KING => "King"@,
            Piece::UNKNOWN => "?"@,
        }
    }

    /// The long English name of the piece, "?" for `UNKNOWN`.
    pub fn name(&self) -> (s: String)
        ensures
            s@ == self.name_seq(),
    {
        match self {
            Piece::PAWN => String::from_str("Pawn"),
            Piece::BISHOP => String::from_str("Bishop"),
            Piece::KNIGHT => String::from_str("Knight"),
            Piece::ROOK => String::from_str("Rook"),
            Piece::QUEEN => String::from_str("Queen"),
            Piece::KING => String::from_str("King"),
            Piece::UNKNOWN => String::from_str("?"),
        }
    }
}

} // verus!
