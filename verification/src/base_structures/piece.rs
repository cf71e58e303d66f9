//! The kinds of pieces, and a piece of one colour.

use vstd::prelude::*;

verus! {

/// The kind of a piece. The order of the variants is the order of the
/// per-piece bitboards inside a board.
#[derive(Clone, Copy, PartialEq, Eq, Structural, Debug)]
pub enum Piece {
    Pawn,
    Knight,
    Bishop,
    Rook,
    Queen,
    King,
}

impl Piece {
    pub open spec fn spec_index(self) -> int {
        match self {
            Piece::Pawn => 0,
            Piece::Knight => 1,
            Piece::Bishop => 2,
            Piece::Rook => 3,
            Piece::Queen => 4,
            Piece::King => 5,
        }
    }

    pub fn get_index(self) -> (r: usize)
        ensures
            r == self.spec_index(),
            r < 6,
    {
        match self {
            Piece::Pawn => 0,
            Piece::Knight => 1,
            Piece::Bishop => 2,
            Piece::Rook => 3,
            Piece::Queen => 4,
            Piece::King => 5,
        }
    }

    pub open spec fn spec_from_index(index: int) -> Piece {
        if index == 0 {
            Piece::Pawn
        } else if index == 1 {
            Piece::Knight
        } else if index == 2 {
            Piece::Bishop
        } else if index == 3 {
            Piece::Rook
        } else if index == 4 {
            Piece::Queen
        } else {
            Piece::King
        }
    }

    pub fn from_index(index: usize) -> (r: Piece)
        requires
            index < 6,
        ensures
            r == Piece::spec_from_index(index as int),
            r.spec_index() == index,
    {
        if index == 0 {
            Piece::Pawn
        } else if index == 1 {
            Piece::Knight
        } else if index == 2 {
            Piece::Bishop
        } else if index == 3 {
            Piece::Rook
        } else if index == 4 {
            Piece::Queen
        } else {
            Piece::King
        }
    }

    /// Bishops and queens: the pieces that slide along diagonals.
    pub open spec fn slides_diagonally(self) -> bool {
        self is Bishop || self is Queen
    }

    /// Rooks and queens: the pieces that slide along ranks and files.
    pub open spec fn slides_orthogonally(self) -> bool {
        self is Rook || self is Queen
    }
}

/// A piece of one colour, as it stands on a square.
#[derive(Clone, Copy, PartialEq, Eq, Structural, Debug)]
pub struct Man {
    pub white: bool,
    pub piece: Piece,
}

} // verus!
