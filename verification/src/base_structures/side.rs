//! The two colours.

use vstd::prelude::*;

verus! {

/// The colour of a player or of a piece.
#[derive(Clone, Copy, PartialEq, Eq, Structural, Debug)]
pub enum Side {
    White,
    Black,
}

impl Side {
    pub open spec fn spec_is_white(self) -> bool {
        self is White
    }

    #[verifier::when_used_as_spec(spec_is_white)]
    pub fn is_white(self) -> (r: bool)
        ensures
            r == (self is White),
    {
        match self {
            Side::White => true,
            Side::Black => false,
        }
    }

    pub open spec fn spec_from_white(white: bool) -> Side {
        if white {
            Side::White
        } else {
            Side::Black
        }
    }

    #[verifier::when_used_as_spec(spec_from_white)]
    pub fn from_white(white: bool) -> (r: Side)
        ensures
            r == Side::spec_from_white(white),
    {
        if white {
            Side::White
        } else {
            Side::Black
        }
    }

    pub fn flipped(self) -> (r: Side)
        ensures
            r.is_white() == !self.is_white(),
    {
        match self {
            Side::White => Side::Black,
            Side::Black => Side::White,
        }
    }

    /// 0 for white, 1 for black: the index of the side in per-side tables.
    pub fn get_index(self) -> (r: usize)
        ensures
            r == (if self.is_white() { 0usize } else { 1usize }),
    {
        match self {
            Side::White => 0,
            Side::Black => 1,
        }
    }
}

} // verus!
