//! Board coordinates.

use crate::geometry::{file_of, rank_of};
use vstd::prelude::*;

verus! {

/// A board coordinate `0..64` in rank-major order, or the sentinel
/// [`Square::NULL`] that stands for "no square".
#[derive(Clone, Copy, PartialEq, Eq, Structural, Debug)]
pub struct Square(pub u8);

impl Square {
    pub open spec fn spec_null() -> Square {
        Square(64)
    }

    /// The sentinel for "no square".
    #[verifier::when_used_as_spec(spec_null)]
    pub fn null() -> (r: Square)
        ensures
            r == Square(64),
            !r.is_valid(),
    {
        Square(64)
    }

    /// The square names a real board coordinate.
    pub open spec fn is_valid(self) -> bool {
        self.0 < 64
    }

    pub open spec fn index(self) -> int {
        self.0 as int
    }

    pub fn from_raw(raw: u8) -> (r: Square)
        ensures
            r.0 == raw,
    {
        Square(raw)
    }

    pub fn get_raw(&self) -> (r: u8)
        ensures
            r == self.0,
    {
        self.0
    }

    pub fn from_coords(rank: u8, file: u8) -> (r: Square)
        requires
            rank < 8,
            file < 8,
        ensures
            r.is_valid(),
            r.index() == rank * 8 + file,
            rank_of(r.index()) == rank,
            file_of(r.index()) == file,
    {
        Square(rank * 8 + file)
    }

    pub fn is_null(&self) -> (r: bool)
        ensures
            r == !self.is_valid(),
    {
        self.0 >= 64
    }

    pub fn get_rank(&self) -> (r: u8)
        ensures
            r == rank_of(self.index()),
    {
        self.0 / 8
    }

    pub fn get_file(&self) -> (r: u8)
        ensures
            r == file_of(self.index()),
    {
        self.0 % 8
    }
}

} // verus!
