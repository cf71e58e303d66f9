//! Moves packed into sixteen bits.

use crate::base_structures::move_flags::MoveFlag;
use crate::base_structures::square::Square;
use vstd::prelude::*;

verus! {

/// A move: origin, destination and flag packed into sixteen bits. The
/// origin takes the low six bits, the destination the next six, the code of
/// the flag the top four.
#[derive(Clone, Copy, PartialEq, Eq, Structural, Debug)]
pub struct Move(pub u16);

impl Move {
    /// The move with the given origin, destination and flag.
    pub open spec fn at(from: int, to: int, flag: MoveFlag) -> Move {
        Move((from + to * 64 + flag.spec_code() * 4096) as u16)
    }

    pub open spec fn from(self) -> int {
        (self.0 % 64) as int
    }

    pub open spec fn to(self) -> int {
        ((self.0 / 64) % 64) as int
    }

    pub open spec fn flag(self) -> MoveFlag {
        MoveFlag::spec_from_code(self.0 / 4096)
    }

    /// A packed move gives back what it was packed from.
    pub proof fn lemma_at(from: int, to: int, flag: MoveFlag)
        requires
            0 <= from < 64,
            0 <= to < 64,
        ensures
            Move::at(from, to, flag).from() == from,
            Move::at(from, to, flag).to() == to,
            Move::at(from, to, flag).flag() == flag,
    {
        flag.lemma_code_round_trip();
        let code = flag.spec_code() as int;
        let raw = from + to * 64 + code * 4096;
        assert(0 <= raw < 65536);
        assert(raw % 64 == from);
        assert((raw / 64) % 64 == to);
        assert(raw / 4096 == code);
    }

    /// Two moves packed from different parts differ.
    pub proof fn lemma_at_injective(
        from_a: int,
        to_a: int,
        flag_a: MoveFlag,
        from_b: int,
        to_b: int,
        flag_b: MoveFlag,
    )
        requires
            0 <= from_a < 64,
            0 <= to_a < 64,
            0 <= from_b < 64,
            0 <= to_b < 64,
            Move::at(from_a, to_a, flag_a) == Move::at(from_b, to_b, flag_b),
        ensures
            from_a == from_b,
            to_a == to_b,
            flag_a == flag_b,
    {
        Move::lemma_at(from_a, to_a, flag_a);
        Move::lemma_at(from_b, to_b, flag_b);
    }

    pub fn from_squares(from_square: Square, to_square: Square, flag: MoveFlag) -> (r: Move)
        requires
            from_square.is_valid(),
            to_square.is_valid(),
        ensures
            r == Move::at(from_square.index(), to_square.index(), flag),
            r.from() == from_square.index(),
            r.to() == to_square.index(),
            r.flag() == flag,
    {
        proof {
            Move::lemma_at(from_square.index(), to_square.index(), flag);
        }
        let from: u16 = from_square.get_raw() as u16;
        let to: u16 = to_square.get_raw() as u16;
        Move(from + to * 64 + flag.code() * 4096)
    }

    pub fn from_raw(raw: u16) -> (r: Move)
        ensures
            r.0 == raw,
    {
        Move(raw)
    }

    pub fn get_raw(&self) -> (r: u16)
        ensures
            r == self.0,
    {
        self.0
    }

    pub fn get_from_square(&self) -> (r: Square)
        ensures
            r.is_valid(),
            r.index() == self.from(),
    {
        Square((self.0 % 64) as u8)
    }

    pub fn get_to_square(&self) -> (r: Square)
        ensures
            r.is_valid(),
            r.index() == self.to(),
    {
        Square(((self.0 / 64) % 64) as u8)
    }

    pub fn get_flag(&self) -> (r: MoveFlag)
        ensures
            r == self.flag(),
    {
        MoveFlag::from_code(self.0 / 4096)
    }

    pub fn is_capture(&self) -> (r: bool)
        ensures
            r == self.flag().spec_is_capture(),
    {
        self.get_flag().is_capture()
    }

    pub fn is_promotion(&self) -> (r: bool)
        ensures
            r == self.flag().spec_promotion().is_some(),
    {
        self.get_flag().promotion().is_some()
    }
}

} // verus!
