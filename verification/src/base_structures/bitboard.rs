//! Sets of squares in one machine word.

use crate::base_structures::square::Square;
use crate::bits::{bit, group_bits, lemma_bit_ext, lemma_lowest_bit};
use crate::geometry::{file_of, rank_of};
use vstd::prelude::*;

verus! {

/// A set of squares, one bit per square: bit `i` is set exactly when square
/// `i` is a member.
#[derive(Clone, Copy, PartialEq, Eq, Structural, Debug)]
pub struct Bitboard(pub u64);

impl View for Bitboard {
    type V = Set<int>;

    open spec fn view(&self) -> Set<int> {
        Set::new(|s: int| bit(self.0, s))
    }
}

pub proof fn lemma_file_bits(f: u64, k: u64)
    by (bit_vector)
    requires
        f < 8,
        k < 64,
    ensures
        (((0x0101_0101_0101_0101u64 << f) >> k) & 1 == 1) == (k % 8 == f),
{
}

pub proof fn lemma_rank_bits(r: u64, k: u64)
    by (bit_vector)
    requires
        r < 8,
        k < 64,
    ensures
        (((0xffu64 << (8 * r)) >> k) & 1 == 1) == (k / 8 == r),
{
}

impl Bitboard {
    /// Square `s` is a member of the set.
    #[verifier::inline]
    pub open spec fn contains(self, s: int) -> bool {
        bit(self.0, s)
    }

    pub open spec fn spec_empty() -> Bitboard {
        Bitboard(0)
    }

    /// The set without any square.
    #[verifier::when_used_as_spec(spec_empty)]
    pub fn empty() -> (r: Bitboard)
        ensures
            r == Bitboard(0),
            forall|s: int| !r.contains(s),
    {
        broadcast use group_bits;

        Bitboard(0)
    }

    pub open spec fn spec_full() -> Bitboard {
        Bitboard(0xffff_ffff_ffff_ffff)
    }

    /// The set of all 64 squares.
    #[verifier::when_used_as_spec(spec_full)]
    pub fn full() -> (r: Bitboard)
        ensures
            r == Bitboard(0xffff_ffff_ffff_ffff),
            forall|s: int| r.contains(s) <==> 0 <= s < 64,
    {
        broadcast use group_bits;

        Bitboard(0xffff_ffff_ffff_ffff)
    }

    pub fn from_raw(raw: u64) -> (r: Bitboard)
        ensures
            r.0 == raw,
    {
        Bitboard(raw)
    }

    pub fn get_raw(&self) -> (r: u64)
        ensures
            r == self.0,
    {
        self.0
    }

    /// The set that holds `square` alone.
    pub fn from_square(square: Square) -> (r: Bitboard)
        requires
            square.is_valid(),
        ensures
            r.0 == 1u64 << (square.0 as u64),
            forall|s: int| r.contains(s) <==> s == square.index(),
    {
        broadcast use group_bits;

        Bitboard(1u64 << (square.0 as u64))
    }

    /// All squares of one rank.
    pub fn rank(index: u8) -> (r: Bitboard)
        requires
            index < 8,
        ensures
            forall|s: int| r.contains(s) <==> 0 <= s < 64 && rank_of(s) == index,
    {
        let r = Bitboard(0xffu64 << ((8 * index) as u64));
        proof {
            assert forall|s: int| r.contains(s) <==> 0 <= s < 64 && rank_of(s) == index by {
                if 0 <= s < 64 {
                    lemma_rank_bits(index as u64, s as u64);
                }
            }
        }
        r
    }

    /// All squares of one file.
    pub fn file(index: u8) -> (r: Bitboard)
        requires
            index < 8,
        ensures
            forall|s: int| r.contains(s) <==> 0 <= s < 64 && file_of(s) == index,
    {
        let r = Bitboard(0x0101_0101_0101_0101u64 << (index as u64));
        proof {
            assert forall|s: int| r.contains(s) <==> 0 <= s < 64 && file_of(s) == index by {
                if 0 <= s < 64 {
                    lemma_file_bits(index as u64, s as u64);
                }
            }
        }
        r
    }

    /// Intersection.
    pub fn and(self, other: Bitboard) -> (r: Bitboard)
        ensures
            r.0 == self.0 & other.0,
            forall|s: int| r.contains(s) <==> self.contains(s) && other.contains(s),
    {
        broadcast use group_bits;

        Bitboard(self.0 & other.0)
    }

    /// Union.
    pub fn or(self, other: Bitboard) -> (r: Bitboard)
        ensures
            r.0 == self.0 | other.0,
            forall|s: int| r.contains(s) <==> self.contains(s) || other.contains(s),
    {
        broadcast use group_bits;

        Bitboard(self.0 | other.0)
    }

    /// Symmetric difference.
    pub fn xor(self, other: Bitboard) -> (r: Bitboard)
        ensures
            r.0 == self.0 ^ other.0,
            forall|s: int| r.contains(s) <==> self.contains(s) != other.contains(s),
    {
        broadcast use group_bits;

        Bitboard(self.0 ^ other.0)
    }

    /// Complement within the board.
    pub fn inverse(self) -> (r: Bitboard)
        ensures
            r.0 == !self.0,
            forall|s: int| r.contains(s) <==> 0 <= s < 64 && !self.contains(s),
    {
        broadcast use group_bits;

        Bitboard(!self.0)
    }

    /// Moves every member `n` indices up; members that would leave the
    /// board are dropped.
    pub fn shift_left(self, n: u32) -> (r: Bitboard)
        requires
            n < 64,
        ensures
            r.0 == self.0 << (n as u64),
            forall|s: int| r.contains(s) <==> s < 64 && self.contains(s - n),
    {
        broadcast use group_bits;

        Bitboard(self.0 << (n as u64))
    }

    /// Moves every member `n` indices down; members that would leave the
    /// board are dropped.
    pub fn shift_right(self, n: u32) -> (r: Bitboard)
        requires
            n < 64,
        ensures
            r.0 == self.0 >> (n as u64),
            forall|s: int| r.contains(s) <==> 0 <= s && self.contains(s + n),
    {
        broadcast use group_bits;

        Bitboard(self.0 >> (n as u64))
    }

    pub fn is_empty(&self) -> (r: bool)
        ensures
            r == (self.0 == 0),
            r <==> forall|s: int| !self.contains(s),
    {
        proof {
            if self.0 == 0 {
                broadcast use group_bits;

            } else {
                lemma_lowest_bit(self.0);
            }
        }
        self.0 == 0
    }

    pub fn is_not_empty(&self) -> (r: bool)
        ensures
            r == (self.0 != 0),
            r <==> exists|s: int| self.contains(s),
    {
        proof {
            if self.0 == 0 {
                broadcast use group_bits;

            } else {
                lemma_lowest_bit(self.0);
            }
        }
        self.0 != 0
    }

    /// Membership test.
    pub fn get_bit(&self, square: Square) -> (r: bool)
        requires
            square.is_valid(),
        ensures
            r == self.contains(square.index()),
    {
        (self.0 >> (square.0 as u64)) & 1 == 1
    }

    /// Adds one square.
    pub fn set_bit(&mut self, square: Square)
        requires
            square.is_valid(),
        ensures
            forall|s: int| final(self).contains(s) <==> old(self).contains(s) || s == square.index(),
    {
        broadcast use group_bits;

        self.0 = self.0 | (1u64 << (square.0 as u64));
    }

    /// Removes one square.
    pub fn pop_bit(&mut self, square: Square)
        requires
            square.is_valid(),
        ensures
            forall|s: int| final(self).contains(s) <==> old(self).contains(s) && s != square.index(),
    {
        broadcast use group_bits;

        self.0 = self.0 & !(1u64 << (square.0 as u64));
    }

    /// The member with the smallest index.
    pub fn ls1b_square(&self) -> (r: Square)
        requires
            self.0 != 0,
        ensures
            r.is_valid(),
            self.contains(r.index()),
            forall|s: int| 0 <= s < r.index() ==> !self.contains(s),
    {
        proof {
            lemma_lowest_bit(self.0);
        }
        Square(self.0.trailing_zeros() as u8)
    }

    /// Removes the member with the smallest index and returns it. Calling
    /// this until the set is empty yields the members in ascending order.
    pub fn pop_ls1b_square(&mut self) -> (r: Square)
        requires
            old(self).0 != 0,
        ensures
            r.is_valid(),
            old(self).contains(r.index()),
            forall|s: int| 0 <= s < r.index() ==> !old(self).contains(s),
            forall|s: int| final(self).contains(s) <==> old(self).contains(s) && s != r.index(),
    {
        let square = self.ls1b_square();
        self.pop_bit(square);
        square
    }

    /// Every fact about membership determines the set.
    pub proof fn lemma_ext(self, other: Bitboard)
        requires
            forall|s: int| 0 <= s < 64 ==> self.contains(s) == other.contains(s),
        ensures
            self == other,
    {
        lemma_bit_ext(self.0, other.0);
    }

    /// The members in ascending order.
    pub fn squares(&self) -> (r: Vec<Square>)
        ensures
            forall|i: int| 0 <= i < r.len() ==> self.contains((#[trigger] r[i]).index()),
            forall|s: int| self.contains(s) ==> exists|i: int| 0 <= i < r.len() && (#[trigger] r[i]).index() == s,
            forall|i: int, j: int| 0 <= i < j < r.len() ==> (#[trigger] r[i]).index() < (#[trigger] r[j]).index(),
    {
        let mut rest = *self;
        let mut out: Vec<Square> = Vec::new();
        let ghost mut low: int = 0;
        while rest.0 != 0
            invariant
                0 <= low <= 64,
                forall|s: int| rest.contains(s) <==> self.contains(s) && low <= s,
                forall|i: int| 0 <= i < out.len() ==> self.contains((#[trigger] out[i]).index()) && out[i].index() < low,
                forall|s: int| self.contains(s) && s < low ==> exists|i: int| 0 <= i < out.len() && (#[trigger] out[i]).index() == s,
                forall|i: int, j: int| 0 <= i < j < out.len() ==> (#[trigger] out[i]).index() < (#[trigger] out[j]).index(),
            decreases 64 - low,
        {
            let ghost before = out@;
            let square = rest.pop_ls1b_square();
            out.push(square);
            proof {
                assert forall|s: int| self.contains(s) && s < square.index() + 1 implies exists|i: int| 0 <= i < out.len() && (#[trigger] out[i]).index() == s by {
                    if s == square.index() {
                        assert(out[out.len() - 1].index() == s);
                    } else {
                        let i = choose|i: int| 0 <= i < before.len() && (#[trigger] before[i]).index() == s;
                        assert(out[i].index() == s);
                    }
                }
                assert forall|i: int, j: int| 0 <= i < j < out.len() implies (#[trigger] out[i]).index() < (#[trigger] out[j]).index() by {
                    assert(out[i] == before[i]);
                    if j < before.len() {
                        assert(out[j] == before[j]);
                    }
                }
                low = square.index() + 1;
            }
        }
        proof {
            lemma_bit_zero_all();
        }
        out
    }
}

/// The zero word has no set bit.
pub proof fn lemma_bit_zero_all()
    ensures
        forall|s: int| !bit(0u64, s),
{
    broadcast use group_bits;

}

} // verus!
