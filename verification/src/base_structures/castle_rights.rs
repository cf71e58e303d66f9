//! Castling permissions and the squares that revoke them.

use crate::base_structures::square::Square;
use vstd::prelude::*;
use vstd::std_specs::bits::{axiom_u8_trailing_zeros, u8_trailing_zeros};

verus! {

/// The castling permissions of both sides: four independent flags in the
/// low bits of a byte.
#[derive(Clone, Copy, PartialEq, Eq, Structural, Debug)]
pub struct CastleRight(pub u8);

pub const WHITE_QUEEN_BIT: u8 = 0b1000;

pub const WHITE_KING_BIT: u8 = 0b0100;

pub const BLACK_QUEEN_BIT: u8 = 0b0010;

pub const BLACK_KING_BIT: u8 = 0b0001;

/// Home squares of the queen-side and king-side rooks, as files of the back
/// rank.
pub const ROOK_POSITIONS: [u8; 2] = [0, 7];

/// For each square the rights that a move revokes by leaving from it or
/// arriving at it.
pub const ROOK_MASKS: [u8; 64] = [
    8, 0, 0, 0, 12, 0, 0, 4,
    0, 0, 0, 0, 0, 0, 0, 0,
    0, 0, 0, 0, 0, 0, 0, 0,
    0, 0, 0, 0, 0, 0, 0, 0,
    0, 0, 0, 0, 0, 0, 0, 0,
    0, 0, 0, 0, 0, 0, 0, 0,
    0, 0, 0, 0, 0, 0, 0, 0,
    2, 0, 0, 0, 3, 0, 0, 1,
];

/// The rights that are lost when a move leaves from or arrives at a square:
/// the corners cost the right of their rook, the king squares both rights of
/// their side, every other square nothing.
pub open spec fn revoked_at(square: int) -> u8 {
    if square == 0 {
        0b1000
    } else if square == 4 {
        0b1100
    } else if square == 7 {
        0b0100
    } else if square == 56 {
        0b0010
    } else if square == 60 {
        0b0011
    } else if square == 63 {
        0b0001
    } else {
        0
    }
}

/// The text of a set of rights: the letters of the held rights in the order
/// `K`, `Q`, `k`, `q`, or a dash when none is held.
pub open spec fn rights_text(
    white_king: bool,
    white_queen: bool,
    black_king: bool,
    black_queen: bool,
) -> Seq<char> {
    let held = (if white_king {
        seq!['K']
    } else {
        Seq::<char>::empty()
    }) + (if white_queen {
        seq!['Q']
    } else {
        Seq::<char>::empty()
    }) + (if black_king {
        seq!['k']
    } else {
        Seq::<char>::empty()
    }) + (if black_queen {
        seq!['q']
    } else {
        Seq::<char>::empty()
    });
    if held.len() == 0 {
        seq!['-']
    } else {
        held
    }
}

fn black_text(black_king: bool, black_queen: bool, prefix: u8) -> (r: String)
    requires
        prefix < 4,
    ensures
        r@ == rights_text(prefix == 3 || prefix == 1, prefix == 3 || prefix == 2, black_king, black_queen),
{
    proof {
        reveal_strlit("KQkq");
        reveal_strlit("KQk");
        reveal_strlit("KQq");
        reveal_strlit("KQ");
        reveal_strlit("Kkq");
        reveal_strlit("Kk");
        reveal_strlit("Kq");
        reveal_strlit("K");
        reveal_strlit("Qkq");
        reveal_strlit("Qk");
        reveal_strlit("Qq");
        reveal_strlit("Q");
        reveal_strlit("kq");
        reveal_strlit("k");
        reveal_strlit("q");
        reveal_strlit("-");
    }
    let text = if prefix == 3 {
        if black_king {
            if black_queen {
                "KQkq"
            } else {
                "KQk"
            }
        } else if black_queen {
            "KQq"
        } else {
            "KQ"
        }
    } else if prefix == 1 {
        if black_king {
            if black_queen {
                "Kkq"
            } else {
                "Kk"
            }
        } else if black_queen {
            "Kq"
        } else {
            "K"
        }
    } else if prefix == 2 {
        if black_king {
            if black_queen {
                "Qkq"
            } else {
                "Qk"
            }
        } else if black_queen {
            "Qq"
        } else {
            "Q"
        }
    } else {
        if black_king {
            if black_queen {
                "kq"
            } else {
                "k"
            }
        } else if black_queen {
            "q"
        } else {
            "-"
        }
    };
    assert(text@ =~= rights_text(prefix == 3 || prefix == 1, prefix == 3 || prefix == 2, black_king, black_queen));
    text.to_owned()
}

impl CastleRight {
    pub open spec fn spec_white_queen() -> CastleRight {
        CastleRight(0b1000)
    }

    #[verifier::when_used_as_spec(spec_white_queen)]
    pub fn white_queen() -> (r: CastleRight)
        ensures
            r == CastleRight(0b1000),
    {
        CastleRight(WHITE_QUEEN_BIT)
    }

    pub open spec fn spec_white_king() -> CastleRight {
        CastleRight(0b0100)
    }

    #[verifier::when_used_as_spec(spec_white_king)]
    pub fn white_king() -> (r: CastleRight)
        ensures
            r == CastleRight(0b0100),
    {
        CastleRight(WHITE_KING_BIT)
    }

    pub open spec fn spec_black_queen() -> CastleRight {
        CastleRight(0b0010)
    }

    #[verifier::when_used_as_spec(spec_black_queen)]
    pub fn black_queen() -> (r: CastleRight)
        ensures
            r == CastleRight(0b0010),
    {
        CastleRight(BLACK_QUEEN_BIT)
    }

    pub open spec fn spec_black_king() -> CastleRight {
        CastleRight(0b0001)
    }

    #[verifier::when_used_as_spec(spec_black_king)]
    pub fn black_king() -> (r: CastleRight)
        ensures
            r == CastleRight(0b0001),
    {
        CastleRight(BLACK_KING_BIT)
    }

    pub open spec fn spec_null() -> CastleRight {
        CastleRight(0)
    }

    /// No right at all.
    #[verifier::when_used_as_spec(spec_null)]
    pub fn null() -> (r: CastleRight)
        ensures
            r == CastleRight(0),
    {
        CastleRight(0)
    }

    /// At least one of the flags of `right` is held.
    pub open spec fn holds(self, right: CastleRight) -> bool {
        self.0 & right.0 != 0
    }

    /// The rights that a move touching `square` revokes.
    pub fn rook_mask(square: Square) -> (r: CastleRight)
        ensures
            r.0 == revoked_at(square.index()),
    {
        let raw = square.get_raw();
        if raw < 64 {
            CastleRight(ROOK_MASKS[raw as usize])
        } else {
            CastleRight(0)
        }
    }

    #[inline]
    pub fn from_raw(raw: u8) -> (r: CastleRight)
        ensures
            r.0 == raw,
    {
        CastleRight(raw)
    }

    #[inline]
    pub fn set_right(&mut self, right: CastleRight)
        ensures
            final(self).0 == old(self).0 | right.0,
    {
        self.0 = self.0 | right.0;
    }

    #[inline]
    pub fn remove_right(&mut self, right: CastleRight)
        ensures
            final(self).0 == old(self).0 & !right.0,
    {
        self.0 = self.0 & !right.0;
    }

    #[inline]
    pub fn has_right(&self, right: CastleRight) -> (r: bool)
        ensures
            r == self.holds(right),
    {
        self.0 & right.0 > 0
    }

    #[inline]
    pub fn get_value(&self) -> (r: u8)
        ensures
            r == self.0,
    {
        self.0
    }

    /// The position of the lowest held flag, or 8 when no flag is held.
    #[inline]
    pub fn get_index(&self) -> (r: usize)
        ensures
            r == u8_trailing_zeros(self.0),
            self.0 == 0 <==> r == 8,
            self.0 != 0 ==> r < 8 && (self.0 >> (r as u8)) & 1 == 1,
            forall|j: u8| j < r ==> #[trigger] (self.0 >> j) & 1 == 0,
    {
        proof {
            axiom_u8_trailing_zeros(self.0);
        }
        self.0.trailing_zeros() as usize
    }

    pub open spec fn spec_to_string(self) -> Seq<char> {
        rights_text(
            self.holds(CastleRight::white_king()),
            self.holds(CastleRight::white_queen()),
            self.holds(CastleRight::black_king()),
            self.holds(CastleRight::black_queen()),
        )
    }

    pub fn to_string(&self) -> (r: String)
        ensures
            r@ == self.spec_to_string(),
    {
        let white_king = self.has_right(CastleRight::white_king());
        let white_queen = self.has_right(CastleRight::white_queen());
        let prefix: u8 = if white_king {
            if white_queen {
                3
            } else {
                1
            }
        } else if white_queen {
            2
        } else {
            0
        };
        black_text(
            self.has_right(CastleRight::black_king()),
            self.has_right(CastleRight::black_queen()),
            prefix,
        )
    }
}

impl Default for CastleRight {
    fn default() -> (r: CastleRight)
        ensures
            r == CastleRight(0),
    {
        CastleRight(0)
    }
}

impl From<CastleRight> for u8 {
    fn from(castle_right: CastleRight) -> (r: u8) {
        castle_right.get_value()
    }
}

impl vstd::std_specs::convert::FromSpecImpl<CastleRight> for u8 {
    open spec fn obeys_from_spec() -> bool {
        true
    }

    open spec fn from_spec(castle_right: CastleRight) -> u8 {
        castle_right.0
    }
}

impl From<CastleRight> for usize {
    fn from(castle_right: CastleRight) -> (r: usize) {
        castle_right.get_value() as usize
    }
}

impl vstd::std_specs::convert::FromSpecImpl<CastleRight> for usize {
    open spec fn obeys_from_spec() -> bool {
        true
    }

    open spec fn from_spec(castle_right: CastleRight) -> usize {
        castle_right.0 as usize
    }
}

} // verus!
