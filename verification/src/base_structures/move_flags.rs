//! The kinds of moves.

use crate::base_structures::piece::Piece;
use vstd::prelude::*;

verus! {

/// What kind of move a [`crate::Move`] is; it decides how a board changes
/// when the move is made.
#[derive(Clone, Copy, PartialEq, Eq, Structural, Debug)]
pub enum MoveFlag {
    QuietMove,
    DoublePush,
    KingSideCastle,
    QueenSideCastle,
    Capture,
    EnPassant,
    KnightPromotion,
    BishopPromotion,
    RookPromotion,
    QueenPromotion,
    KnightPromotionCapture,
    BishopPromotionCapture,
    RookPromotionCapture,
    QueenPromotionCapture,
}

impl MoveFlag {
    /// The four-bit code of the flag inside a packed move.
    pub open spec fn spec_code(self) -> u16 {
        match self {
            MoveFlag::QuietMove => 0,
            MoveFlag::DoublePush => 1,
            MoveFlag::KingSideCastle => 2,
            MoveFlag::QueenSideCastle => 3,
            MoveFlag::Capture => 4,
            MoveFlag::EnPassant => 5,
            MoveFlag::KnightPromotion => 8,
            MoveFlag::BishopPromotion => 9,
            MoveFlag::RookPromotion => 10,
            MoveFlag::QueenPromotion => 11,
            MoveFlag::KnightPromotionCapture => 12,
            MoveFlag::BishopPromotionCapture => 13,
            MoveFlag::RookPromotionCapture => 14,
            MoveFlag::QueenPromotionCapture => 15,
        }
    }

    #[verifier::when_used_as_spec(spec_code)]
    pub fn code(self) -> (r: u16)
        ensures
            r == self.spec_code(),
            r < 16,
    {
        match self {
            MoveFlag::QuietMove => 0,
            MoveFlag::DoublePush => 1,
            MoveFlag::KingSideCastle => 2,
            MoveFlag::QueenSideCastle => 3,
            MoveFlag::Capture => 4,
            MoveFlag::EnPassant => 5,
            MoveFlag::KnightPromotion => 8,
            MoveFlag::BishopPromotion => 9,
            MoveFlag::RookPromotion => 10,
            MoveFlag::QueenPromotion => 11,
            MoveFlag::KnightPromotionCapture => 12,
            MoveFlag::BishopPromotionCapture => 13,
            MoveFlag::RookPromotionCapture => 14,
            MoveFlag::QueenPromotionCapture => 15,
        }
    }

    /// The flag with the given code. The two codes that stand for no flag,
    /// 6 and 7, and every code above 15 read as a quiet move.
    pub open spec fn spec_from_code(code: u16) -> MoveFlag {
        if code == 1 {
            MoveFlag::DoublePush
        } else if code == 2 {
            MoveFlag::KingSideCastle
        } else if code == 3 {
            MoveFlag::QueenSideCastle
        } else if code == 4 {
            MoveFlag::Capture
        } else if code == 5 {
            MoveFlag::EnPassant
        } else if code == 8 {
            MoveFlag::KnightPromotion
        } else if code == 9 {
            MoveFlag::BishopPromotion
        } else if code == 10 {
            MoveFlag::RookPromotion
        } else if code == 11 {
            MoveFlag::QueenPromotion
        } else if code == 12 {
            MoveFlag::KnightPromotionCapture
        } else if code == 13 {
            MoveFlag::BishopPromotionCapture
        } else if code == 14 {
            MoveFlag::RookPromotionCapture
        } else if code == 15 {
            MoveFlag::QueenPromotionCapture
        } else {
            MoveFlag::QuietMove
        }
    }

    #[verifier::when_used_as_spec(spec_from_code)]
    pub fn from_code(code: u16) -> (r: MoveFlag)
        ensures
            r == MoveFlag::spec_from_code(code),
    {
        if code == 1 {
            MoveFlag::DoublePush
        } else if code == 2 {
            MoveFlag::KingSideCastle
        } else if code == 3 {
            MoveFlag::QueenSideCastle
        } else if code == 4 {
            MoveFlag::Capture
        } else if code == 5 {
            MoveFlag::EnPassant
        } else if code == 8 {
            MoveFlag::KnightPromotion
        } else if code == 9 {
            MoveFlag::BishopPromotion
        } else if code == 10 {
            MoveFlag::RookPromotion
        } else if code == 11 {
            MoveFlag::QueenPromotion
        } else if code == 12 {
            MoveFlag::KnightPromotionCapture
        } else if code == 13 {
            MoveFlag::BishopPromotionCapture
        } else if code == 14 {
            MoveFlag::RookPromotionCapture
        } else if code == 15 {
            MoveFlag::QueenPromotionCapture
        } else {
            MoveFlag::QuietMove
        }
    }

    /// The move takes an opposing piece: a plain capture, an en-passant
    /// capture or a capturing promotion.
    pub open spec fn spec_is_capture(self) -> bool {
        self is Capture || self is EnPassant || self is KnightPromotionCapture
            || self is BishopPromotionCapture || self is RookPromotionCapture
            || self is QueenPromotionCapture
    }

    #[verifier::when_used_as_spec(spec_is_capture)]
    pub fn is_capture(self) -> (r: bool)
        ensures
            r == self.spec_is_capture(),
    {
        match self {
            MoveFlag::Capture => true,
            MoveFlag::EnPassant => true,
            MoveFlag::KnightPromotionCapture => true,
            MoveFlag::BishopPromotionCapture => true,
            MoveFlag::RookPromotionCapture => true,
            MoveFlag::QueenPromotionCapture => true,
            _ => false,
        }
    }

    /// The piece that a promoting pawn turns into, if the move promotes.
    pub open spec fn spec_promotion(self) -> Option<Piece> {
        match self {
            MoveFlag::KnightPromotion => Some(Piece::Knight),
            MoveFlag::BishopPromotion => Some(Piece::Bishop),
            MoveFlag::RookPromotion => Some(Piece::Rook),
            MoveFlag::QueenPromotion => Some(Piece::Queen),
            MoveFlag::KnightPromotionCapture => Some(Piece::Knight),
            MoveFlag::BishopPromotionCapture => Some(Piece::Bishop),
            MoveFlag::RookPromotionCapture => Some(Piece::Rook),
            MoveFlag::QueenPromotionCapture => Some(Piece::Queen),
            _ => None,
        }
    }

    #[verifier::when_used_as_spec(spec_promotion)]
    pub fn promotion(self) -> (r: Option<Piece>)
        ensures
            r == self.spec_promotion(),
    {
        match self {
            MoveFlag::KnightPromotion => Some(Piece::Knight),
            MoveFlag::BishopPromotion => Some(Piece::Bishop),
            MoveFlag::RookPromotion => Some(Piece::Rook),
            MoveFlag::QueenPromotion => Some(Piece::Queen),
            MoveFlag::KnightPromotionCapture => Some(Piece::Knight),
            MoveFlag::BishopPromotionCapture => Some(Piece::Bishop),
            MoveFlag::RookPromotionCapture => Some(Piece::Rook),
            MoveFlag::QueenPromotionCapture => Some(Piece::Queen),
            _ => None,
        }
    }

    pub open spec fn spec_is_castle(self) -> bool {
        self is KingSideCastle || self is QueenSideCastle
    }

    #[verifier::when_used_as_spec(spec_is_castle)]
    pub fn is_castle(self) -> (r: bool)
        ensures
            r == self.spec_is_castle(),
    {
        match self {
            MoveFlag::KingSideCastle => true,
            MoveFlag::QueenSideCastle => true,
            _ => false,
        }
    }

    /// Decoding the code of a flag gives the flag back.
    pub proof fn lemma_code_round_trip(self)
        ensures
            MoveFlag::spec_from_code(self.spec_code()) == self,
            self.spec_code() < 16,
    {
    }
}

} // verus!
