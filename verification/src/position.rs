//! The mathematical model of a chess position and of what a move does to
//! it. Executable boards are specified against this model.

use crate::base_structures::castle_rights::{revoked_at, CastleRight};
use crate::base_structures::chess_move::Move;
use crate::base_structures::move_flags::MoveFlag;
use crate::base_structures::piece::{Man, Piece};
use crate::base_structures::square::Square;
use crate::geometry::{on_board, pawn_attack, rank_of, reaches};
use vstd::prelude::*;

verus! {

/// A position: what stands on each of the 64 squares, who is to move, and
/// the rights and counters that the rules of the game carry along.
pub struct Position {
    /// The man on each square, `None` for an empty square; 64 entries.
    pub squares: Seq<Option<Man>>,
    pub white_to_move: bool,
    pub castle_rights: CastleRight,
    /// The square that a pawn passed over in the move just made, or the
    /// null square.
    pub en_passant: Square,
    pub half_moves: u16,
    pub full_moves: u16,
}

/// One more, but never beyond the largest value of the counter.
pub open spec fn next_count(count: u16) -> u16 {
    if count < 0xffff {
        (count + 1) as u16
    } else {
        count
    }
}

/// The home square of the king of a side.
pub open spec fn king_home(white: bool) -> int {
    if white {
        4
    } else {
        60
    }
}

/// The right of a side to castle towards the king's or the queen's rook.
pub open spec fn castle_right_of(white: bool, king_side: bool) -> CastleRight {
    if white {
        if king_side {
            CastleRight::white_king()
        } else {
            CastleRight::white_queen()
        }
    } else {
        if king_side {
            CastleRight::black_king()
        } else {
            CastleRight::black_queen()
        }
    }
}

/// The home square of a rook of a side.
pub open spec fn rook_home(white: bool, king_side: bool) -> int {
    king_home(white) + (if king_side {
        3int
    } else {
        -4int
    })
}

impl Position {
    /// The given man stands on square `s`.
    pub open spec fn holds(self, s: int, white: bool, piece: Piece) -> bool {
        on_board(s) && self.squares[s] == Some(Man { white, piece })
    }

    /// A man of the given colour stands on square `s`.
    pub open spec fn side_at(self, s: int, white: bool) -> bool {
        on_board(s) && self.squares[s].is_some() && self.squares[s].unwrap().white == white
    }

    pub open spec fn empty_at(self, s: int) -> bool {
        on_board(s) && self.squares[s].is_none()
    }

    /// The squares that hold a man.
    pub open spec fn occupancy(self) -> Set<int> {
        Set::new(|s: int| on_board(s) && self.squares[s].is_some())
    }

    /// The squares that hold a man of the given colour.
    pub open spec fn side_occupancy(self, white: bool) -> Set<int> {
        Set::new(|s: int| self.side_at(s, white))
    }

    /// The square of the king of the given colour.
    pub open spec fn king_square(self, white: bool) -> int {
        choose|s: int| self.holds(s, white, Piece::King)
    }

    /// The man on `s` has the given colour and attacks `target` when the
    /// squares in `occupied` hold pieces.
    pub open spec fn attacks_from(self, s: int, by_white: bool, target: int, occupied: Set<int>) -> bool {
        &&& self.side_at(s, by_white)
        &&& reaches(self.squares[s].unwrap().piece, by_white, s, target, occupied)
    }

    /// Some man of the given colour attacks `target` when the squares in
    /// `occupied` hold pieces.
    pub open spec fn attacked_with(self, by_white: bool, target: int, occupied: Set<int>) -> bool {
        exists|s: int| self.attacks_from(s, by_white, target, occupied)
    }

    /// Some man of the given colour attacks `target`.
    pub open spec fn attacked(self, by_white: bool, target: int) -> bool {
        self.attacked_with(by_white, target, self.occupancy())
    }

    /// The king of the given colour is attacked.
    pub open spec fn in_check(self, white: bool) -> bool {
        self.attacked(!white, self.king_square(white))
    }

    /// Exactly one king of the given colour is on the board.
    pub open spec fn one_king(self, white: bool) -> bool {
        &&& exists|k: int| self.holds(k, white, Piece::King)
        &&& forall|a: int, b: int|
            self.holds(a, white, Piece::King) && self.holds(b, white, Piece::King) ==> a == b
    }

    /// The en-passant square, if there is one, is the square that a pawn of
    /// the side that just moved passed over in a double push.
    pub open spec fn en_passant_sound(self) -> bool {
        let ep = self.en_passant.index();
        if self.en_passant.is_valid() {
            if self.white_to_move {
                &&& rank_of(ep) == 5
                &&& self.empty_at(ep)
                &&& self.empty_at(ep + 8)
                &&& self.holds(ep - 8, false, Piece::Pawn)
            } else {
                &&& rank_of(ep) == 2
                &&& self.empty_at(ep)
                &&& self.empty_at(ep - 8)
                &&& self.holds(ep + 8, true, Piece::Pawn)
            }
        } else {
            self.en_passant == Square::null()
        }
    }

    /// A castling right is held only while king and rook stand on their
    /// home squares.
    pub open spec fn castle_right_sound(self, white: bool, king_side: bool) -> bool {
        self.castle_rights.holds(castle_right_of(white, king_side)) ==> self.holds(
            king_home(white),
            white,
            Piece::King,
        ) && self.holds(rook_home(white, king_side), white, Piece::Rook)
    }

    /// The invariants of a position.
    pub open spec fn valid(self) -> bool {
        &&& self.squares.len() == 64
        &&& self.one_king(true)
        &&& self.one_king(false)
        &&& self.en_passant_sound()
        &&& self.castle_rights.0 < 16
        &&& self.castle_right_sound(true, true)
        &&& self.castle_right_sound(true, false)
        &&& self.castle_right_sound(false, true)
        &&& self.castle_right_sound(false, false)
    }

    /// A man of the other side that is not a king stands on `s`: what a
    /// capture may take.
    pub open spec fn takeable(self, s: int) -> bool {
        &&& self.side_at(s, !self.white_to_move)
        &&& !(self.squares[s].unwrap().piece is King)
    }

    /// The move fits the position: the side to move has a man on the origin
    /// and the flag says what the board shows. Such a move can be made.
    pub open spec fn applicable(self, mv: Move) -> bool {
        let from = mv.from();
        let to = mv.to();
        let white = self.white_to_move;
        let piece = self.squares[from].unwrap().piece;
        &&& from != to
        &&& self.side_at(from, white)
        &&& match mv.flag() {
            MoveFlag::QuietMove => self.empty_at(to),
            MoveFlag::DoublePush => {
                &&& piece is Pawn
                &&& rank_of(from) == (if white {
                    1int
                } else {
                    6int
                })
                &&& to == from + (if white {
                    16int
                } else {
                    -16int
                })
                &&& self.empty_at(to)
                &&& self.empty_at((from + to) / 2)
            },
            MoveFlag::KingSideCastle => {
                &&& piece is King
                &&& from == king_home(white)
                &&& to == from + 2
                &&& self.castle_rights.holds(castle_right_of(white, true))
                &&& self.empty_at(from + 1)
                &&& self.empty_at(from + 2)
            },
            MoveFlag::QueenSideCastle => {
                &&& piece is King
                &&& from == king_home(white)
                &&& to == from - 2
                &&& self.castle_rights.holds(castle_right_of(white, false))
                &&& self.empty_at(from - 1)
                &&& self.empty_at(from - 2)
                &&& self.empty_at(from - 3)
            },
            MoveFlag::Capture => self.takeable(to),
            MoveFlag::EnPassant => {
                &&& piece is Pawn
                &&& self.en_passant.is_valid()
                &&& to == self.en_passant.index()
                &&& pawn_attack(white, from, to)
            },
            MoveFlag::KnightPromotion | MoveFlag::BishopPromotion | MoveFlag::RookPromotion
            | MoveFlag::QueenPromotion => piece is Pawn && self.empty_at(to),
            MoveFlag::KnightPromotionCapture | MoveFlag::BishopPromotionCapture
            | MoveFlag::RookPromotionCapture | MoveFlag::QueenPromotionCapture => piece is Pawn
                && self.takeable(to),
        }
    }

    /// What stands on the squares after the move.
    pub open spec fn squares_after(self, mv: Move) -> Seq<Option<Man>> {
        let from = mv.from();
        let to = mv.to();
        let white = self.white_to_move;
        let piece = match mv.flag().spec_promotion() {
            Some(promoted) => promoted,
            None => self.squares[from].unwrap().piece,
        };
        let moved = self.squares.update(from, None).update(to, Some(Man { white, piece }));
        match mv.flag() {
            MoveFlag::EnPassant => moved.update(
                if white {
                    to - 8
                } else {
                    to + 8
                },
                None,
            ),
            MoveFlag::KingSideCastle => moved.update(to + 1, None).update(
                to - 1,
                Some(Man { white, piece: Piece::Rook }),
            ),
            MoveFlag::QueenSideCastle => moved.update(to - 2, None).update(
                to + 1,
                Some(Man { white, piece: Piece::Rook }),
            ),
            _ => moved,
        }
    }

    /// The position after the move: the mover's man leaves its origin and
    /// arrives, promoted if the flag says so; what the flag names beyond
    /// that is taken or moved along; the rights that the two squares revoke
    /// are gone; the en-passant square is set by a double push alone; the
    /// half-move clock restarts on a pawn move or capture; the full-move
    /// counter advances after Black's move; the turn passes.
    pub open spec fn apply(self, mv: Move) -> Position {
        let from = mv.from();
        let to = mv.to();
        Position {
            squares: self.squares_after(mv),
            white_to_move: !self.white_to_move,
            castle_rights: CastleRight(self.castle_rights.0 & !(revoked_at(from) | revoked_at(to))),
            en_passant: if mv.flag() is DoublePush {
                Square(((from + to) / 2) as u8)
            } else {
                Square::null()
            },
            half_moves: if self.squares[from].unwrap().piece is Pawn || mv.flag().spec_is_capture() {
                0
            } else {
                next_count(self.half_moves)
            },
            full_moves: if self.white_to_move {
                self.full_moves
            } else {
                next_count(self.full_moves)
            },
        }
    }
}

/// Clearing flags never sets one, and a flag that survives was set before and
/// is not among the cleared.
pub proof fn lemma_rights_after(rights: u8, a: u8, b: u8)
    by (bit_vector)
    requires
        rights < 16,
    ensures
        rights & !(a | b) < 16,
        (rights & !(a | b)) & 8 != 0 ==> rights & 8 != 0 && a & 8 == 0 && b & 8 == 0,
        (rights & !(a | b)) & 4 != 0 ==> rights & 4 != 0 && a & 4 == 0 && b & 4 == 0,
        (rights & !(a | b)) & 2 != 0 ==> rights & 2 != 0 && a & 2 == 0 && b & 2 == 0,
        (rights & !(a | b)) & 1 != 0 ==> rights & 1 != 0 && a & 1 == 0 && b & 1 == 0,
{
}

/// Which flag each revoking square clears.
pub proof fn lemma_revoked_flags()
    by (bit_vector)
    ensures
        0b1000u8 & 8 != 0,
        0b1100u8 & 8 != 0,
        0b1100u8 & 4 != 0,
        0b0100u8 & 4 != 0,
        0b0010u8 & 2 != 0,
        0b0011u8 & 2 != 0,
        0b0011u8 & 1 != 0,
        0b0001u8 & 1 != 0,
{
}

/// A right that is still held after a move was held before it, and the move
/// touched neither the king's nor the rook's home square.
pub proof fn lemma_right_survives(pos: Position, mv: Move, white: bool, king_side: bool)
    requires
        pos.castle_rights.0 < 16,
        pos.apply(mv).castle_rights.holds(castle_right_of(white, king_side)),
    ensures
        pos.castle_rights.holds(castle_right_of(white, king_side)),
        mv.from() != king_home(white),
        mv.to() != king_home(white),
        mv.from() != rook_home(white, king_side),
        mv.to() != rook_home(white, king_side),
        pos.apply(mv).castle_rights.0 < 16,
{
    lemma_rights_after(pos.castle_rights.0, revoked_at(mv.from()), revoked_at(mv.to()));
    lemma_revoked_flags();
}

/// Making a move that fits a position with sound invariants gives a
/// position with sound invariants: in particular each side keeps exactly
/// one king.
pub proof fn lemma_apply_valid(pos: Position, mv: Move)
    requires
        pos.valid(),
        pos.applicable(mv),
    ensures
        pos.apply(mv).valid(),
{
    let next = pos.apply(mv);
    let from = mv.from();
    let to = mv.to();
    let white = pos.white_to_move;
    lemma_rights_after(pos.castle_rights.0, revoked_at(from), revoked_at(to));
    assert(next.castle_right_sound(true, true)) by {
        if next.castle_rights.holds(castle_right_of(true, true)) {
            lemma_right_survives(pos, mv, true, true);
        }
    }
    assert(next.castle_right_sound(true, false)) by {
        if next.castle_rights.holds(castle_right_of(true, false)) {
            lemma_right_survives(pos, mv, true, false);
        }
    }
    assert(next.castle_right_sound(false, true)) by {
        if next.castle_rights.holds(castle_right_of(false, true)) {
            lemma_right_survives(pos, mv, false, true);
        }
    }
    assert(next.castle_right_sound(false, false)) by {
        if next.castle_rights.holds(castle_right_of(false, false)) {
            lemma_right_survives(pos, mv, false, false);
        }
    }
    assert(next.one_king(white)) by {
        let k = choose|k: int| pos.holds(k, white, Piece::King);
        if k == from {
            assert(next.holds(to, white, Piece::King));
        } else {
            assert(next.holds(k, white, Piece::King));
        }
        assert forall|a: int, b: int|
            next.holds(a, white, Piece::King) && next.holds(b, white, Piece::King) implies a == b by {
            if k == from {
                assert(a == to || pos.holds(a, white, Piece::King));
                assert(b == to || pos.holds(b, white, Piece::King));
            } else {
                if pos.holds(from, white, Piece::King) {
                    assert(from == k);
                }
                assert(pos.holds(a, white, Piece::King));
                assert(pos.holds(b, white, Piece::King));
            }
        }
    }
    let other = !white;
    assert(next.one_king(other)) by {
        let k = choose|k: int| pos.holds(k, other, Piece::King);
        assert(next.holds(k, other, Piece::King));
        assert forall|a: int, b: int|
            next.holds(a, other, Piece::King) && next.holds(b, other, Piece::King) implies a == b by {
            assert(pos.holds(a, other, Piece::King));
            assert(pos.holds(b, other, Piece::King));
        }
    }
    assert(next.en_passant_sound());
}

} // verus!
