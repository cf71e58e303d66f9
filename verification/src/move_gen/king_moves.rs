//! The moves of the king: its steps and castling.

use crate::attacks::Attacks;
use crate::base_structures::bitboard::{lemma_bit_zero_all, Bitboard};
use crate::base_structures::castle_rights::CastleRight;
use crate::base_structures::chess_move::Move;
use crate::base_structures::move_flags::MoveFlag;
use crate::base_structures::piece::Piece;
use crate::base_structures::square::Square;
use crate::bits::bit;
use crate::chess_board::ChessBoard;
use crate::geometry::king_step;
use crate::position::{castle_right_of, king_home, Position};
use super::listing::{append_targets, target_moves};
use super::masks::{checker, own_king};
use vstd::prelude::*;

verus! {

/// The king of the side to move may step to `t`: the square is next to it,
/// is empty or holds an opposing man other than the king, and no opposing
/// man attacks it once the king has left its square.
pub open spec fn king_target(position: Position, capture_only: bool, t: int) -> bool {
    let king = own_king(position);
    &&& king_step(king, t)
    &&& (!capture_only && position.empty_at(t) || position.takeable(t))
    &&& !position.attacked_with(!position.white_to_move, t, position.occupancy().remove(king))
}

pub open spec fn king_targets(position: Position, capture_only: bool) -> Set<int> {
    Set::new(|t: int| king_target(position, capture_only, t))
}

/// The steps of the king of the side to move, in ascending order of the
/// squares it goes to.
pub open spec fn king_moves(position: Position, capture_only: bool) -> Seq<Move> {
    target_moves(
        own_king(position),
        king_targets(position, capture_only),
        position.side_occupancy(!position.white_to_move),
    )
}

/// The king of the side to move is attacked.
pub open spec fn in_check(position: Position) -> bool {
    exists|s: int| checker(position, s)
}

/// The side to move may castle to the given side, its king not being in
/// check: it holds the right, the squares between king and rook are empty,
/// and no opposing man attacks a square that the king passes or reaches.
pub open spec fn may_castle(position: Position, king_side: bool) -> bool {
    let white = position.white_to_move;
    let home = king_home(white);
    &&& position.castle_rights.holds(castle_right_of(white, king_side))
    &&& if king_side {
        &&& position.empty_at(home + 1)
        &&& position.empty_at(home + 2)
        &&& !position.attacked(!white, home + 1)
        &&& !position.attacked(!white, home + 2)
    } else {
        &&& position.empty_at(home - 1)
        &&& position.empty_at(home - 2)
        &&& position.empty_at(home - 3)
        &&& !position.attacked(!white, home - 1)
        &&& !position.attacked(!white, home - 2)
    }
}

/// The castling move of the side to move to the given side.
pub open spec fn castle_move(position: Position, king_side: bool) -> Move {
    let home = king_home(position.white_to_move);
    if king_side {
        Move::at(home, home + 2, MoveFlag::KingSideCastle)
    } else {
        Move::at(home, home - 2, MoveFlag::QueenSideCastle)
    }
}

/// The castling moves: none where only captures are asked for or the king
/// is in check; else to the king's side, then to the queen's side, each
/// where the side to move may castle so.
pub open spec fn castle_moves(position: Position, capture_only: bool) -> Seq<Move> {
    if capture_only || in_check(position) {
        Seq::empty()
    } else {
        (if may_castle(position, true) {
            seq![castle_move(position, true)]
        } else {
            Seq::empty()
        }) + (if may_castle(position, false) {
            seq![castle_move(position, false)]
        } else {
            Seq::empty()
        })
    }
}

/// Appends the steps of the king of the side to move.
pub fn generate_king_moves<const STM_WHITE: bool, const NSTM_WHITE: bool, const CAPTURE_ONLY: bool>(
    board: &ChessBoard,
    moves: &mut Vec<Move>,
)
    requires
        board.wf(),
        STM_WHITE == board@.white_to_move,
        NSTM_WHITE == !STM_WHITE,
    ensures
        final(moves)@ == old(moves)@ + king_moves(board@, CAPTURE_ONLY),
{
    let ghost position = board@;
    let ghost capture_only = CAPTURE_ONLY;
    let king = board.get_king_square::<STM_WHITE>();
    let occupancy = board.get_occupancy();
    let enemy = board.get_occupancy_for_side::<NSTM_WHITE>();
    let takeable = enemy.and(board.get_piece_mask_for_side::<NSTM_WHITE>(Piece::King).inverse());
    let landing = if CAPTURE_ONLY {
        takeable
    } else {
        takeable.or(occupancy.inverse())
    };
    let candidates = Attacks::get_king_attacks_for_square(king).and(landing);
    proof {
        assert forall|t: int| #[trigger]
            bit(candidates.0, t) <==> king_step(king.index(), t) && (!capture_only && position.empty_at(t)
                || position.takeable(t)) by {}
    }
    let mut safe = Bitboard::empty();
    let mut rest = candidates;
    let ghost mut low: int = 0;
    while rest.is_not_empty()
        invariant
            0 <= low <= 64,
            board.wf(),
            position == board@,
            NSTM_WHITE == !position.white_to_move,
            king.index() == own_king(position),
            STM_WHITE == position.white_to_move,
            forall|t: int| #[trigger]
                bit(candidates.0, t) <==> king_step(king.index(), t) && (!capture_only && position.empty_at(
                    t,
                ) || position.takeable(t)),
            forall|t: int| rest.contains(t) <==> candidates.contains(t) && low <= t,
            forall|t: int| safe.contains(t) <==> t < low && king_target(position, capture_only, t),
        decreases 64 - low,
    {
        let ghost waiting = rest;
        let to = rest.pop_ls1b_square();
        let ghost kept = safe;
        let attacked = board.is_square_attacked::<STM_WHITE, NSTM_WHITE>(to);
        if !attacked {
            safe.set_bit(to);
        }
        proof {
            assert(candidates.contains(to.index()));
            assert(attacked == position.attacked_with(
                !position.white_to_move,
                to.index(),
                position.occupancy().remove(king.index()),
            ));
            assert(king_step(king.index(), to.index()));
            assert(!capture_only && position.empty_at(to.index()) || position.takeable(to.index()));
            assert(king_target(position, capture_only, to.index()) <==> !attacked);
            assert forall|t: int| safe.contains(t) <==> t < to.index() + 1 && king_target(
                position,
                capture_only,
                t,
            ) by {
                assert(kept.contains(t) <==> t < low && king_target(position, capture_only, t));
                assert(safe.contains(t) <==> kept.contains(t) || (t == to.index() && !attacked));
                if king_target(position, capture_only, t) {
                    assert(candidates.contains(t));
                    if low <= t {
                        assert(waiting.contains(t));
                    }
                }
            }
            low = to.index() + 1;
        }
    }
    proof {
        lemma_bit_zero_all();
        assert(safe@ =~= king_targets(position, capture_only));
    }
    append_targets(king, safe, enemy, moves);
}

/// Appends the castling moves of the side to move, whose king is not in
/// check.
pub(crate) fn generate_castle_moves<const STM_WHITE: bool, const NSTM_WHITE: bool>(
    board: &ChessBoard,
    moves: &mut Vec<Move>,
)
    requires
        board.wf(),
        STM_WHITE == board@.white_to_move,
        NSTM_WHITE == !STM_WHITE,
        !in_check(board@),
    ensures
        final(moves)@ == old(moves)@ + castle_moves(board@, false),
{
    let ghost position = board@;
    let ghost start = moves@;
    let rights = board.castle_rights();
    let occupancy = board.get_occupancy();
    let home: u8 = if STM_WHITE {
        4
    } else {
        60
    };
    let king_right = if STM_WHITE {
        CastleRight::white_king()
    } else {
        CastleRight::black_king()
    };
    let queen_right = if STM_WHITE {
        CastleRight::white_queen()
    } else {
        CastleRight::black_queen()
    };
    let from = Square::from_raw(home);
    if rights.has_right(king_right) && !occupancy.get_bit(Square::from_raw(home + 1)) && !occupancy.get_bit(
        Square::from_raw(home + 2),
    ) && !board.is_square_attacked_with_occupancy::<NSTM_WHITE>(Square::from_raw(home + 1), occupancy)
        && !board.is_square_attacked_with_occupancy::<NSTM_WHITE>(Square::from_raw(home + 2), occupancy) {
        moves.push(Move::from_squares(from, Square::from_raw(home + 2), MoveFlag::KingSideCastle));
    }
    let ghost first = moves@;
    proof {
        assert(first =~= start + (if may_castle(position, true) {
            seq![castle_move(position, true)]
        } else {
            Seq::empty()
        }));
    }
    if rights.has_right(queen_right) && !occupancy.get_bit(Square::from_raw(home - 1))
        && !occupancy.get_bit(Square::from_raw(home - 2)) && !occupancy.get_bit(Square::from_raw(home - 3))
        && !board.is_square_attacked_with_occupancy::<NSTM_WHITE>(Square::from_raw(home - 1), occupancy)
        && !board.is_square_attacked_with_occupancy::<NSTM_WHITE>(Square::from_raw(home - 2), occupancy) {
        moves.push(Move::from_squares(from, Square::from_raw(home - 2), MoveFlag::QueenSideCastle));
    }
    proof {
        assert(moves@ =~= start + castle_moves(position, false));
    }
}

} // verus!
