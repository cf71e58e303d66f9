//! The generation of legal moves.
//!
//! [`legal_moves`] says which list the generator gives for a position;
//! [`laws`], [`exactness`] and [`distinct`] say what holds of that list.

pub mod complete;
pub mod distinct;
pub mod exactness;
pub mod king_moves;
pub mod laws;
pub mod listed;
pub mod listing;
pub mod masks;
pub mod pawn_laws;
pub mod pawn_moves;
pub mod piece_moves;
pub mod safety;

use crate::base_structures::bitboard::Bitboard;
use crate::base_structures::chess_move::Move;
use crate::base_structures::piece::Piece;
use crate::chess_board::ChessBoard;
use crate::position::Position;
use crate::rules::legal;
use distinct::lemma_no_move_listed_twice;
use exactness::{lemma_generated_captures_exactly_legal, lemma_generated_exactly_legal};
use king_moves::{castle_moves, generate_castle_moves, generate_king_moves, in_check, king_moves};
use masks::{double_check, get_check_mask, is_double_check};
use pawn_moves::{landing_captures, landing_pushes, pawn_moves_onto};
use piece_moves::{capture_targets, generate_walk_moves, pin_set, push_targets, walk_moves, Walk};
use vstd::prelude::*;

verus! {

/// The generator of legal moves.
pub struct MoveGen;

/// The moves of every man of the side to move but its king.
pub open spec fn other_moves(position: Position, capture_only: bool) -> Seq<Move> {
    castle_moves(position, capture_only) + pawn_moves_onto(
        position,
        capture_only,
        push_targets(position, capture_only),
        capture_targets(position),
        pin_set(position, true),
        pin_set(position, false),
    ) + walk_moves(position, Walk::Leap, capture_only) + walk_moves(position, Walk::Diagonal, capture_only)
        + walk_moves(position, Walk::Straight, capture_only)
}

/// The moves that the generator gives for a position, in its order: the
/// steps of the king; then, unless two men give check, the castling moves,
/// the pawn moves, the knight moves, the moves along diagonals and the
/// moves along ranks and files. Where only captures are asked for, moves
/// to empty squares are left out, en-passant captures aside.
pub open spec fn legal_moves(position: Position, capture_only: bool) -> Seq<Move> {
    king_moves(position, capture_only) + (if double_check(position) {
        Seq::empty()
    } else {
        other_moves(position, capture_only)
    })
}

/// Appends the moves of every man of the side to move but its king, given
/// the men that give check, of which there is at most one.
fn generate_other_moves<const STM_WHITE: bool, const NSTM_WHITE: bool, const CAPTURE_ONLY: bool>(
    board: &ChessBoard,
    checkers: Bitboard,
    moves: &mut Vec<Move>,
)
    requires
        board.wf(),
        STM_WHITE == board@.white_to_move,
        NSTM_WHITE == !STM_WHITE,
        forall|s: int| checkers.contains(s) <==> masks::checker(board@, s),
        !double_check(board@),
    ensures
        final(moves)@ == old(moves)@ + other_moves(board@, CAPTURE_ONLY),
{
    let ghost position = board@;
    let ghost capture_only = CAPTURE_ONLY;
    let ghost start = moves@;
    let check_mask = get_check_mask::<STM_WHITE>(board, checkers);
    let occupancy = board.get_occupancy();
    let enemy = board.get_occupancy_for_side::<NSTM_WHITE>();
    let capture_map = check_mask.and(enemy).and(
        board.get_piece_mask_for_side::<NSTM_WHITE>(Piece::King).inverse(),
    );
    let push_map = if CAPTURE_ONLY {
        Bitboard::empty()
    } else {
        check_mask.and(occupancy.inverse())
    };
    let diagonal_pins = MoveGen::get_pins::<STM_WHITE, NSTM_WHITE>(board, true);
    let orthogonal_pins = MoveGen::get_pins::<STM_WHITE, NSTM_WHITE>(board, false);
    proof {
        assert(capture_map@ =~= capture_targets(position));
        assert(push_map@ =~= push_targets(position, capture_only));
        assert(landing_captures(position, capture_map@) =~= capture_targets(position));
        assert(landing_pushes(position, push_map@) =~= push_targets(position, capture_only));
        assert(diagonal_pins@ =~= pin_set(position, true));
        assert(orthogonal_pins@ =~= pin_set(position, false));
    }
    if !CAPTURE_ONLY && checkers.is_empty() {
        proof {
            assert(!in_check(position)) by {
                if in_check(position) {
                    let s = choose|s: int| masks::checker(position, s);
                    assert(checkers.contains(s));
                }
            }
        }
        generate_castle_moves::<STM_WHITE, NSTM_WHITE>(board, moves);
    } else {
        proof {
            if !capture_only {
                let s = choose|s: int| checkers.contains(s);
                assert(masks::checker(position, s));
            }
            assert(moves@ + Seq::<Move>::empty() =~= moves@);
        }
    }
    assert(moves@ == start + castle_moves(position, capture_only));
    MoveGen::generate_pawn_moves::<STM_WHITE, NSTM_WHITE, CAPTURE_ONLY>(
        board,
        push_map,
        capture_map,
        diagonal_pins,
        orthogonal_pins,
        moves,
    );
    let ghost with_pawns = moves@;
    let landing = push_map.or(capture_map);
    generate_walk_moves::<STM_WHITE, NSTM_WHITE, CAPTURE_ONLY>(
        board,
        Walk::Leap,
        landing,
        diagonal_pins,
        orthogonal_pins,
        moves,
    );
    generate_walk_moves::<STM_WHITE, NSTM_WHITE, CAPTURE_ONLY>(
        board,
        Walk::Diagonal,
        landing,
        diagonal_pins,
        orthogonal_pins,
        moves,
    );
    generate_walk_moves::<STM_WHITE, NSTM_WHITE, CAPTURE_ONLY>(
        board,
        Walk::Straight,
        landing,
        diagonal_pins,
        orthogonal_pins,
        moves,
    );
    proof {
        let pawns = pawn_moves_onto(
            position,
            capture_only,
            push_targets(position, capture_only),
            capture_targets(position),
            pin_set(position, true),
            pin_set(position, false),
        );
        assert(with_pawns == start + castle_moves(position, capture_only) + pawns);
        assert(moves@ =~= start + other_moves(position, capture_only));
    }
}

impl MoveGen {
    /// Appends the legal moves of the side to move to `moves`; with
    /// `CAPTURE_ONLY`, the capturing ones alone. The list that is appended
    /// holds each legal move once: see [`MoveGen::legal_moves`] and
    /// [`MoveGen::capture_moves`].
    pub fn generate_moves<const STM_WHITE: bool, const NSTM_WHITE: bool, const CAPTURE_ONLY: bool>(
        board: &ChessBoard,
        moves: &mut Vec<Move>,
    )
        requires
            board.wf(),
            STM_WHITE == board@.white_to_move,
            NSTM_WHITE == !STM_WHITE,
        ensures
            final(moves)@ == old(moves)@ + legal_moves(board@, CAPTURE_ONLY),
    {
        let ghost position = board@;
        let ghost capture_only = CAPTURE_ONLY;
        let ghost start = moves@;
        generate_king_moves::<STM_WHITE, NSTM_WHITE, CAPTURE_ONLY>(board, moves);
        let ghost after_king = moves@;
        let checkers = MoveGen::get_checkers::<STM_WHITE, NSTM_WHITE>(board);
        if is_double_check(checkers, Ghost(position)) {
            proof {
                assert(after_king + Seq::<Move>::empty() =~= after_king);
            }
            return ;
        }
        generate_other_moves::<STM_WHITE, NSTM_WHITE, CAPTURE_ONLY>(board, checkers, moves);
        proof {
            assert(moves@ =~= start + legal_moves(position, capture_only));
        }
    }

    /// The legal moves of the side to move: every move that obeys the way
    /// its man moves and leaves the king of the side to move unattacked,
    /// each once, in the generator's order.
    pub fn legal_moves(board: &ChessBoard) -> (moves: Vec<Move>)
        requires
            board.wf(),
        ensures
            moves@ == legal_moves(board@, false),
            moves@.no_duplicates(),
            forall|mv: Move| moves@.contains(mv) <==> legal(board@, mv),
    {
        proof {
            board.lemma_partition();
            lemma_no_move_listed_twice(board@, false);
            assert forall|mv: Move| legal_moves(board@, false).contains(mv) <==> legal(board@, mv) by {
                lemma_generated_exactly_legal(board@, mv);
            }
        }
        let mut moves: Vec<Move> = Vec::new();
        if board.side_to_move().is_white() {
            MoveGen::generate_moves::<true, false, false>(board, &mut moves);
        } else {
            MoveGen::generate_moves::<false, true, false>(board, &mut moves);
        }
        assert(Seq::<Move>::empty() + legal_moves(board@, false) =~= legal_moves(board@, false));
        moves
    }

    /// The capturing legal moves of the side to move, each once, in the
    /// generator's order.
    pub fn capture_moves(board: &ChessBoard) -> (moves: Vec<Move>)
        requires
            board.wf(),
        ensures
            moves@ == legal_moves(board@, true),
            moves@.no_duplicates(),
            forall|mv: Move| moves@.contains(mv) <==> legal(board@, mv) && mv.flag().spec_is_capture(),
    {
        proof {
            board.lemma_partition();
            lemma_no_move_listed_twice(board@, true);
            assert forall|mv: Move|
                legal_moves(board@, true).contains(mv) <==> legal(board@, mv) && mv.flag().spec_is_capture() by {
                lemma_generated_captures_exactly_legal(board@, mv);
            }
        }
        let mut moves: Vec<Move> = Vec::new();
        if board.side_to_move().is_white() {
            MoveGen::generate_moves::<true, false, true>(board, &mut moves);
        } else {
            MoveGen::generate_moves::<false, true, true>(board, &mut moves);
        }
        assert(Seq::<Move>::empty() + legal_moves(board@, true) =~= legal_moves(board@, true));
        moves
    }
}

} // verus!
