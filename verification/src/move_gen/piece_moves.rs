//! The moves of knights, bishops, rooks and queens.

use crate::attacks::Attacks;
use crate::base_structures::bitboard::{lemma_bit_zero_all, Bitboard};
use crate::base_structures::chess_move::Move;
use crate::base_structures::piece::Piece;
use crate::chess_board::ChessBoard;
use crate::geometry::{clear, knight_step, same_diagonal, same_line};
use crate::position::Position;
use super::listing::{append_targets, gather, lemma_gather_skip, target_moves};
use super::masks::{answers_check, pin_line};
use vstd::prelude::*;

verus! {

/// How a man other than pawn and king moves: by a knight's leap, along
/// diagonals, or along ranks and files. A queen moves in the last two
/// ways.
#[derive(Clone, Copy, PartialEq, Eq, Structural, Debug)]
pub enum Walk {
    Leap,
    Diagonal,
    Straight,
}

/// The empty squares on which a man other than the king may land: none
/// where only captures are asked for, else those that answer every check.
pub open spec fn push_targets(position: Position, capture_only: bool) -> Set<int> {
    Set::new(|t: int| !capture_only && position.empty_at(t) && answers_check(position, t))
}

/// The squares on which a man other than the king may capture: those that
/// hold an opposing man other than the king and answer every check.
pub open spec fn capture_targets(position: Position) -> Set<int> {
    Set::new(|t: int| position.takeable(t) && answers_check(position, t))
}

/// The squares of the pin lines of one class.
pub open spec fn pin_set(position: Position, diagonal: bool) -> Set<int> {
    Set::new(|u: int| pin_line(position, diagonal, u))
}

/// A piece of the kind moves in the given way.
pub open spec fn walks(walk: Walk, piece: Piece) -> bool {
    match walk {
        Walk::Leap => piece is Knight,
        Walk::Diagonal => piece.slides_diagonally(),
        Walk::Straight => piece.slides_orthogonally(),
    }
}

/// The man on `s` may move in the given way: it belongs to the side to
/// move, its kind moves so, and no pin forbids it. A pinned knight does not
/// move; a man on a pin line of one class does not move along lines of the
/// other.
pub open spec fn walker(position: Position, walk: Walk, s: int) -> bool {
    &&& position.side_at(s, position.white_to_move)
    &&& walks(walk, position.squares[s].unwrap().piece)
    &&& match walk {
        Walk::Leap => !pin_line(position, true, s) && !pin_line(position, false, s),
        Walk::Diagonal => !pin_line(position, false, s),
        Walk::Straight => !pin_line(position, true, s),
    }
}

pub open spec fn walkers(position: Position, walk: Walk) -> Set<int> {
    Set::new(|s: int| walker(position, walk, s))
}

/// The man on `from` may go to `t` in the given way: the way leads there,
/// the square is one to land on, and a man on a pin line stays on the pin
/// lines of its class.
pub open spec fn walk_target(position: Position, walk: Walk, capture_only: bool, from: int, t: int) -> bool {
    &&& match walk {
        Walk::Leap => knight_step(from, t),
        Walk::Diagonal => same_diagonal(from, t) && clear(position.occupancy(), from, t) && (pin_line(
            position,
            true,
            from,
        ) ==> pin_line(position, true, t)),
        Walk::Straight => same_line(from, t) && clear(position.occupancy(), from, t) && (pin_line(
            position,
            false,
            from,
        ) ==> pin_line(position, false, t)),
    }
    &&& (push_targets(position, capture_only).contains(t) || capture_targets(position).contains(t))
}

pub open spec fn walk_targets(position: Position, walk: Walk, capture_only: bool, from: int) -> Set<int> {
    Set::new(|t: int| walk_target(position, walk, capture_only, from, t))
}

/// The moves of the man on a square in the given way.
pub open spec fn walk_each(position: Position, walk: Walk, capture_only: bool) -> spec_fn(int) -> Seq<Move> {
    |from: int|
        target_moves(
            from,
            walk_targets(position, walk, capture_only, from),
            position.side_occupancy(!position.white_to_move),
        )
}

/// The moves in the given way of the men of the side to move, man by man
/// in ascending order of their squares and for each man in ascending order
/// of the squares it goes to.
pub open spec fn walk_moves(position: Position, walk: Walk, capture_only: bool) -> Seq<Move> {
    gather(walkers(position, walk), walk_each(position, walk, capture_only), 0)
}

/// Appends the moves in the given way of the men of the side to move.
///
/// `landing` holds the squares on which a man may land; the two pin masks
/// hold the pin lines of their class.
pub(crate) fn generate_walk_moves<const STM_WHITE: bool, const NSTM_WHITE: bool, const CAPTURE_ONLY: bool>(
    board: &ChessBoard,
    walk: Walk,
    landing: Bitboard,
    diagonal_pins: Bitboard,
    orthogonal_pins: Bitboard,
    moves: &mut Vec<Move>,
)
    requires
        board.wf(),
        STM_WHITE == board@.white_to_move,
        NSTM_WHITE == !STM_WHITE,
        forall|t: int|
            landing.contains(t) <==> push_targets(board@, CAPTURE_ONLY).contains(t) || capture_targets(
                board@,
            ).contains(t),
        forall|u: int| diagonal_pins.contains(u) <==> pin_line(board@, true, u),
        forall|u: int| orthogonal_pins.contains(u) <==> pin_line(board@, false, u),
    ensures
        final(moves)@ == old(moves)@ + walk_moves(board@, walk, CAPTURE_ONLY),
{
    let ghost position = board@;
    let ghost capture_only = CAPTURE_ONLY;
    let occupancy = board.get_occupancy();
    let enemy = board.get_occupancy_for_side::<NSTM_WHITE>();
    let queens = board.get_piece_mask_for_side::<STM_WHITE>(Piece::Queen);
    let sources = match walk {
        Walk::Leap => board.get_piece_mask_for_side::<STM_WHITE>(Piece::Knight).and(
            diagonal_pins.or(orthogonal_pins).inverse(),
        ),
        Walk::Diagonal => board.get_piece_mask_for_side::<STM_WHITE>(Piece::Bishop).or(queens).and(
            orthogonal_pins.inverse(),
        ),
        Walk::Straight => board.get_piece_mask_for_side::<STM_WHITE>(Piece::Rook).or(queens).and(
            diagonal_pins.inverse(),
        ),
    };
    let ghost each = walk_each(position, walk, capture_only);
    let ghost all = walkers(position, walk);
    let ghost start = moves@;
    proof {
        assert(sources@ =~= all);
    }
    let mut rest = sources;
    let ghost mut low: int = 0;
    while rest.is_not_empty()
        invariant
            0 <= low <= 64,
            board.wf(),
            position == board@,
            occupancy@ == position.occupancy(),
            enemy@ == position.side_occupancy(!position.white_to_move),
            each == walk_each(position, walk, capture_only),
            all == sources@,
            forall|t: int|
                landing.contains(t) <==> push_targets(position, capture_only).contains(t) || capture_targets(
                    position,
                ).contains(t),
            forall|u: int| diagonal_pins.contains(u) <==> pin_line(position, true, u),
            forall|u: int| orthogonal_pins.contains(u) <==> pin_line(position, false, u),
            forall|s: int| rest.contains(s) <==> sources.contains(s) && low <= s,
            moves@ + gather(all, each, low) == start + gather(all, each, 0),
        decreases 64 - low,
    {
        let from = rest.pop_ls1b_square();
        let targets = match walk {
            Walk::Leap => Attacks::get_knight_attacks_for_square(from).and(landing),
            Walk::Diagonal => {
                let reach = Attacks::get_bishop_attacks_for_square(from, occupancy).and(landing);
                if diagonal_pins.get_bit(from) {
                    reach.and(diagonal_pins)
                } else {
                    reach
                }
            },
            Walk::Straight => {
                let reach = Attacks::get_rook_attacks_for_square(from, occupancy).and(landing);
                if orthogonal_pins.get_bit(from) {
                    reach.and(orthogonal_pins)
                } else {
                    reach
                }
            },
        };
        proof {
            assert(targets@ =~= walk_targets(position, walk, capture_only, from.index()));
        }
        let ghost before = moves@;
        append_targets(from, targets, enemy, moves);
        proof {
            lemma_gather_skip(all, each, low, from.index());
            let tail = gather(all, each, from.index() + 1);
            assert(moves@ == before + each(from.index()));
            assert(moves@ + tail =~= before + (each(from.index()) + tail));
            low = from.index() + 1;
        }
    }
    proof {
        lemma_bit_zero_all();
        lemma_gather_skip(all, each, low, 64);
        assert(moves@ + Seq::<Move>::empty() =~= moves@);
    }
}

} // verus!
