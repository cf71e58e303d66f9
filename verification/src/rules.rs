//! The rules by which the men move, and which moves are legal.

use crate::base_structures::chess_move::Move;
use crate::base_structures::move_flags::MoveFlag;
use crate::base_structures::piece::Piece;
use crate::geometry::{
    aligned, clear, king_step, knight_step, on_board, pawn_attack, rank_of, same_diagonal, same_line,
};
use crate::position::{castle_right_of, king_home, Position};
use vstd::prelude::*;

verus! {

/// The flag says what the destination shows: a quiet move to an empty
/// square, a capture of an opposing man other than the king.
pub open spec fn lands(position: Position, to: int, flag: MoveFlag) -> bool {
    flag is QuietMove && position.empty_at(to) || flag is Capture && position.takeable(to)
}

/// The rank on which a pawn of the colour promotes.
pub open spec fn last_rank(white: bool) -> int {
    if white {
        7
    } else {
        0
    }
}

/// The rank on which the pawns of the colour start.
pub open spec fn first_rank(white: bool) -> int {
    if white {
        1
    } else {
        6
    }
}

/// One square ahead for a pawn of the colour, in square indices.
pub open spec fn ahead(white: bool) -> int {
    if white {
        8
    } else {
        -8
    }
}

/// The flag of a pawn move that arrives on `to`: a promotion, capturing or
/// not, on the last rank; the plain flag elsewhere.
pub open spec fn pawn_flag_fits(white: bool, to: int, flag: MoveFlag, capture: bool) -> bool {
    if rank_of(to) == last_rank(white) {
        flag.spec_promotion().is_some() && flag.spec_is_capture() == capture
    } else if capture {
        flag is Capture
    } else {
        flag is QuietMove
    }
}

/// How a pawn moves: one square ahead to an empty square; two squares
/// ahead from its first rank over an empty square to an empty square; one
/// square ahead and aside to take an opposing man; or so to the en-passant
/// square.
pub open spec fn pawn_rule(position: Position, from: int, to: int, flag: MoveFlag) -> bool {
    let white = position.white_to_move;
    ||| to == from + ahead(white) && position.empty_at(to) && pawn_flag_fits(white, to, flag, false)
    ||| flag is DoublePush && rank_of(from) == first_rank(white) && to == from + 2 * ahead(white)
        && position.empty_at(from + ahead(white)) && position.empty_at(to)
    ||| pawn_attack(white, from, to) && position.takeable(to) && pawn_flag_fits(white, to, flag, true)
    ||| flag is EnPassant && pawn_attack(white, from, to) && position.en_passant.is_valid() && to
        == position.en_passant.index()
}

/// How the king castles: from its home square two squares towards a rook,
/// holding the right, over empty squares, neither out of check nor over an
/// attacked square.
pub open spec fn castle_rule(position: Position, from: int, to: int, flag: MoveFlag) -> bool {
    let white = position.white_to_move;
    let home = king_home(white);
    &&& from == home
    &&& !position.attacked(!white, home)
    &&& if flag is KingSideCastle {
        &&& to == home + 2
        &&& position.castle_rights.holds(castle_right_of(white, true))
        &&& position.empty_at(home + 1)
        &&& position.empty_at(home + 2)
        &&& !position.attacked(!white, home + 1)
    } else {
        &&& flag is QueenSideCastle
        &&& to == home - 2
        &&& position.castle_rights.holds(castle_right_of(white, false))
        &&& position.empty_at(home - 1)
        &&& position.empty_at(home - 2)
        &&& position.empty_at(home - 3)
        &&& !position.attacked(!white, home - 1)
    }
}

/// The move obeys the way its man moves; whether it leaves the king
/// attacked is not asked.
pub open spec fn pseudo_legal(position: Position, mv: Move) -> bool {
    let from = mv.from();
    let to = mv.to();
    let flag = mv.flag();
    &&& mv == Move::at(from, to, flag)
    &&& on_board(from)
    &&& on_board(to)
    &&& position.side_at(from, position.white_to_move)
    &&& match position.squares[from].unwrap().piece {
        Piece::Pawn => pawn_rule(position, from, to, flag),
        Piece::Knight => knight_step(from, to) && lands(position, to, flag),
        Piece::Bishop => same_diagonal(from, to) && clear(position.occupancy(), from, to) && lands(
            position,
            to,
            flag,
        ),
        Piece::Rook => same_line(from, to) && clear(position.occupancy(), from, to) && lands(
            position,
            to,
            flag,
        ),
        Piece::Queen => aligned(from, to) && clear(position.occupancy(), from, to) && lands(
            position,
            to,
            flag,
        ),
        Piece::King => king_step(from, to) && lands(position, to, flag) || castle_rule(
            position,
            from,
            to,
            flag,
        ),
    }
}

/// The move leaves the king of the side that makes it unattacked.
pub open spec fn keeps_king_safe(position: Position, mv: Move) -> bool {
    !position.apply(mv).attacked(
        !position.white_to_move,
        position.apply(mv).king_square(position.white_to_move),
    )
}

/// The move is legal: it obeys the way its man moves and leaves the king of
/// the side that makes it unattacked.
pub open spec fn legal(position: Position, mv: Move) -> bool {
    pseudo_legal(position, mv) && keeps_king_safe(position, mv)
}

/// A move that obeys the way its man moves fits the position.
pub proof fn lemma_pseudo_legal_fits(position: Position, mv: Move)
    requires
        position.valid(),
        pseudo_legal(position, mv),
    ensures
        position.applicable(mv),
{
    let white = position.white_to_move;
    assert(position.castle_right_sound(white, true));
    assert(position.castle_right_sound(white, false));
}

} // verus!
