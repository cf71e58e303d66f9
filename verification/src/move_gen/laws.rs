//! What holds of every move that the generator lists.

use crate::base_structures::chess_move::Move;
use crate::base_structures::move_flags::MoveFlag;
use crate::base_structures::piece::Man;
use crate::base_structures::piece::Piece;
use crate::geometry::{between, file_gap, magnitude, on_board, rank_gap};
use crate::position::lemma_apply_valid;
use crate::position::{castle_right_of, king_home, Position};
use super::king_moves::{castle_move, in_check};
use super::legal_moves;
use super::listed::{
    castle_listed, en_passant_listed, exact, king_listed, lemma_member_listed, listed, pawn_capture_listed,
    pawn_listed, pawn_push_listed, walk_listed,
};
use super::masks::{checker, double_check, own_king, pin_line};
use super::pawn_moves::{en_passant_move, en_passant_safe};
use super::piece_moves::{pin_set, Walk};
use super::safety::{
    lemma_capture_on_pin, lemma_castle_safe, lemma_king_step_safe, lemma_off_line_unpinned,
    lemma_push_on_pin, lemma_shielded_move_safe, lemma_slide_on_pin, pins,
};
use vstd::prelude::*;

verus! {

/// Every listed move fits the position: it can be made.
pub proof fn lemma_listed_fits(position: Position, capture_only: bool, mv: Move)
    requires
        position.valid(),
        listed(position, capture_only, mv),
    ensures
        position.applicable(mv),
{
    let white = position.white_to_move;
    assert(position.one_king(white));
    assert(position.holds(own_king(position), white, Piece::King));
    if king_listed(position, capture_only, mv) {
    } else if castle_listed(position, capture_only, mv) {
        let home = king_home(white);
        Move::lemma_at(home, home + 2, MoveFlag::KingSideCastle);
        Move::lemma_at(home, home - 2, MoveFlag::QueenSideCastle);
        assert(position.castle_right_sound(white, true));
        assert(position.castle_right_sound(white, false));
    } else if pawn_listed(position, capture_only, mv) {
    } else {
    }
}

/// Every move of the generator's list fits the position.
pub proof fn lemma_generated_moves_fit(position: Position, capture_only: bool)
    requires
        position.valid(),
    ensures
        forall|i: int|
            0 <= i < legal_moves(position, capture_only).len() ==> position.applicable(
                #[trigger] legal_moves(position, capture_only)[i],
            ),
{
    let moves = legal_moves(position, capture_only);
    assert forall|i: int| 0 <= i < moves.len() implies position.applicable(#[trigger] moves[i]) by {
        assert(moves.contains(moves[i]));
        lemma_member_listed(position, capture_only, moves[i]);
        lemma_listed_fits(position, capture_only, moves[i]);
    }
}

/// While two men give check, every listed move is a move of the king.
pub proof fn lemma_double_check_king_only(position: Position, capture_only: bool, mv: Move)
    requires
        position.valid(),
        double_check(position),
        legal_moves(position, capture_only).contains(mv),
    ensures
        mv.from() == own_king(position),
        position.holds(mv.from(), position.white_to_move, Piece::King),
{
    lemma_member_listed(position, capture_only, mv);
    assert(position.one_king(position.white_to_move));
}

/// A listed en-passant capture leaves the king of the side that makes it
/// unattacked, whatever line the two vanishing pawns open.
pub proof fn lemma_en_passant_never_exposes_king(position: Position, capture_only: bool, mv: Move)
    requires
        position.valid(),
        legal_moves(position, capture_only).contains(mv),
        mv.flag() is EnPassant,
    ensures
        !position.apply(mv).attacked(
            !position.white_to_move,
            position.apply(mv).king_square(position.white_to_move),
        ),
{
    lemma_member_listed(position, capture_only, mv);
    assert(en_passant_listed(position, mv));
}

/// A castling move is listed only where the side to move holds the right,
/// the squares between king and rook are empty, and no opposing man
/// attacks the square of the king, the square it passes or the square it
/// reaches.
pub proof fn lemma_castling_conditions(position: Position, capture_only: bool, mv: Move)
    requires
        position.valid(),
        legal_moves(position, capture_only).contains(mv),
        mv.flag().spec_is_castle(),
    ensures
        ({
            let white = position.white_to_move;
            let home = king_home(white);
            let king_side = mv.flag() is KingSideCastle;
            let way = if king_side {
                1int
            } else {
                -1int
            };
            &&& mv == castle_move(position, king_side)
            &&& position.castle_rights.holds(castle_right_of(white, king_side))
            &&& position.empty_at(home + way)
            &&& position.empty_at(home + 2 * way)
            &&& (!king_side ==> position.empty_at(home - 3))
            &&& !position.attacked(!white, home)
            &&& !position.attacked(!white, home + way)
            &&& !position.attacked(!white, home + 2 * way)
        }),
{
    let white = position.white_to_move;
    let home = king_home(white);
    lemma_member_listed(position, capture_only, mv);
    Move::lemma_at(home, home + 2, MoveFlag::KingSideCastle);
    Move::lemma_at(home, home - 2, MoveFlag::QueenSideCastle);
    assert(castle_listed(position, capture_only, mv));
    let king_side = mv.flag() is KingSideCastle;
    assert(position.castle_right_sound(white, king_side));
    assert(position.one_king(white));
    assert(own_king(position) == home);
    let other = !white;
    let occupied = position.occupancy();
    if position.attacked(other, home) {
        let s = choose|s: int| position.attacks_from(s, other, home, occupied);
        assert(checker(position, s));
    }
}

/// A listed move of a knight, bishop, rook or queen leaves the king of the
/// side that makes it unattacked.
pub proof fn lemma_walk_safe(position: Position, walk: Walk, capture_only: bool, mv: Move)
    requires
        position.valid(),
        position.applicable(mv),
        walk_listed(position, walk, capture_only, mv),
    ensures
        !position.apply(mv).attacked(
            !position.white_to_move,
            position.apply(mv).king_square(position.white_to_move),
        ),
{
    let white = position.white_to_move;
    let from = mv.from();
    let to = mv.to();
    let next = position.apply(mv);
    let king = own_king(position);
    let placed = Man { white, piece: position.squares[from].unwrap().piece };
    assert(position.one_king(white));
    assert(position.holds(king, white, Piece::King));
    assert forall|e: int, diagonal: bool| #[trigger] pins(position, diagonal, e, from) implies to == e
        || between(king, e, to) by {
        match walk {
            Walk::Leap => {
                lemma_off_line_unpinned(position, diagonal, e, from);
            },
            Walk::Diagonal => {
                if diagonal {
                    assert(pin_line(position, true, from));
                    lemma_slide_on_pin(position, true, e, from, to);
                } else {
                    lemma_off_line_unpinned(position, false, e, from);
                }
            },
            Walk::Straight => {
                if diagonal {
                    lemma_off_line_unpinned(position, true, e, from);
                } else {
                    assert(pin_line(position, false, from));
                    lemma_slide_on_pin(position, false, e, from, to);
                }
            },
        }
    }
    lemma_shielded_move_safe(position, next, from, to, placed);
}

/// A listed pawn capture other than en passant leaves the king of the
/// side that makes it unattacked.
pub proof fn lemma_pawn_capture_safe(position: Position, left: bool, mv: Move)
    requires
        position.valid(),
        position.applicable(mv),
        exact(mv),
        pawn_capture_listed(position, left, mv),
    ensures
        !position.apply(mv).attacked(
            !position.white_to_move,
            position.apply(mv).king_square(position.white_to_move),
        ),
{
    let white = position.white_to_move;
    let from = mv.from();
    let to = mv.to();
    let next = position.apply(mv);
    let king = own_king(position);
    assert(position.one_king(white));
    assert(position.holds(king, white, Piece::King));
    let placed = Man {
        white,
        piece: match mv.flag().spec_promotion() {
            Some(promoted) => promoted,
            None => Piece::Pawn,
        },
    };
    assert(position.holds(from, white, Piece::Pawn));
    assert(on_board(to));
    assert(magnitude(file_gap(from, to)) == 1 && magnitude(rank_gap(from, to)) == 1);
    let reach = magnitude(to - from);
    assert(to == from + reach || to == from - reach);
    assert(pin_set(position, true).contains(from) ==> pin_set(position, true).contains(from - reach)
        || pin_set(position, true).contains(from + reach));
    assert forall|e: int, diagonal: bool| #[trigger] pins(position, diagonal, e, from) implies to == e
        || between(king, e, to) by {
        if diagonal {
            assert(pin_line(position, true, from));
            assert(pin_set(position, true).contains(from));
            assert(pin_line(position, true, to) || pin_line(position, true, 2 * from - to));
            lemma_capture_on_pin(position, e, from, to);
        } else {
            lemma_off_line_unpinned(position, false, e, from);
        }
    }
    lemma_shielded_move_safe(position, next, from, to, placed);
}

/// A listed pawn push leaves the king of the side that makes it
/// unattacked.
pub proof fn lemma_pawn_push_safe(position: Position, capture_only: bool, mv: Move)
    requires
        position.valid(),
        position.applicable(mv),
        exact(mv),
        on_board(mv.from()),
        pawn_push_listed(position, capture_only, mv),
    ensures
        !position.apply(mv).attacked(
            !position.white_to_move,
            position.apply(mv).king_square(position.white_to_move),
        ),
{
    let white = position.white_to_move;
    let from = mv.from();
    let to = mv.to();
    let next = position.apply(mv);
    let king = own_king(position);
    assert(position.one_king(white));
    assert(position.holds(king, white, Piece::King));
    let placed = Man {
        white,
        piece: match mv.flag().spec_promotion() {
            Some(promoted) => promoted,
            None => Piece::Pawn,
        },
    };
    assert(position.holds(from, white, Piece::Pawn));
    assert(position.empty_at(to));
    assert(to == from + 8 || to == from - 8 || to == from + 16 || to == from - 16);
    assert(to == from + 16 || to == from - 16 ==> position.empty_at((from + to) / 2));
    assert(pin_set(position, false).contains(from) ==> pin_set(position, false).contains(from - 8)
        || pin_set(position, false).contains(from + 8));
    assert forall|e: int, diagonal: bool| #[trigger] pins(position, diagonal, e, from) implies to == e
        || between(king, e, to) by {
        if diagonal {
            lemma_off_line_unpinned(position, true, e, from);
        } else {
            assert(pin_line(position, false, from));
            assert(pin_set(position, false).contains(from));
            lemma_push_on_pin(position, e, from, to);
        }
    }
    lemma_shielded_move_safe(position, next, from, to, placed);
}

/// A listed pawn move leaves the king of the side that makes it
/// unattacked.
pub proof fn lemma_pawn_safe(position: Position, capture_only: bool, mv: Move)
    requires
        position.valid(),
        position.applicable(mv),
        pawn_listed(position, capture_only, mv),
    ensures
        !position.apply(mv).attacked(
            !position.white_to_move,
            position.apply(mv).king_square(position.white_to_move),
        ),
{
    if en_passant_listed(position, mv) {
        assert(mv == en_passant_move(position, mv.from()));
        assert(en_passant_safe(position, mv.from()));
    } else if pawn_capture_listed(position, true, mv) {
        lemma_pawn_capture_safe(position, true, mv);
    } else if pawn_capture_listed(position, false, mv) {
        lemma_pawn_capture_safe(position, false, mv);
    } else {
        lemma_pawn_push_safe(position, capture_only, mv);
    }
}

/// A listed move leaves the king of the side that makes it unattacked.
pub proof fn lemma_listed_safe(position: Position, capture_only: bool, mv: Move)
    requires
        position.valid(),
        listed(position, capture_only, mv),
    ensures
        !position.apply(mv).attacked(
            !position.white_to_move,
            position.apply(mv).king_square(position.white_to_move),
        ),
{
    lemma_listed_fits(position, capture_only, mv);
    if king_listed(position, capture_only, mv) {
        lemma_king_step_safe(position, capture_only, mv);
    } else if castle_listed(position, capture_only, mv) {
        lemma_castle_safe(position, capture_only, mv);
    } else if pawn_listed(position, capture_only, mv) {
        lemma_pawn_safe(position, capture_only, mv);
    } else if walk_listed(position, Walk::Leap, capture_only, mv) {
        lemma_walk_safe(position, Walk::Leap, capture_only, mv);
    } else if walk_listed(position, Walk::Diagonal, capture_only, mv) {
        lemma_walk_safe(position, Walk::Diagonal, capture_only, mv);
    } else {
        lemma_walk_safe(position, Walk::Straight, capture_only, mv);
    }
}

/// No move of the generator's list leaves the king of the side that makes
/// it attacked: the listed moves are legal as they are.
pub proof fn lemma_generated_moves_safe(position: Position, capture_only: bool, mv: Move)
    requires
        position.valid(),
        legal_moves(position, capture_only).contains(mv),
    ensures
        position.applicable(mv),
        position.apply(mv).valid(),
        !position.apply(mv).attacked(
            !position.white_to_move,
            position.apply(mv).king_square(position.white_to_move),
        ),
{
    lemma_member_listed(position, capture_only, mv);
    lemma_listed_fits(position, capture_only, mv);
    lemma_listed_safe(position, capture_only, mv);
    lemma_apply_valid(position, mv);
}

/// Check is found from the position alone: the men that give check are
/// the opposing men that attack the king of the side to move as the
/// squares stand, and the same holds in the position after any move, of
/// which nothing but the squares and the turn is carried over.
pub proof fn lemma_check_detection(position: Position, mv: Move)
    requires
        position.valid(),
        position.applicable(mv),
    ensures
        in_check(position) <==> position.in_check(position.white_to_move),
        forall|s: int|
            checker(position, s) <==> position.attacks_from(
                s,
                !position.white_to_move,
                position.king_square(position.white_to_move),
                position.occupancy(),
            ),
        position.apply(mv).valid(),
        in_check(position.apply(mv)) <==> position.apply(mv).attacked(
            position.white_to_move,
            position.apply(mv).king_square(!position.white_to_move),
        ),
{
    lemma_apply_valid(position, mv);
    let next = position.apply(mv);
    let white = position.white_to_move;
    let other = !white;
    let king = next.king_square(other);
    let occupied = next.occupancy();
    if in_check(next) {
        let s = choose|s: int| checker(next, s);
        assert(next.attacks_from(s, white, king, occupied));
    }
    if next.attacked(white, king) {
        let s = choose|s: int| next.attacks_from(s, white, king, occupied);
        assert(checker(next, s));
    }
    let own = position.king_square(white);
    let before = position.occupancy();
    if in_check(position) {
        let s = choose|s: int| checker(position, s);
        assert(position.attacks_from(s, other, own, before));
    }
    if position.in_check(white) {
        let s = choose|s: int| position.attacks_from(s, other, own, before);
        assert(checker(position, s));
    }
}

} // verus!
