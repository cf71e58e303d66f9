//! Why every legal move is listed.

use crate::base_structures::chess_move::Move;
use crate::base_structures::piece::Piece;
use crate::geometry::{
    aligned, between, clear, file_of, knight_step, lemma_between_symmetric, lemma_clear_symmetric,
    magnitude, on_board, pawn_attack, same_diagonal,
};
use crate::position::{king_home, lemma_apply_valid, Position};
use crate::rules::{legal, lemma_pseudo_legal_fits};
use super::king_moves::{castle_move, in_check, king_target, may_castle};
use super::listed::{
    castle_listed, en_passant_listed, king_listed, listed, pawn_capture_listed, pawn_listed,
    pawn_push_listed, walk_listed,
};
use super::masks::{answers_check, checker, double_check, on_class, own_king, pin_line, pinner, sole_blocker};
use super::pawn_moves::{capture_step, en_passant_move, forward, may_capture, may_push, pawns_off};
use super::piece_moves::{capture_targets, pin_set, push_targets, walk_target, walker, Walk};
use super::safety::{lemma_king_found, pins};
use vstd::prelude::*;

verus! {

/// A check that a move of another man than the king neither blocks nor
/// removes still stands after the move.
pub proof fn lemma_check_stands(position: Position, next: Position, c: int, to: int)
    requires
        position.valid(),
        checker(position, c),
        next.squares.len() == 64,
        next.squares[c] == position.squares[c],
        forall|s: int| next.occupancy().contains(s) ==> position.occupancy().contains(s) || s == to,
        to != c,
        !between(own_king(position), c, to),
    ensures
        next.attacks_from(c, !position.white_to_move, own_king(position), next.occupancy()),
{
    let king = own_king(position);
    let before = position.occupancy();
    let after = next.occupancy();
    lemma_between_symmetric(king, c, to);
    if clear(before, c, king) {
        assert forall|u: int| #[trigger] between(c, king, u) implies !after.contains(u) by {
            if after.contains(u) {
                assert(before.contains(u) || u == to);
            }
        }
    }
}

/// Where a pinned man leaves the line of its pin, the pinning man attacks
/// the king.
pub proof fn lemma_pin_bites(position: Position, next: Position, diagonal: bool, e: int, from: int, to: int)
    requires
        position.valid(),
        pins(position, diagonal, e, from),
        next.squares.len() == 64,
        next.squares[e] == position.squares[e],
        forall|s: int|
            next.occupancy().contains(s) ==> position.occupancy().contains(s) && s != from || s == to,
        to != e,
        !between(own_king(position), e, to),
    ensures
        next.attacks_from(e, !position.white_to_move, own_king(position), next.occupancy()),
{
    let king = own_king(position);
    let after = next.occupancy();
    assert forall|u: int| #[trigger] between(e, king, u) implies !after.contains(u) by {
        lemma_between_symmetric(king, e, u);
        if after.contains(u) {
            assert(between(king, e, u));
            assert(u != to);
            assert(position.empty_at(u));
        }
    }
    assert(clear(after, e, king));
}

/// A man of the side to move that stands on a pin line is pinned.
pub proof fn lemma_on_line_pinned(position: Position, diagonal: bool, from: int) -> (e: int)
    requires
        position.valid(),
        position.side_at(from, position.white_to_move),
        pin_line(position, diagonal, from),
    ensures
        pins(position, diagonal, e, from),
{
    let king = own_king(position);
    let e = choose|e: int| #[trigger] pinner(position, diagonal, e) && (from == e || between(king, e, from));
    let p = choose|p: int| sole_blocker(position, e, p);
    if p != from {
        assert(position.empty_at(from));
    }
    e
}

/// The position after a plain move of a man other than the king: the king
/// stays, the men of the other side stay but for one that is taken, and
/// the squares that hold a man are those that held one, less the origin,
/// and the destination.
pub proof fn lemma_after_plain_move(position: Position, mv: Move)
    requires
        position.valid(),
        position.applicable(mv),
        !(position.squares[mv.from()].unwrap().piece is King),
        !(mv.flag() is EnPassant),
    ensures
        position.apply(mv).valid(),
        position.apply(mv).king_square(position.white_to_move) == own_king(position),
        position.apply(mv).squares.len() == 64,
        forall|s: int|
            0 <= s < 64 && s != mv.to() && s != mv.from() ==> #[trigger] position.apply(mv).squares[s]
                == position.squares[s],
        forall|s: int| #[trigger]
            position.apply(mv).occupancy().contains(s) ==> position.occupancy().contains(s) && s != mv.from()
                || s == mv.to(),
{
    let white = position.white_to_move;
    let next = position.apply(mv);
    let king = own_king(position);
    lemma_apply_valid(position, mv);
    assert(position.one_king(white));
    assert(position.holds(king, white, Piece::King));
    assert(next.holds(king, white, Piece::King));
    lemma_king_found(next, white, king);
}

/// A legal move of a man other than the king answers every check and
/// keeps a pinned man on the line of its pin.
pub proof fn lemma_legal_move_shielded(position: Position, mv: Move)
    requires
        position.valid(),
        legal(position, mv),
        !(position.squares[mv.from()].unwrap().piece is King),
        !(mv.flag() is EnPassant),
    ensures
        answers_check(position, mv.to()),
        forall|e: int, diagonal: bool| #[trigger]
            pins(position, diagonal, e, mv.from()) ==> mv.to() == e || between(
                own_king(position),
                e,
                mv.to(),
            ),
{
    let white = position.white_to_move;
    let other = !white;
    let from = mv.from();
    let to = mv.to();
    let next = position.apply(mv);
    let king = own_king(position);
    let after = next.occupancy();
    lemma_pseudo_legal_fits(position, mv);
    lemma_after_plain_move(position, mv);
    assert forall|c: int| #[trigger] checker(position, c) implies to == c || between(king, c, to) by {
        if to != c && !between(king, c, to) {
            assert(c != from && on_board(c));
            assert(next.squares[c] == position.squares[c]);
            lemma_check_stands(position, next, c, to);
            assert(next.attacked_with(other, king, after));
        }
    }
    assert forall|e: int, diagonal: bool| #[trigger] pins(position, diagonal, e, from) implies to == e
        || between(king, e, to) by {
        if to != e && !between(king, e, to) {
            assert(e != from && on_board(e));
            assert(next.squares[e] == position.squares[e]);
            lemma_pin_bites(position, next, diagonal, e, from, to);
            assert(next.attacked_with(other, king, after));
        }
    }
}

/// No knight's leap joins two squares of one line through a third square.
pub proof fn lemma_leap_leaves_line(k: int, e: int, from: int, to: int)
    requires
        between(k, e, from),
        to == e || between(k, e, to),
    ensures
        !knight_step(from, to),
{
}

/// Two squares of one line of a class through a third square lie on a line
/// of that class.
pub proof fn lemma_line_keeps_class(diagonal: bool, k: int, e: int, from: int, to: int)
    requires
        on_class(diagonal, k, e),
        between(k, e, from),
        to == e || between(k, e, to),
        from != to,
    ensures
        on_class(diagonal, from, to),
        !on_class(!diagonal, from, to),
{
}

/// The way in which a legal move of a knight, bishop, rook or queen moves
/// its man.
pub open spec fn walk_of(position: Position, mv: Move) -> Walk {
    if position.squares[mv.from()].unwrap().piece is Knight {
        Walk::Leap
    } else if same_diagonal(mv.from(), mv.to()) {
        Walk::Diagonal
    } else {
        Walk::Straight
    }
}

/// A legal move of a knight, bishop, rook or queen is listed.
pub proof fn lemma_legal_walk_listed(position: Position, mv: Move)
    requires
        position.valid(),
        legal(position, mv),
        !(position.squares[mv.from()].unwrap().piece is King),
        !(position.squares[mv.from()].unwrap().piece is Pawn),
    ensures
        walk_listed(position, walk_of(position, mv), false, mv),
{
    let white = position.white_to_move;
    let from = mv.from();
    let to = mv.to();
    let king = own_king(position);
    let walk = walk_of(position, mv);
    lemma_legal_move_shielded(position, mv);
    if pin_line(position, true, from) {
        let e = lemma_on_line_pinned(position, true, from);
        assert(to == e || between(king, e, to));
        if walk is Leap {
            lemma_leap_leaves_line(king, e, from, to);
        } else {
            lemma_line_keeps_class(true, king, e, from, to);
            assert(walk is Diagonal);
            assert(pin_line(position, true, to));
        }
    }
    if pin_line(position, false, from) {
        let e = lemma_on_line_pinned(position, false, from);
        assert(to == e || between(king, e, to));
        if walk is Leap {
            lemma_leap_leaves_line(king, e, from, to);
        } else {
            lemma_line_keeps_class(false, king, e, from, to);
            assert(walk is Straight);
            assert(pin_line(position, false, to));
        }
    }
    assert(walker(position, walk, from));
    assert(walk_target(position, walk, false, from, to));
}

/// A square between two squares of a line through `k` lies on that line.
pub proof fn lemma_line_is_convex(k: int, e: int, from: int, to: int, middle: int)
    requires
        between(k, e, from),
        to == e || between(k, e, to),
        between(from, to, middle),
    ensures
        between(k, e, middle),
{
}

/// The position after an en-passant capture: the king stays, the men of
/// the other side stay but for the pawn that is taken, and no square but
/// the destination holds a man that held none.
pub proof fn lemma_after_en_passant(position: Position, mv: Move)
    requires
        position.valid(),
        position.applicable(mv),
        mv.flag() is EnPassant,
    ensures
        position.apply(mv).valid(),
        position.apply(mv).king_square(position.white_to_move) == own_king(position),
        position.apply(mv).squares.len() == 64,
        position.holds(mv.to() - forward(position.white_to_move), !position.white_to_move, Piece::Pawn),
        forall|s: int|
            0 <= s < 64 && s != mv.to() - forward(position.white_to_move) && s != mv.to() && s
                != mv.from() ==> #[trigger] position.apply(mv).squares[s] == position.squares[s],
        forall|s: int| #[trigger]
            position.apply(mv).occupancy().contains(s) ==> position.occupancy().contains(s) && s != mv.from()
                || s == mv.to(),
{
    let white = position.white_to_move;
    let next = position.apply(mv);
    let king = own_king(position);
    lemma_apply_valid(position, mv);
    assert(position.one_king(white));
    assert(position.holds(king, white, Piece::King));
    assert(next.holds(king, white, Piece::King));
    lemma_king_found(next, white, king);
}

/// A legal en-passant capture is listed.
pub proof fn lemma_legal_en_passant_listed(position: Position, mv: Move)
    requires
        position.valid(),
        legal(position, mv),
        position.squares[mv.from()].unwrap().piece is Pawn,
        mv.flag() is EnPassant,
    ensures
        en_passant_listed(position, mv),
{
    let white = position.white_to_move;
    let other = !white;
    let from = mv.from();
    let to = mv.to();
    let king = own_king(position);
    let next = position.apply(mv);
    lemma_pseudo_legal_fits(position, mv);
    assert(position.holds(from, white, Piece::Pawn));
    lemma_after_en_passant(position, mv);
    if pin_line(position, false, from) {
        let e = lemma_on_line_pinned(position, false, from);
        if to == e || between(king, e, to) {
            lemma_line_keeps_class(false, king, e, from, to);
        }
        assert(on_board(e) && e != from && e != to);
        assert(next.squares[e] == position.squares[e]);
        lemma_pin_bites(position, next, false, e, from, to);
        assert(next.attacked_with(other, king, next.occupancy()));
    }
    assert(mv == en_passant_move(position, from));
}

/// A legal pawn capture other than en passant is listed.
pub proof fn lemma_legal_pawn_capture_listed(position: Position, mv: Move)
    requires
        position.valid(),
        legal(position, mv),
        position.squares[mv.from()].unwrap().piece is Pawn,
        !(mv.flag() is EnPassant),
        pawn_attack(position.white_to_move, mv.from(), mv.to()),
    ensures
        pawn_capture_listed(position, file_of(mv.to()) < file_of(mv.from()), mv),
{
    let white = position.white_to_move;
    let from = mv.from();
    let to = mv.to();
    let king = own_king(position);
    let left = file_of(to) < file_of(from);
    assert(position.holds(from, white, Piece::Pawn));
    lemma_legal_move_shielded(position, mv);
    assert(position.takeable(to));
    assert(to == from + capture_step(white, left));
    let reach = magnitude(capture_step(white, left));
    assert(to == from + reach || to == from - reach);
    if pin_line(position, true, from) {
        let e = lemma_on_line_pinned(position, true, from);
        assert(to == e || between(king, e, to));
        assert(pin_line(position, true, to));
    }
    if pin_line(position, false, from) {
        let e = lemma_on_line_pinned(position, false, from);
        assert(to == e || between(king, e, to));
        lemma_line_keeps_class(false, king, e, from, to);
    }
    assert(!pin_line(position, false, from));
    assert(capture_targets(position).contains(to));
    assert(pawns_off(position, pin_set(position, false)).contains(from));
    assert(may_capture(
        white,
        left,
        pawns_off(position, pin_set(position, false)),
        capture_targets(position),
        pin_set(position, true),
        from,
    ));
}

/// A legal pawn push is listed.
pub proof fn lemma_legal_pawn_push_listed(position: Position, mv: Move)
    requires
        position.valid(),
        legal(position, mv),
        position.squares[mv.from()].unwrap().piece is Pawn,
        !(mv.flag() is EnPassant),
        !pawn_attack(position.white_to_move, mv.from(), mv.to()),
    ensures
        pawn_push_listed(position, false, mv),
{
    let white = position.white_to_move;
    let from = mv.from();
    let to = mv.to();
    let king = own_king(position);
    assert(position.holds(from, white, Piece::Pawn));
    lemma_legal_move_shielded(position, mv);
    assert(position.empty_at(to));
    assert(to == from + forward(white) || (mv.flag() is DoublePush && to == from + 2 * forward(white)));
    if pin_line(position, true, from) {
        let e = lemma_on_line_pinned(position, true, from);
        assert(to == e || between(king, e, to));
        lemma_line_keeps_class(true, king, e, from, to);
    }
    assert(!pin_line(position, true, from));
    if pin_line(position, false, from) {
        let e = lemma_on_line_pinned(position, false, from);
        assert(to == e || between(king, e, to));
        assert(pin_line(position, false, to));
        if to != from + forward(white) {
            let middle = from + forward(white);
            assert(between(from, to, middle));
            lemma_line_is_convex(king, e, from, to, middle);
            assert(pin_line(position, false, middle));
        }
        assert(pin_line(position, false, from + 8) || pin_line(position, false, from - 8));
    }
    assert(pawns_off(position, pin_set(position, true)).contains(from));
    assert(may_push(pawns_off(position, pin_set(position, true)), pin_set(position, false), from));
    assert(push_targets(position, false).contains(to));
}

/// A legal pawn move is listed.
pub proof fn lemma_legal_pawn_listed(position: Position, mv: Move)
    requires
        position.valid(),
        legal(position, mv),
        position.squares[mv.from()].unwrap().piece is Pawn,
    ensures
        pawn_listed(position, false, mv),
{
    if mv.flag() is EnPassant {
        lemma_legal_en_passant_listed(position, mv);
    } else if pawn_attack(position.white_to_move, mv.from(), mv.to()) {
        lemma_legal_pawn_capture_listed(position, mv);
    } else {
        lemma_legal_pawn_push_listed(position, mv);
    }
}

/// A legal step of the king is listed.
pub proof fn lemma_legal_king_step_listed(position: Position, mv: Move)
    requires
        position.valid(),
        legal(position, mv),
        position.squares[mv.from()].unwrap().piece is King,
        !mv.flag().spec_is_castle(),
    ensures
        king_listed(position, false, mv),
{
    let white = position.white_to_move;
    let other = !white;
    let from = mv.from();
    let to = mv.to();
    let king = own_king(position);
    let next = position.apply(mv);
    let bare = position.occupancy().remove(king);
    let after = next.occupancy();
    lemma_pseudo_legal_fits(position, mv);
    lemma_apply_valid(position, mv);
    assert(position.one_king(white));
    assert(position.holds(king, white, Piece::King));
    assert(position.holds(from, white, Piece::King));
    assert(from == king);
    assert(next.holds(to, white, Piece::King));
    lemma_king_found(next, white, to);
    if position.attacked_with(other, to, bare) {
        let s = choose|s: int| position.attacks_from(s, other, to, bare);
        assert(s != to && s != king);
        assert(next.squares[s] == position.squares[s]);
        if clear(bare, s, to) {
            assert forall|u: int| #[trigger] between(s, to, u) implies !after.contains(u) by {
                if after.contains(u) {
                    assert(bare.contains(u));
                }
            }
        }
        assert(next.attacks_from(s, other, to, after));
        assert(next.attacked_with(other, to, after));
    }
    assert(king_target(position, false, to));
}

/// A legal castling move is listed.
pub proof fn lemma_legal_castle_listed(position: Position, mv: Move)
    requires
        position.valid(),
        legal(position, mv),
        position.squares[mv.from()].unwrap().piece is King,
        mv.flag().spec_is_castle(),
    ensures
        castle_listed(position, false, mv),
{
    let white = position.white_to_move;
    let other = !white;
    let from = mv.from();
    let to = mv.to();
    let home = king_home(white);
    let next = position.apply(mv);
    let before = position.occupancy();
    let after = next.occupancy();
    let king_side = mv.flag() is KingSideCastle;
    lemma_pseudo_legal_fits(position, mv);
    lemma_apply_valid(position, mv);
    assert(position.castle_right_sound(white, king_side));
    assert(position.one_king(white));
    lemma_king_found(position, white, home);
    assert(next.holds(to, white, Piece::King));
    lemma_king_found(next, white, to);
    assert(!in_check(position)) by {
        if in_check(position) {
            let s = choose|s: int| checker(position, s);
            assert(position.attacked_with(other, home, before));
        }
    }
    if position.attacked(other, to) {
        let s = choose|s: int| position.attacks_from(s, other, to, before);
        assert(next.squares[s] == position.squares[s]);
        if clear(before, s, to) && aligned(s, to) {
            assert forall|u: int| #[trigger] between(s, to, u) implies !after.contains(u) by {
                if after.contains(u) {
                    if king_side {
                        assert(u == home + 1);
                        assert(between(s, to, home));
                    } else {
                        assert(u == home - 1);
                        assert(between(s, to, home));
                    }
                    assert(before.contains(home));
                }
            }
        }
        assert(next.attacks_from(s, other, to, after));
        assert(next.attacked_with(other, to, after));
    }
    assert(may_castle(position, king_side));
    assert(mv == castle_move(position, king_side));
}

/// No square answers two checks at once: a man that blocks or takes one
/// checking man neither blocks nor takes another.
pub proof fn lemma_one_square_answers_one_check(position: Position, a: int, b: int, to: int)
    requires
        position.valid(),
        checker(position, a),
        checker(position, b),
        a != b,
        to == a || between(own_king(position), a, to),
    ensures
        !(to == b || between(own_king(position), b, to)),
{
    let king = own_king(position);
    let occupied = position.occupancy();
    lemma_clear_symmetric(occupied, a, king);
    lemma_clear_symmetric(occupied, b, king);
    if to == b || between(king, b, to) {
        if to == a {
            assert(between(king, b, a));
            assert(occupied.contains(a));
            assert(!clear(occupied, king, b));
        } else if to == b {
            assert(between(king, a, b));
            assert(occupied.contains(b));
            assert(!clear(occupied, king, a));
        } else {
            assert(between(king, a, b) || between(king, b, a));
            assert(occupied.contains(a) && occupied.contains(b));
            assert(!clear(occupied, king, a) || !clear(occupied, king, b));
        }
    }
}

/// While two men give check, no move of a man other than the king that
/// answers every check exists.
pub proof fn lemma_double_check_unanswered(position: Position, to: int)
    requires
        position.valid(),
        double_check(position),
    ensures
        !answers_check(position, to),
{
    let (a, b) = choose|a: int, b: int| a != b && checker(position, a) && checker(position, b);
    if answers_check(position, to) {
        lemma_one_square_answers_one_check(position, a, b, to);
    }
}

/// A legal en-passant capture takes each checking man or blocks its line.
pub proof fn lemma_en_passant_answers(position: Position, mv: Move, c: int)
    requires
        position.valid(),
        legal(position, mv),
        position.squares[mv.from()].unwrap().piece is Pawn,
        mv.flag() is EnPassant,
        checker(position, c),
    ensures
        c == mv.to() - forward(position.white_to_move) || between(own_king(position), c, mv.to()),
{
    let white = position.white_to_move;
    let other = !white;
    let to = mv.to();
    let king = own_king(position);
    let next = position.apply(mv);
    lemma_pseudo_legal_fits(position, mv);
    lemma_after_en_passant(position, mv);
    if c != to - forward(white) && !between(king, c, to) {
        assert(on_board(c) && c != mv.from() && c != to);
        assert(next.squares[c] == position.squares[c]);
        lemma_check_stands(position, next, c, to);
        assert(next.attacked_with(other, king, next.occupancy()));
    }
}

/// No en-passant capture is legal while two men give check.
pub proof fn lemma_en_passant_single_check(position: Position, mv: Move)
    requires
        position.valid(),
        legal(position, mv),
        position.squares[mv.from()].unwrap().piece is Pawn,
        mv.flag() is EnPassant,
    ensures
        !double_check(position),
{
    if double_check(position) {
        let white = position.white_to_move;
        let to = mv.to();
        let king = own_king(position);
        let victim = to - forward(white);
        let (a, b) = choose|a: int, b: int| a != b && checker(position, a) && checker(position, b);
        lemma_en_passant_answers(position, mv, a);
        lemma_en_passant_answers(position, mv, b);
        lemma_pseudo_legal_fits(position, mv);
        lemma_after_en_passant(position, mv);
        if a == victim {
            assert(pawn_attack(!white, a, king));
            assert(!between(king, b, to));
        } else if b == victim {
            assert(pawn_attack(!white, b, king));
            assert(!between(king, a, to));
        } else {
            lemma_one_square_answers_one_check(position, a, b, to);
        }
    }
}

/// Every legal move is listed.
pub proof fn lemma_legal_listed(position: Position, mv: Move)
    requires
        position.valid(),
        legal(position, mv),
    ensures
        listed(position, false, mv),
{
    let piece = position.squares[mv.from()].unwrap().piece;
    if piece is King {
        if mv.flag().spec_is_castle() {
            lemma_legal_castle_listed(position, mv);
            if double_check(position) {
                let (a, b) = choose|a: int, b: int| a != b && checker(position, a) && checker(position, b);
                assert(in_check(position));
            }
        } else {
            lemma_legal_king_step_listed(position, mv);
        }
    } else if piece is Pawn {
        lemma_legal_pawn_listed(position, mv);
        if mv.flag() is EnPassant {
            lemma_en_passant_single_check(position, mv);
        } else {
            lemma_legal_move_shielded(position, mv);
            if double_check(position) {
                lemma_double_check_unanswered(position, mv.to());
            }
        }
    } else {
        lemma_legal_walk_listed(position, mv);
        lemma_legal_move_shielded(position, mv);
        if double_check(position) {
            lemma_double_check_unanswered(position, mv.to());
        }
    }
}

} // verus!
