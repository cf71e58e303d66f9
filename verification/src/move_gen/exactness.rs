//! The generator lists the legal moves and nothing else.

use crate::base_structures::chess_move::Move;
use crate::base_structures::move_flags::MoveFlag;
use crate::base_structures::piece::Piece;
use crate::position::{king_home, Position};
use crate::rules::{legal, pseudo_legal};
use super::complete::lemma_legal_listed;
use super::king_moves::{castle_move, castle_moves, king_moves, king_targets, may_castle};
use super::laws::lemma_listed_safe;
use super::legal_moves;
use super::listed::{
    castle_listed, en_passant_listed, king_listed, lemma_concat_contains, lemma_member_listed, listed,
    pawn_capture_listed, pawn_listed, walk_listed,
};
use super::listing::{
    landing_flag, lemma_gather_contains, promotion_flags, step_each, step_moves, target_each, target_moves,
};
use super::masks::{checker, double_check, own_king};
use super::other_moves;
use super::pawn_moves::{
    capture_step, capturers, double_push_rank, double_pushers, en_passant_each, en_passant_move,
    en_passant_moves, en_passant_sources, forward, pawn_moves_onto, pawns_off, promotion_pushers,
    promotion_rank, rank_set, single_pushers,
};
use super::piece_moves::{
    capture_targets, pin_set, push_targets, walk_each, walk_moves, walk_targets, walkers, Walk,
};
use vstd::prelude::*;

verus! {

/// Every listed move obeys the way its man moves.
pub proof fn lemma_listed_pseudo_legal(position: Position, capture_only: bool, mv: Move)
    requires
        position.valid(),
        listed(position, capture_only, mv),
    ensures
        pseudo_legal(position, mv),
{
    let white = position.white_to_move;
    let home = king_home(white);
    assert(position.one_king(white));
    assert(position.holds(own_king(position), white, Piece::King));
    if king_listed(position, capture_only, mv) {
    } else if castle_listed(position, capture_only, mv) {
        Move::lemma_at(home, home + 2, MoveFlag::KingSideCastle);
        Move::lemma_at(home, home - 2, MoveFlag::QueenSideCastle);
        assert(position.castle_right_sound(white, true));
        assert(position.castle_right_sound(white, false));
        let other = !white;
        let occupied = position.occupancy();
        if position.attacked(other, home) {
            let s = choose|s: int| position.attacks_from(s, other, home, occupied);
            assert(checker(position, s));
        }
    } else if pawn_listed(position, capture_only, mv) {
        assert(position.holds(mv.from(), white, Piece::Pawn));
    } else {
    }
}

/// A step from a member of the sources with one of the flags is listed.
pub proof fn lemma_step_listed(sources: Set<int>, delta: int, flags: Seq<MoveFlag>, s: int, i: int)
    requires
        0 <= s < 64,
        sources.contains(s),
        0 <= i < flags.len(),
    ensures
        step_moves(sources, delta, flags).contains(Move::at(s, s + delta, flags[i])),
{
    let each = step_each(delta, flags);
    let mv = Move::at(s, s + delta, flags[i]);
    lemma_gather_contains(sources, each, 0, mv);
    assert(each(s)[i] == mv);
    assert(each(s).contains(mv));
}

/// A move to a member of the targets is listed.
pub proof fn lemma_target_listed(from: int, targets: Set<int>, captures: Set<int>, t: int)
    requires
        0 <= t < 64,
        targets.contains(t),
    ensures
        target_moves(from, targets, captures).contains(Move::at(from, t, landing_flag(captures, t))),
{
    let each = target_each(from, captures);
    let mv = Move::at(from, t, landing_flag(captures, t));
    lemma_gather_contains(targets, each, 0, mv);
    assert(each(t)[0] == mv);
    assert(each(t).contains(mv));
}

/// A flag of a promotion is one of the four that are listed.
pub proof fn lemma_promotion_flag_listed(flag: MoveFlag) -> (i: int)
    requires
        flag.spec_promotion().is_some(),
    ensures
        0 <= i < 4,
        promotion_flags(flag.spec_is_capture())[i] == flag,
        promotion_flags(flag.spec_is_capture()).len() == 4,
{
    match flag.spec_promotion() {
        Some(Piece::Knight) => 0,
        Some(Piece::Bishop) => 1,
        Some(Piece::Rook) => 2,
        _ => 3,
    }
}

pub proof fn lemma_king_listed_member(position: Position, capture_only: bool, mv: Move)
    requires
        king_listed(position, capture_only, mv),
    ensures
        king_moves(position, capture_only).contains(mv),
{
    lemma_target_listed(
        own_king(position),
        king_targets(position, capture_only),
        position.side_occupancy(!position.white_to_move),
        mv.to(),
    );
}

pub proof fn lemma_castle_listed_member(position: Position, capture_only: bool, mv: Move)
    requires
        castle_listed(position, capture_only, mv),
    ensures
        castle_moves(position, capture_only).contains(mv),
{
    let a = if may_castle(position, true) {
        seq![castle_move(position, true)]
    } else {
        Seq::empty()
    };
    let b = if may_castle(position, false) {
        seq![castle_move(position, false)]
    } else {
        Seq::empty()
    };
    lemma_concat_contains(a, b, mv);
    if may_castle(position, true) && mv == castle_move(position, true) {
        assert(a[0] == mv);
    } else {
        assert(b[0] == mv);
    }
}

pub proof fn lemma_walk_listed_member(position: Position, walk: Walk, capture_only: bool, mv: Move)
    requires
        walk_listed(position, walk, capture_only, mv),
    ensures
        walk_moves(position, walk, capture_only).contains(mv),
{
    let each = walk_each(position, walk, capture_only);
    let from = mv.from();
    lemma_target_listed(
        from,
        walk_targets(position, walk, capture_only, from),
        position.side_occupancy(!position.white_to_move),
        mv.to(),
    );
    lemma_gather_contains(walkers(position, walk), each, 0, mv);
    assert(each(from).contains(mv));
}

pub proof fn lemma_pawn_listed_member(position: Position, capture_only: bool, mv: Move)
    requires
        pawn_listed(position, capture_only, mv),
    ensures
        pawn_moves_onto(
            position,
            capture_only,
            push_targets(position, capture_only),
            capture_targets(position),
            pin_set(position, true),
            pin_set(position, false),
        ).contains(mv),
{
    let white = position.white_to_move;
    let from = mv.from();
    let attackers = pawns_off(position, pin_set(position, false));
    let pushers = pawns_off(position, pin_set(position, true));
    let targets = capture_targets(position);
    let push_map = push_targets(position, capture_only);
    let diagonal = pin_set(position, true);
    let straight = pin_set(position, false);
    let last = rank_set(promotion_rank(white));
    let first = rank_set(double_push_rank(white));
    let a1 = step_moves(
        capturers(white, true, false, attackers, targets, diagonal, last),
        capture_step(white, true),
        seq![MoveFlag::Capture],
    );
    let a2 = step_moves(
        capturers(white, false, false, attackers, targets, diagonal, last),
        capture_step(white, false),
        seq![MoveFlag::Capture],
    );
    let a3 = step_moves(
        capturers(white, true, true, attackers, targets, diagonal, last),
        capture_step(white, true),
        promotion_flags(true),
    );
    let a4 = step_moves(
        capturers(white, false, true, attackers, targets, diagonal, last),
        capture_step(white, false),
        promotion_flags(true),
    );
    let a = a1 + a2 + a3 + a4;
    let b = if position.en_passant.is_valid() {
        en_passant_moves(position, attackers)
    } else {
        Seq::empty()
    };
    let c1 = step_moves(
        single_pushers(white, pushers, push_map, straight, last),
        forward(white),
        seq![MoveFlag::QuietMove],
    );
    let c2 = step_moves(
        double_pushers(white, pushers, push_map, straight, first, position.occupancy()),
        2 * forward(white),
        seq![MoveFlag::DoublePush],
    );
    let c3 = step_moves(
        promotion_pushers(white, pushers, push_map, straight, last),
        forward(white),
        promotion_flags(false),
    );
    let c = if capture_only {
        Seq::empty()
    } else {
        c1 + c2 + c3
    };
    lemma_concat_contains(a + b, c, mv);
    lemma_concat_contains(a, b, mv);
    lemma_concat_contains(a1 + a2 + a3, a4, mv);
    lemma_concat_contains(a1 + a2, a3, mv);
    lemma_concat_contains(a1, a2, mv);
    lemma_concat_contains(c1 + c2, c3, mv);
    lemma_concat_contains(c1, c2, mv);
    if en_passant_listed(position, mv) {
        let each = en_passant_each(position);
        lemma_gather_contains(en_passant_sources(position, attackers), each, 0, mv);
        assert(mv == en_passant_move(position, from));
        assert(each(from)[0] == mv);
        assert(each(from).contains(mv));
    } else if pawn_capture_listed(position, true, mv) || pawn_capture_listed(position, false, mv) {
        let left = pawn_capture_listed(position, true, mv);
        if mv.flag().spec_promotion().is_some() {
            let i = lemma_promotion_flag_listed(mv.flag());
            lemma_step_listed(
                capturers(white, left, true, attackers, targets, diagonal, last),
                capture_step(white, left),
                promotion_flags(true),
                from,
                i,
            );
        } else {
            lemma_step_listed(
                capturers(white, left, false, attackers, targets, diagonal, last),
                capture_step(white, left),
                seq![MoveFlag::Capture],
                from,
                0,
            );
        }
    } else {
        if mv.flag() is DoublePush {
            lemma_step_listed(
                double_pushers(white, pushers, push_map, straight, first, position.occupancy()),
                2 * forward(white),
                seq![MoveFlag::DoublePush],
                from,
                0,
            );
        } else if mv.flag() is QuietMove {
            lemma_step_listed(
                single_pushers(white, pushers, push_map, straight, last),
                forward(white),
                seq![MoveFlag::QuietMove],
                from,
                0,
            );
        } else {
            let i = lemma_promotion_flag_listed(mv.flag());
            lemma_step_listed(
                promotion_pushers(white, pushers, push_map, straight, last),
                forward(white),
                promotion_flags(false),
                from,
                i,
            );
        }
    }
}

/// Every listed move is in the generator's list.
pub proof fn lemma_listed_member(position: Position, capture_only: bool, mv: Move)
    requires
        listed(position, capture_only, mv),
    ensures
        legal_moves(position, capture_only).contains(mv),
{
    let king = king_moves(position, capture_only);
    let rest = if double_check(position) {
        Seq::empty()
    } else {
        other_moves(position, capture_only)
    };
    lemma_concat_contains(king, rest, mv);
    if king_listed(position, capture_only, mv) {
        lemma_king_listed_member(position, capture_only, mv);
    } else {
        let a = castle_moves(position, capture_only);
        let b = pawn_moves_onto(
            position,
            capture_only,
            push_targets(position, capture_only),
            capture_targets(position),
            pin_set(position, true),
            pin_set(position, false),
        );
        let c = walk_moves(position, Walk::Leap, capture_only);
        let d = walk_moves(position, Walk::Diagonal, capture_only);
        let e = walk_moves(position, Walk::Straight, capture_only);
        lemma_concat_contains(a + b + c + d, e, mv);
        lemma_concat_contains(a + b + c, d, mv);
        lemma_concat_contains(a + b, c, mv);
        lemma_concat_contains(a, b, mv);
        if castle_listed(position, capture_only, mv) {
            lemma_castle_listed_member(position, capture_only, mv);
        } else if pawn_listed(position, capture_only, mv) {
            lemma_pawn_listed_member(position, capture_only, mv);
        } else if walk_listed(position, Walk::Leap, capture_only, mv) {
            lemma_walk_listed_member(position, Walk::Leap, capture_only, mv);
        } else if walk_listed(position, Walk::Diagonal, capture_only, mv) {
            lemma_walk_listed_member(position, Walk::Diagonal, capture_only, mv);
        } else {
            lemma_walk_listed_member(position, Walk::Straight, capture_only, mv);
        }
    }
}

/// Where only captures are asked for, the listed moves are the capturing
/// ones among all listed moves.
pub proof fn lemma_capture_only_listed(position: Position, mv: Move)
    requires
        position.valid(),
    ensures
        listed(position, true, mv) <==> listed(position, false, mv) && mv.flag().spec_is_capture(),
{
    let white = position.white_to_move;
    let home = king_home(white);
    Move::lemma_at(home, home + 2, MoveFlag::KingSideCastle);
    Move::lemma_at(home, home - 2, MoveFlag::QueenSideCastle);
}

/// The generator lists exactly the legal moves: a move is in the list of a
/// position if and only if it obeys the way its man moves and leaves the
/// king of the side that makes it unattacked.
pub proof fn lemma_generated_exactly_legal(position: Position, mv: Move)
    requires
        position.valid(),
    ensures
        legal_moves(position, false).contains(mv) <==> legal(position, mv),
{
    if legal_moves(position, false).contains(mv) {
        lemma_member_listed(position, false, mv);
        lemma_listed_pseudo_legal(position, false, mv);
        lemma_listed_safe(position, false, mv);
    }
    if legal(position, mv) {
        lemma_legal_listed(position, mv);
        lemma_listed_member(position, false, mv);
    }
}

/// Where only captures are asked for, the generator lists exactly the
/// legal moves that capture.
pub proof fn lemma_generated_captures_exactly_legal(position: Position, mv: Move)
    requires
        position.valid(),
    ensures
        legal_moves(position, true).contains(mv) <==> legal(position, mv) && mv.flag().spec_is_capture(),
{
    lemma_capture_only_listed(position, mv);
    if legal_moves(position, true).contains(mv) {
        lemma_member_listed(position, true, mv);
        lemma_listed_pseudo_legal(position, true, mv);
        lemma_listed_safe(position, true, mv);
    }
    if legal(position, mv) && mv.flag().spec_is_capture() {
        lemma_legal_listed(position, mv);
        lemma_listed_member(position, true, mv);
    }
}

} // verus!
