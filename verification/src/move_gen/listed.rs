//! Which moves the generator lists, said move by move and without regard
//! to their order.

use crate::base_structures::chess_move::Move;
use crate::base_structures::move_flags::MoveFlag;
use crate::geometry::on_board;
use crate::position::Position;
use super::king_moves::{
    castle_move, castle_moves, in_check, king_moves, king_target, king_targets, may_castle,
};
use super::legal_moves;
use super::listing::{
    flagged, landing_flag, lemma_gather_contains, promotion_flags, step_each, step_moves, target_each,
    target_moves,
};
use super::masks::{double_check, own_king};
use super::other_moves;
use super::pawn_moves::{
    capture_step, capturers, double_push_rank, double_pushers, en_passant_each, en_passant_moves,
    en_passant_safe, en_passant_sources, forward, pawn_captures, pawn_moves_onto, pawn_pushes, pawns_off,
    promotion_pushers, promotion_rank, rank_set, single_pushers,
};
use super::piece_moves::{
    capture_targets, pin_set, push_targets, walk_each, walk_moves, walk_target, walk_targets, walker,
    walkers, Walk,
};
use vstd::prelude::*;

verus! {

/// The move is what its origin, destination and flag pack to.
pub open spec fn exact(mv: Move) -> bool {
    mv == Move::at(mv.from(), mv.to(), mv.flag())
}

/// The move is a step of the king that the generator lists.
pub open spec fn king_listed(position: Position, capture_only: bool, mv: Move) -> bool {
    &&& exact(mv)
    &&& mv.from() == own_king(position)
    &&& king_target(position, capture_only, mv.to())
    &&& mv.flag() == landing_flag(position.side_occupancy(!position.white_to_move), mv.to())
}

/// The move is a castling move that the generator lists.
pub open spec fn castle_listed(position: Position, capture_only: bool, mv: Move) -> bool {
    &&& !capture_only
    &&& !in_check(position)
    &&& (may_castle(position, true) && mv == castle_move(position, true) || may_castle(position, false) && mv
        == castle_move(position, false))
}

/// The move is a move of a knight, bishop, rook or queen in the given way
/// that the generator lists.
pub open spec fn walk_listed(position: Position, walk: Walk, capture_only: bool, mv: Move) -> bool {
    &&& exact(mv)
    &&& walker(position, walk, mv.from())
    &&& walk_target(position, walk, capture_only, mv.from(), mv.to())
    &&& mv.flag() == landing_flag(position.side_occupancy(!position.white_to_move), mv.to())
}

/// The move is a pawn capture to the given side that the generator lists.
pub open spec fn pawn_capture_listed(position: Position, left: bool, mv: Move) -> bool {
    let white = position.white_to_move;
    let promoting = mv.flag().spec_promotion().is_some();
    &&& mv.flag().spec_is_capture() && !(mv.flag() is EnPassant)
    &&& mv.to() == mv.from() + capture_step(white, left)
    &&& capturers(
        white,
        left,
        promoting,
        pawns_off(position, pin_set(position, false)),
        capture_targets(position),
        pin_set(position, true),
        rank_set(promotion_rank(white)),
    ).contains(mv.from())
}

/// The move is an en-passant capture that the generator lists.
pub open spec fn en_passant_listed(position: Position, mv: Move) -> bool {
    &&& mv.flag() is EnPassant
    &&& position.en_passant.is_valid()
    &&& mv.to() == position.en_passant.index()
    &&& en_passant_sources(position, pawns_off(position, pin_set(position, false))).contains(mv.from())
    &&& en_passant_safe(position, mv.from())
}

/// The move is a pawn push that the generator lists.
pub open spec fn pawn_push_listed(position: Position, capture_only: bool, mv: Move) -> bool {
    let white = position.white_to_move;
    let pawns = pawns_off(position, pin_set(position, true));
    let push_map = push_targets(position, capture_only);
    let pins = pin_set(position, false);
    let last = rank_set(promotion_rank(white));
    &&& !capture_only
    &&& if mv.flag() is DoublePush {
        &&& mv.to() == mv.from() + 2 * forward(white)
        &&& double_pushers(white, pawns, push_map, pins, rank_set(double_push_rank(white)), position.occupancy()).contains(
            mv.from(),
        )
    } else if mv.flag() is QuietMove {
        &&& mv.to() == mv.from() + forward(white)
        &&& single_pushers(white, pawns, push_map, pins, last).contains(mv.from())
    } else {
        &&& mv.flag().spec_promotion().is_some()
        &&& !mv.flag().spec_is_capture()
        &&& mv.to() == mv.from() + forward(white)
        &&& promotion_pushers(white, pawns, push_map, pins, last).contains(mv.from())
    }
}

/// The move is a pawn move that the generator lists.
pub open spec fn pawn_listed(position: Position, capture_only: bool, mv: Move) -> bool {
    &&& exact(mv)
    &&& on_board(mv.from())
    &&& (pawn_capture_listed(position, true, mv) || pawn_capture_listed(position, false, mv)
        || en_passant_listed(position, mv) || pawn_push_listed(position, capture_only, mv))
}

/// The move is one that the generator lists for the position.
pub open spec fn listed(position: Position, capture_only: bool, mv: Move) -> bool {
    ||| king_listed(position, capture_only, mv)
    ||| !double_check(position) && (castle_listed(position, capture_only, mv) || pawn_listed(
        position,
        capture_only,
        mv,
    ) || walk_listed(position, Walk::Leap, capture_only, mv) || walk_listed(
        position,
        Walk::Diagonal,
        capture_only,
        mv,
    ) || walk_listed(position, Walk::Straight, capture_only, mv))
}

/// A move is in the concatenation of two lists exactly when it is in one of
/// them.
pub proof fn lemma_concat_contains(a: Seq<Move>, b: Seq<Move>, mv: Move)
    ensures
        (a + b).contains(mv) <==> a.contains(mv) || b.contains(mv),
{
    if (a + b).contains(mv) {
        let i = choose|i: int| 0 <= i < (a + b).len() && (a + b)[i] == mv;
        if i < a.len() {
            assert(a[i] == mv);
        } else {
            assert(b[i - a.len()] == mv);
        }
    }
    if a.contains(mv) {
        let i = choose|i: int| 0 <= i < a.len() && a[i] == mv;
        assert((a + b)[i] == mv);
    }
    if b.contains(mv) {
        let i = choose|i: int| 0 <= i < b.len() && b[i] == mv;
        assert((a + b)[i + a.len()] == mv);
    }
}

/// A listed step comes from a member of the sources and carries one of the
/// flags.
pub proof fn lemma_step_member(sources: Set<int>, delta: int, flags: Seq<MoveFlag>, mv: Move) -> (si: (
    int,
    int,
))
    requires
        step_moves(sources, delta, flags).contains(mv),
    ensures
        0 <= si.0 < 64,
        sources.contains(si.0),
        0 <= si.1 < flags.len(),
        mv == Move::at(si.0, si.0 + delta, flags[si.1]),
{
    let each = step_each(delta, flags);
    lemma_gather_contains(sources, each, 0, mv);
    let s = choose|s: int| 0 <= s < 64 && sources.contains(s) && #[trigger] each(s).contains(mv);
    let here = flagged(s, s + delta, flags);
    let i = choose|i: int| 0 <= i < here.len() && here[i] == mv;
    (s, i)
}

/// A listed move to a target goes to a member of the targets.
pub proof fn lemma_target_member(from: int, targets: Set<int>, captures: Set<int>, mv: Move) -> (t: int)
    requires
        target_moves(from, targets, captures).contains(mv),
    ensures
        0 <= t < 64,
        targets.contains(t),
        mv == Move::at(from, t, landing_flag(captures, t)),
{
    let each = target_each(from, captures);
    lemma_gather_contains(targets, each, 0, mv);
    let t = choose|t: int| 0 <= t < 64 && targets.contains(t) && #[trigger] each(t).contains(mv);
    let here = each(t);
    let i = choose|i: int| 0 <= i < here.len() && here[i] == mv;
    assert(here[0] == mv);
    t
}

pub proof fn lemma_king_member(position: Position, capture_only: bool, mv: Move)
    requires
        position.valid(),
        king_moves(position, capture_only).contains(mv),
    ensures
        king_listed(position, capture_only, mv),
{
    let king = own_king(position);
    let enemy = position.side_occupancy(!position.white_to_move);
    assert(position.one_king(position.white_to_move));
    let t = lemma_target_member(king, king_targets(position, capture_only), enemy, mv);
    Move::lemma_at(king, t, landing_flag(enemy, t));
}

pub proof fn lemma_castle_member(position: Position, capture_only: bool, mv: Move)
    requires
        castle_moves(position, capture_only).contains(mv),
    ensures
        castle_listed(position, capture_only, mv),
{
    let a = if may_castle(position, true) {
        seq![castle_move(position, true)]
    } else {
        Seq::empty()
    };
    let b = if may_castle(position, false) {
        seq![castle_move(position, false)]
    } else {
        Seq::empty()
    };
    if !capture_only && !in_check(position) {
        lemma_concat_contains(a, b, mv);
        if a.contains(mv) {
            let i = choose|i: int| 0 <= i < a.len() && a[i] == mv;
            assert(a[0] == mv);
        }
        if b.contains(mv) {
            let i = choose|i: int| 0 <= i < b.len() && b[i] == mv;
            assert(b[0] == mv);
        }
    } else {
        assert(castle_moves(position, capture_only) =~= Seq::<Move>::empty());
    }
}

pub proof fn lemma_walk_member(position: Position, walk: Walk, capture_only: bool, mv: Move)
    requires
        walk_moves(position, walk, capture_only).contains(mv),
    ensures
        walk_listed(position, walk, capture_only, mv),
{
    let each = walk_each(position, walk, capture_only);
    let enemy = position.side_occupancy(!position.white_to_move);
    lemma_gather_contains(walkers(position, walk), each, 0, mv);
    let from = choose|s: int|
        0 <= s < 64 && walkers(position, walk).contains(s) && #[trigger] each(s).contains(mv);
    let t = lemma_target_member(from, walk_targets(position, walk, capture_only, from), enemy, mv);
    Move::lemma_at(from, t, landing_flag(enemy, t));
}

pub proof fn lemma_pawn_capture_member(position: Position, left: bool, promoting: bool, mv: Move)
    requires
        step_moves(
            capturers(
                position.white_to_move,
                left,
                promoting,
                pawns_off(position, pin_set(position, false)),
                capture_targets(position),
                pin_set(position, true),
                rank_set(promotion_rank(position.white_to_move)),
            ),
            capture_step(position.white_to_move, left),
            if promoting {
                promotion_flags(true)
            } else {
                seq![MoveFlag::Capture]
            },
        ).contains(mv),
    ensures
        exact(mv),
        on_board(mv.from()),
        pawn_capture_listed(position, left, mv),
        mv.flag().spec_promotion().is_some() == promoting,
{
    let white = position.white_to_move;
    let flags = if promoting {
        promotion_flags(true)
    } else {
        seq![MoveFlag::Capture]
    };
    let (s, i) = lemma_step_member(
        capturers(
            white,
            left,
            promoting,
            pawns_off(position, pin_set(position, false)),
            capture_targets(position),
            pin_set(position, true),
            rank_set(promotion_rank(white)),
        ),
        capture_step(white, left),
        flags,
        mv,
    );
    Move::lemma_at(s, s + capture_step(white, left), flags[i]);
}

pub proof fn lemma_pawn_captures_member(position: Position, mv: Move)
    requires
        pawn_captures(
            position.white_to_move,
            pawns_off(position, pin_set(position, false)),
            capture_targets(position),
            pin_set(position, true),
            rank_set(promotion_rank(position.white_to_move)),
        ).contains(mv),
    ensures
        exact(mv),
        on_board(mv.from()),
        pawn_capture_listed(position, true, mv) || pawn_capture_listed(position, false, mv),
{
    let white = position.white_to_move;
    let pawns = pawns_off(position, pin_set(position, false));
    let targets = capture_targets(position);
    let pins = pin_set(position, true);
    let last = rank_set(promotion_rank(white));
    let a = step_moves(
        capturers(white, true, false, pawns, targets, pins, last),
        capture_step(white, true),
        seq![MoveFlag::Capture],
    );
    let b = step_moves(
        capturers(white, false, false, pawns, targets, pins, last),
        capture_step(white, false),
        seq![MoveFlag::Capture],
    );
    let c = step_moves(
        capturers(white, true, true, pawns, targets, pins, last),
        capture_step(white, true),
        promotion_flags(true),
    );
    let d = step_moves(
        capturers(white, false, true, pawns, targets, pins, last),
        capture_step(white, false),
        promotion_flags(true),
    );
    lemma_concat_contains(a + b + c, d, mv);
    lemma_concat_contains(a + b, c, mv);
    lemma_concat_contains(a, b, mv);
    if a.contains(mv) {
        lemma_pawn_capture_member(position, true, false, mv);
    } else if b.contains(mv) {
        lemma_pawn_capture_member(position, false, false, mv);
    } else if c.contains(mv) {
        lemma_pawn_capture_member(position, true, true, mv);
    } else {
        lemma_pawn_capture_member(position, false, true, mv);
    }
}

pub proof fn lemma_en_passant_member(position: Position, mv: Move)
    requires
        position.en_passant.is_valid(),
        en_passant_moves(position, pawns_off(position, pin_set(position, false))).contains(mv),
    ensures
        exact(mv),
        on_board(mv.from()),
        en_passant_listed(position, mv),
{
    let sources = en_passant_sources(position, pawns_off(position, pin_set(position, false)));
    let each = en_passant_each(position);
    lemma_gather_contains(sources, each, 0, mv);
    let s = choose|s: int| 0 <= s < 64 && sources.contains(s) && #[trigger] each(s).contains(mv);
    let here = each(s);
    let i = choose|i: int| 0 <= i < here.len() && here[i] == mv;
    assert(here[0] == mv);
    Move::lemma_at(s, position.en_passant.index(), MoveFlag::EnPassant);
}

pub proof fn lemma_pawn_pushes_member(position: Position, mv: Move)
    requires
        pawn_pushes(
            position.white_to_move,
            pawns_off(position, pin_set(position, true)),
            push_targets(position, false),
            pin_set(position, false),
            rank_set(promotion_rank(position.white_to_move)),
            rank_set(double_push_rank(position.white_to_move)),
            position.occupancy(),
        ).contains(mv),
    ensures
        exact(mv),
        on_board(mv.from()),
        pawn_push_listed(position, false, mv),
{
    let white = position.white_to_move;
    let pawns = pawns_off(position, pin_set(position, true));
    let push_map = push_targets(position, false);
    let pins = pin_set(position, false);
    let last = rank_set(promotion_rank(white));
    let first = rank_set(double_push_rank(white));
    let a = step_moves(single_pushers(white, pawns, push_map, pins, last), forward(white), seq![MoveFlag::QuietMove]);
    let b = step_moves(
        double_pushers(white, pawns, push_map, pins, first, position.occupancy()),
        2 * forward(white),
        seq![MoveFlag::DoublePush],
    );
    let c = step_moves(promotion_pushers(white, pawns, push_map, pins, last), forward(white), promotion_flags(false));
    lemma_concat_contains(a + b, c, mv);
    lemma_concat_contains(a, b, mv);
    if a.contains(mv) {
        let (s, i) = lemma_step_member(
            single_pushers(white, pawns, push_map, pins, last),
            forward(white),
            seq![MoveFlag::QuietMove],
            mv,
        );
        Move::lemma_at(s, s + forward(white), MoveFlag::QuietMove);
    } else if b.contains(mv) {
        let (s, i) = lemma_step_member(
            double_pushers(white, pawns, push_map, pins, first, position.occupancy()),
            2 * forward(white),
            seq![MoveFlag::DoublePush],
            mv,
        );
        Move::lemma_at(s, s + 2 * forward(white), MoveFlag::DoublePush);
    } else {
        let (s, i) = lemma_step_member(
            promotion_pushers(white, pawns, push_map, pins, last),
            forward(white),
            promotion_flags(false),
            mv,
        );
        Move::lemma_at(s, s + forward(white), promotion_flags(false)[i]);
    }
}

pub proof fn lemma_pawn_member(position: Position, capture_only: bool, mv: Move)
    requires
        pawn_moves_onto(
            position,
            capture_only,
            push_targets(position, capture_only),
            capture_targets(position),
            pin_set(position, true),
            pin_set(position, false),
        ).contains(mv),
    ensures
        pawn_listed(position, capture_only, mv),
{
    let white = position.white_to_move;
    let a = pawn_captures(
        white,
        pawns_off(position, pin_set(position, false)),
        capture_targets(position),
        pin_set(position, true),
        rank_set(promotion_rank(white)),
    );
    let b = if position.en_passant.is_valid() {
        en_passant_moves(position, pawns_off(position, pin_set(position, false)))
    } else {
        Seq::empty()
    };
    let c = if capture_only {
        Seq::empty()
    } else {
        pawn_pushes(
            white,
            pawns_off(position, pin_set(position, true)),
            push_targets(position, capture_only),
            pin_set(position, false),
            rank_set(promotion_rank(white)),
            rank_set(double_push_rank(white)),
            position.occupancy(),
        )
    };
    lemma_concat_contains(a + b, c, mv);
    lemma_concat_contains(a, b, mv);
    if a.contains(mv) {
        lemma_pawn_captures_member(position, mv);
    } else if b.contains(mv) {
        lemma_en_passant_member(position, mv);
    } else {
        lemma_pawn_pushes_member(position, mv);
    }
}

/// Every move of the generator's list is a listed move.
pub proof fn lemma_member_listed(position: Position, capture_only: bool, mv: Move)
    requires
        position.valid(),
        legal_moves(position, capture_only).contains(mv),
    ensures
        listed(position, capture_only, mv),
{
    let king = king_moves(position, capture_only);
    let rest = if double_check(position) {
        Seq::empty()
    } else {
        other_moves(position, capture_only)
    };
    lemma_concat_contains(king, rest, mv);
    if king.contains(mv) {
        lemma_king_member(position, capture_only, mv);
    } else {
        let a = castle_moves(position, capture_only);
        let b = pawn_moves_onto(
            position,
            capture_only,
            push_targets(position, capture_only),
            capture_targets(position),
            pin_set(position, true),
            pin_set(position, false),
        );
        let c = walk_moves(position, Walk::Leap, capture_only);
        let d = walk_moves(position, Walk::Diagonal, capture_only);
        let e = walk_moves(position, Walk::Straight, capture_only);
        lemma_concat_contains(a + b + c + d, e, mv);
        lemma_concat_contains(a + b + c, d, mv);
        lemma_concat_contains(a + b, c, mv);
        lemma_concat_contains(a, b, mv);
        if a.contains(mv) {
            lemma_castle_member(position, capture_only, mv);
        } else if b.contains(mv) {
            lemma_pawn_member(position, capture_only, mv);
        } else if c.contains(mv) {
            lemma_walk_member(position, Walk::Leap, capture_only, mv);
        } else if d.contains(mv) {
            lemma_walk_member(position, Walk::Diagonal, capture_only, mv);
        } else {
            lemma_walk_member(position, Walk::Straight, capture_only, mv);
        }
    }
}

} // verus!
