//! The generator lists no move twice.

use crate::base_structures::chess_move::Move;
use crate::base_structures::move_flags::MoveFlag;
use crate::base_structures::piece::Piece;
use crate::geometry::on_board;
use crate::position::{king_home, Position};
use super::king_moves::{castle_move, castle_moves, in_check, king_moves, king_targets, may_castle};
use super::legal_moves;
use super::listed::{
    lemma_castle_member, lemma_concat_contains, lemma_en_passant_member, lemma_king_member,
    lemma_pawn_capture_member, lemma_pawn_member, lemma_step_member, lemma_target_member,
    lemma_walk_member,
};
use super::listing::{
    gather, landing_flag, lemma_gather_contains, promotion_flags, step_each, step_moves, target_each,
    target_moves,
};
use super::masks::{double_check, own_king};
use super::other_moves;
use super::pawn_moves::{
    capture_step, capturers, double_push_rank, double_pushers, en_passant_each, en_passant_moves,
    en_passant_sources, forward, pawn_moves_onto, pawns_off, promotion_pushers, promotion_rank, rank_set,
    single_pushers,
};
use super::piece_moves::{
    capture_targets, pin_set, push_targets, walk_each, walk_moves, walk_targets, walkers, Walk,
};
use vstd::prelude::*;

verus! {

/// Two lists without repetition and without a common move join to a list
/// without repetition.
pub proof fn lemma_join_distinct(a: Seq<Move>, b: Seq<Move>)
    requires
        a.no_duplicates(),
        b.no_duplicates(),
        forall|mv: Move| a.contains(mv) ==> !b.contains(mv),
    ensures
        (a + b).no_duplicates(),
{
    assert forall|i: int, j: int| 0 <= i < a.len() && 0 <= j < b.len() implies a[i] != b[j] by {
        assert(a.contains(a[i]));
        assert(b.contains(b[j]));
    }
    vstd::seq_lib::lemma_no_dup_in_concat(a, b);
}

/// The origin of a move.
pub open spec fn origin() -> spec_fn(Move) -> int {
    |mv: Move| mv.from()
}

/// The destination of a move.
pub open spec fn destination() -> spec_fn(Move) -> int {
    |mv: Move| mv.to()
}

/// Where the moves of each member are distinct and tell the member they
/// come from, the gathered list has no repetition.
pub proof fn lemma_gather_distinct(
    sources: Set<int>,
    each: spec_fn(int) -> Seq<Move>,
    key: spec_fn(Move) -> int,
    low: int,
)
    requires
        0 <= low,
        forall|s: int| low <= s < 64 && sources.contains(s) ==> (#[trigger] each(s)).no_duplicates(),
        forall|s: int, mv: Move|
            low <= s < 64 && sources.contains(s) && #[trigger] each(s).contains(mv) ==> key(mv) == s,
    ensures
        gather(sources, each, low).no_duplicates(),
    decreases 64 - low,
{
    if low < 64 {
        lemma_gather_distinct(sources, each, key, low + 1);
        if sources.contains(low) {
            let here = each(low);
            let rest = gather(sources, each, low + 1);
            assert forall|mv: Move| here.contains(mv) implies !rest.contains(mv) by {
                if rest.contains(mv) {
                    lemma_gather_contains(sources, each, low + 1, mv);
                    let t = choose|t: int|
                        low + 1 <= t < 64 && sources.contains(t) && #[trigger] each(t).contains(mv);
                    assert(key(mv) == t);
                    assert(key(mv) == low);
                }
            }
            lemma_join_distinct(here, rest);
        }
    }
}

/// Steps from squares of the board to squares of the board with distinct
/// flags are listed without repetition.
pub proof fn lemma_step_moves_distinct(sources: Set<int>, delta: int, flags: Seq<MoveFlag>)
    requires
        forall|s: int| 0 <= s < 64 && sources.contains(s) ==> on_board(s + delta),
        flags.no_duplicates(),
    ensures
        step_moves(sources, delta, flags).no_duplicates(),
{
    let each = step_each(delta, flags);
    assert forall|s: int| 0 <= s < 64 && sources.contains(s) implies (#[trigger] each(s)).no_duplicates() by {
        let here = each(s);
        assert forall|i: int, j: int| 0 <= i < here.len() && 0 <= j < here.len() && i != j implies here[i]
            != here[j] by {
            Move::lemma_at(s, s + delta, flags[i]);
            Move::lemma_at(s, s + delta, flags[j]);
        }
    }
    assert forall|s: int, mv: Move|
        0 <= s < 64 && sources.contains(s) && #[trigger] each(s).contains(mv) implies origin()(mv) == s by {
        let here = each(s);
        let i = choose|i: int| 0 <= i < here.len() && here[i] == mv;
        Move::lemma_at(s, s + delta, flags[i]);
    }
    lemma_gather_distinct(sources, each, origin(), 0);
}

/// The moves of one man to its targets are listed without repetition.
pub proof fn lemma_target_moves_distinct(from: int, targets: Set<int>, captures: Set<int>)
    requires
        on_board(from),
    ensures
        target_moves(from, targets, captures).no_duplicates(),
{
    let each = target_each(from, captures);
    assert forall|t: int, mv: Move|
        0 <= t < 64 && targets.contains(t) && #[trigger] each(t).contains(mv) implies destination()(mv)
        == t by {
        let here = each(t);
        let i = choose|i: int| 0 <= i < here.len() && here[i] == mv;
        Move::lemma_at(from, t, landing_flag(captures, t));
    }
    lemma_gather_distinct(targets, each, destination(), 0);
}

/// The moves of the men that move in one way are listed without
/// repetition.
pub proof fn lemma_walk_moves_distinct(position: Position, walk: Walk, capture_only: bool)
    ensures
        walk_moves(position, walk, capture_only).no_duplicates(),
{
    let each = walk_each(position, walk, capture_only);
    let enemy = position.side_occupancy(!position.white_to_move);
    assert forall|s: int| 0 <= s < 64 && walkers(position, walk).contains(s) implies (#[trigger] each(
        s,
    )).no_duplicates() by {
        lemma_target_moves_distinct(s, walk_targets(position, walk, capture_only, s), enemy);
    }
    assert forall|s: int, mv: Move|
        0 <= s < 64 && walkers(position, walk).contains(s) && #[trigger] each(s).contains(mv) implies origin()(
            mv,
        ) == s by {
        let t = lemma_target_member(s, walk_targets(position, walk, capture_only, s), enemy, mv);
        Move::lemma_at(s, t, landing_flag(enemy, t));
    }
    lemma_gather_distinct(walkers(position, walk), each, origin(), 0);
}

/// The en-passant captures are listed without repetition.
pub proof fn lemma_en_passant_moves_distinct(position: Position, attack_pawns: Set<int>)
    requires
        position.en_passant.is_valid(),
    ensures
        en_passant_moves(position, attack_pawns).no_duplicates(),
{
    let each = en_passant_each(position);
    let sources = en_passant_sources(position, attack_pawns);
    assert forall|s: int, mv: Move|
        0 <= s < 64 && sources.contains(s) && #[trigger] each(s).contains(mv) implies origin()(mv) == s by {
        let here = each(s);
        let i = choose|i: int| 0 <= i < here.len() && here[i] == mv;
        Move::lemma_at(s, position.en_passant.index(), MoveFlag::EnPassant);
    }
    lemma_gather_distinct(sources, each, origin(), 0);
}

/// The part of the pawn moves that a pawn move of the generator's list
/// belongs to, told from the move alone.
pub open spec fn pawn_part(white: bool, mv: Move) -> int {
    let left = mv.to() == mv.from() + capture_step(white, true);
    if mv.flag() is EnPassant {
        4
    } else if mv.flag().spec_is_capture() {
        if mv.flag().spec_promotion().is_some() {
            if left {
                2
            } else {
                3
            }
        } else {
            if left {
                0
            } else {
                1
            }
        }
    } else if mv.flag() is QuietMove {
        5
    } else if mv.flag() is DoublePush {
        6
    } else {
        7
    }
}

/// The pawn moves are listed without repetition.
pub proof fn lemma_pawn_moves_distinct(position: Position, capture_only: bool)
    requires
        position.valid(),
    ensures
        pawn_moves_onto(
            position,
            capture_only,
            push_targets(position, capture_only),
            capture_targets(position),
            pin_set(position, true),
            pin_set(position, false),
        ).no_duplicates(),
{
    let white = position.white_to_move;
    let attackers = pawns_off(position, pin_set(position, false));
    let pushers = pawns_off(position, pin_set(position, true));
    let targets = capture_targets(position);
    let push_map = push_targets(position, capture_only);
    let diagonal = pin_set(position, true);
    let straight = pin_set(position, false);
    let last = rank_set(promotion_rank(white));
    let first = rank_set(double_push_rank(white));
    let plain = seq![MoveFlag::Capture];
    let a1 = step_moves(
        capturers(white, true, false, attackers, targets, diagonal, last),
        capture_step(white, true),
        plain,
    );
    let a2 = step_moves(
        capturers(white, false, false, attackers, targets, diagonal, last),
        capture_step(white, false),
        plain,
    );
    let a3 = step_moves(
        capturers(white, true, true, attackers, targets, diagonal, last),
        capture_step(white, true),
        promotion_flags(true),
    );
    let a4 = step_moves(
        capturers(white, false, true, attackers, targets, diagonal, last),
        capture_step(white, false),
        promotion_flags(true),
    );
    let b = if position.en_passant.is_valid() {
        en_passant_moves(position, attackers)
    } else {
        Seq::empty()
    };
    let c1 = step_moves(
        single_pushers(white, pushers, push_map, straight, last),
        forward(white),
        seq![MoveFlag::QuietMove],
    );
    let c2 = step_moves(
        double_pushers(white, pushers, push_map, straight, first, position.occupancy()),
        2 * forward(white),
        seq![MoveFlag::DoublePush],
    );
    let c3 = step_moves(
        promotion_pushers(white, pushers, push_map, straight, last),
        forward(white),
        promotion_flags(false),
    );
    let c = if capture_only {
        Seq::empty()
    } else {
        c1 + c2 + c3
    };
    assert(promotion_flags(true).no_duplicates());
    assert(promotion_flags(false).no_duplicates());
    lemma_step_moves_distinct(
        capturers(white, true, false, attackers, targets, diagonal, last),
        capture_step(white, true),
        plain,
    );
    lemma_step_moves_distinct(
        capturers(white, false, false, attackers, targets, diagonal, last),
        capture_step(white, false),
        plain,
    );
    lemma_step_moves_distinct(
        capturers(white, true, true, attackers, targets, diagonal, last),
        capture_step(white, true),
        promotion_flags(true),
    );
    lemma_step_moves_distinct(
        capturers(white, false, true, attackers, targets, diagonal, last),
        capture_step(white, false),
        promotion_flags(true),
    );
    lemma_step_moves_distinct(
        single_pushers(white, pushers, push_map, straight, last),
        forward(white),
        seq![MoveFlag::QuietMove],
    );
    lemma_step_moves_distinct(
        double_pushers(white, pushers, push_map, straight, first, position.occupancy()),
        2 * forward(white),
        seq![MoveFlag::DoublePush],
    );
    lemma_step_moves_distinct(
        promotion_pushers(white, pushers, push_map, straight, last),
        forward(white),
        promotion_flags(false),
    );
    if position.en_passant.is_valid() {
        lemma_en_passant_moves_distinct(position, attackers);
    }
    assert forall|mv: Move| a1.contains(mv) implies pawn_part(white, mv) == 0 by {
        lemma_pawn_capture_member(position, true, false, mv);
    }
    assert forall|mv: Move| a2.contains(mv) implies pawn_part(white, mv) == 1 by {
        lemma_pawn_capture_member(position, false, false, mv);
    }
    assert forall|mv: Move| a3.contains(mv) implies pawn_part(white, mv) == 2 by {
        lemma_pawn_capture_member(position, true, true, mv);
    }
    assert forall|mv: Move| a4.contains(mv) implies pawn_part(white, mv) == 3 by {
        lemma_pawn_capture_member(position, false, true, mv);
    }
    assert forall|mv: Move| b.contains(mv) implies pawn_part(white, mv) == 4 by {
        lemma_en_passant_member(position, mv);
    }
    assert forall|mv: Move| c1.contains(mv) implies pawn_part(white, mv) == 5 by {
        let (s, i) = lemma_step_member(
            single_pushers(white, pushers, push_map, straight, last),
            forward(white),
            seq![MoveFlag::QuietMove],
            mv,
        );
        Move::lemma_at(s, s + forward(white), MoveFlag::QuietMove);
    }
    assert forall|mv: Move| c2.contains(mv) implies pawn_part(white, mv) == 6 by {
        let (s, i) = lemma_step_member(
            double_pushers(white, pushers, push_map, straight, first, position.occupancy()),
            2 * forward(white),
            seq![MoveFlag::DoublePush],
            mv,
        );
        Move::lemma_at(s, s + 2 * forward(white), MoveFlag::DoublePush);
    }
    assert forall|mv: Move| c3.contains(mv) implies pawn_part(white, mv) == 7 by {
        let (s, i) = lemma_step_member(
            promotion_pushers(white, pushers, push_map, straight, last),
            forward(white),
            promotion_flags(false),
            mv,
        );
        Move::lemma_at(s, s + forward(white), promotion_flags(false)[i]);
    }
    assert forall|mv: Move| (a1 + a2).contains(mv) implies pawn_part(white, mv) <= 1 by {
        lemma_concat_contains(a1, a2, mv);
    }
    lemma_join_distinct(a1, a2);
    assert forall|mv: Move| (a1 + a2 + a3).contains(mv) implies pawn_part(white, mv) <= 2 by {
        lemma_concat_contains(a1 + a2, a3, mv);
    }
    lemma_join_distinct(a1 + a2, a3);
    assert forall|mv: Move| (a1 + a2 + a3 + a4).contains(mv) implies pawn_part(white, mv) <= 3 by {
        lemma_concat_contains(a1 + a2 + a3, a4, mv);
    }
    lemma_join_distinct(a1 + a2 + a3, a4);
    let a = a1 + a2 + a3 + a4;
    assert forall|mv: Move| (a + b).contains(mv) implies pawn_part(white, mv) <= 4 by {
        lemma_concat_contains(a, b, mv);
    }
    lemma_join_distinct(a, b);
    assert forall|mv: Move| (c1 + c2).contains(mv) implies 5 <= pawn_part(white, mv) <= 6 by {
        lemma_concat_contains(c1, c2, mv);
    }
    lemma_join_distinct(c1, c2);
    assert forall|mv: Move| (c1 + c2 + c3).contains(mv) implies 5 <= pawn_part(white, mv) by {
        lemma_concat_contains(c1 + c2, c3, mv);
    }
    lemma_join_distinct(c1 + c2, c3);
    lemma_join_distinct(a + b, c);
}

/// The part of the generator's list that a move of the list belongs to,
/// told from the move and the position.
pub open spec fn part(position: Position, mv: Move) -> int {
    match position.squares[mv.from()].unwrap().piece {
        Piece::King => if mv.flag().spec_is_castle() {
            1
        } else {
            0
        },
        Piece::Pawn => 2,
        Piece::Knight => 3,
        _ => if crate::geometry::same_diagonal(mv.from(), mv.to()) {
            4
        } else {
            5
        },
    }
}

/// The generator lists no move twice.
pub proof fn lemma_no_move_listed_twice(position: Position, capture_only: bool)
    requires
        position.valid(),
    ensures
        legal_moves(position, capture_only).no_duplicates(),
{
    let white = position.white_to_move;
    let home = king_home(white);
    let king = king_moves(position, capture_only);
    let a = castle_moves(position, capture_only);
    let b = pawn_moves_onto(
        position,
        capture_only,
        push_targets(position, capture_only),
        capture_targets(position),
        pin_set(position, true),
        pin_set(position, false),
    );
    let c = walk_moves(position, Walk::Leap, capture_only);
    let d = walk_moves(position, Walk::Diagonal, capture_only);
    let e = walk_moves(position, Walk::Straight, capture_only);
    assert(position.one_king(white));
    assert(position.holds(own_king(position), white, Piece::King));
    lemma_target_moves_distinct(
        own_king(position),
        king_targets(position, capture_only),
        position.side_occupancy(!white),
    );
    lemma_pawn_moves_distinct(position, capture_only);
    lemma_walk_moves_distinct(position, Walk::Leap, capture_only);
    lemma_walk_moves_distinct(position, Walk::Diagonal, capture_only);
    lemma_walk_moves_distinct(position, Walk::Straight, capture_only);
    Move::lemma_at(home, home + 2, MoveFlag::KingSideCastle);
    Move::lemma_at(home, home - 2, MoveFlag::QueenSideCastle);
    assert(a.no_duplicates()) by {
        if !capture_only && !in_check(position) {
            let x = if may_castle(position, true) {
                seq![castle_move(position, true)]
            } else {
                Seq::empty()
            };
            let y = if may_castle(position, false) {
                seq![castle_move(position, false)]
            } else {
                Seq::empty()
            };
            assert forall|mv: Move| x.contains(mv) implies !y.contains(mv) by {
                if y.contains(mv) {
                    let i = choose|i: int| 0 <= i < x.len() && x[i] == mv;
                    let j = choose|j: int| 0 <= j < y.len() && y[j] == mv;
                    assert(x[0] == mv && y[0] == mv);
                }
            }
            lemma_join_distinct(x, y);
        }
    }
    assert forall|mv: Move| king.contains(mv) implies part(position, mv) == 0 by {
        lemma_king_member(position, capture_only, mv);
    }
    assert forall|mv: Move| a.contains(mv) implies part(position, mv) == 1 by {
        lemma_castle_member(position, capture_only, mv);
        assert(position.castle_right_sound(white, true));
        assert(position.castle_right_sound(white, false));
    }
    assert forall|mv: Move| b.contains(mv) implies part(position, mv) == 2 by {
        lemma_pawn_member(position, capture_only, mv);
    }
    assert forall|mv: Move| c.contains(mv) implies part(position, mv) == 3 by {
        lemma_walk_member(position, Walk::Leap, capture_only, mv);
    }
    assert forall|mv: Move| d.contains(mv) implies part(position, mv) == 4 by {
        lemma_walk_member(position, Walk::Diagonal, capture_only, mv);
    }
    assert forall|mv: Move| e.contains(mv) implies part(position, mv) == 5 by {
        lemma_walk_member(position, Walk::Straight, capture_only, mv);
    }
    assert forall|mv: Move| (a + b).contains(mv) implies 1 <= part(position, mv) <= 2 by {
        lemma_concat_contains(a, b, mv);
    }
    lemma_join_distinct(a, b);
    assert forall|mv: Move| (a + b + c).contains(mv) implies 1 <= part(position, mv) <= 3 by {
        lemma_concat_contains(a + b, c, mv);
    }
    lemma_join_distinct(a + b, c);
    assert forall|mv: Move| (a + b + c + d).contains(mv) implies 1 <= part(position, mv) <= 4 by {
        lemma_concat_contains(a + b + c, d, mv);
    }
    lemma_join_distinct(a + b + c, d);
    assert forall|mv: Move| (a + b + c + d + e).contains(mv) implies 1 <= part(position, mv) by {
        lemma_concat_contains(a + b + c + d, e, mv);
    }
    lemma_join_distinct(a + b + c + d, e);
    let rest = if double_check(position) {
        Seq::empty()
    } else {
        other_moves(position, capture_only)
    };
    lemma_join_distinct(king, rest);
}

} // verus!
