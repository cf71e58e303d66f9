//! What holds of the pawn moves that the generator lists: whatever maps and
//! pin lines it is given, each is a pawn move of the rules; given the maps
//! and pin lines of the position, they are exactly the legal pawn moves.

use crate::base_structures::chess_move::Move;
use crate::base_structures::move_flags::MoveFlag;
use crate::base_structures::piece::Piece;
use crate::geometry::on_board;
use crate::position::{lemma_apply_valid, Position};
use crate::rules::{legal, lemma_pseudo_legal_fits, pseudo_legal};
use super::complete::lemma_legal_pawn_listed;
use super::distinct::lemma_pawn_moves_distinct;
use super::exactness::lemma_pawn_listed_member;
use super::laws::lemma_pawn_safe;
use super::listed::{lemma_concat_contains, lemma_pawn_member, lemma_step_member, pawn_listed};
use super::listing::{gather, lemma_gather_contains, promotion_flags, step_moves};
use super::masks::{answers_check, pin_line};
use super::pawn_moves::{
    capture_step, capturers, double_push_rank, double_pushers, en_passant_each, en_passant_moves,
    en_passant_sources, forward, landing_captures, landing_pushes, pawn_captures, pawn_moves,
    pawn_moves_onto, pawn_pushes, pawns_off, promotion_pushers, promotion_rank, rank_set, single_pushers,
};
use super::piece_moves::{capture_targets, pin_set, push_targets};
use vstd::prelude::*;

verus! {

/// The move is a move of a pawn of the side to move that obeys the way a
/// pawn moves.
pub open spec fn pawn_move_of_the_rules(position: Position, mv: Move) -> bool {
    &&& pseudo_legal(position, mv)
    &&& position.holds(mv.from(), position.white_to_move, Piece::Pawn)
}

/// A listed capture of a pawn obeys the way a pawn moves, whatever the map
/// and the pin lines.
pub proof fn lemma_listed_capture_obeys(
    position: Position,
    left: bool,
    promoting: bool,
    capture_map: Set<int>,
    diagonal_pins: Set<int>,
    orthogonal_pins: Set<int>,
    mv: Move,
)
    requires
        position.valid(),
        step_moves(
            capturers(
                position.white_to_move,
                left,
                promoting,
                pawns_off(position, orthogonal_pins),
                landing_captures(position, capture_map),
                diagonal_pins,
                rank_set(promotion_rank(position.white_to_move)),
            ),
            capture_step(position.white_to_move, left),
            if promoting {
                promotion_flags(true)
            } else {
                seq![MoveFlag::Capture]
            },
        ).contains(mv),
    ensures
        pawn_move_of_the_rules(position, mv),
        mv.flag().spec_is_capture(),
        position.takeable(mv.to()),
{
    let white = position.white_to_move;
    let flags = if promoting {
        promotion_flags(true)
    } else {
        seq![MoveFlag::Capture]
    };
    let (s, i) = lemma_step_member(
        capturers(
            white,
            left,
            promoting,
            pawns_off(position, orthogonal_pins),
            landing_captures(position, capture_map),
            diagonal_pins,
            rank_set(promotion_rank(white)),
        ),
        capture_step(white, left),
        flags,
        mv,
    );
    assert(position.takeable(s + capture_step(white, left)));
    Move::lemma_at(s, s + capture_step(white, left), flags[i]);
}

/// A listed push of a pawn obeys the way a pawn moves, whatever the map and
/// the pin lines.
pub proof fn lemma_listed_push_obeys(
    position: Position,
    push_map: Set<int>,
    diagonal_pins: Set<int>,
    orthogonal_pins: Set<int>,
    mv: Move,
)
    requires
        position.valid(),
        pawn_pushes(
            position.white_to_move,
            pawns_off(position, diagonal_pins),
            landing_pushes(position, push_map),
            orthogonal_pins,
            rank_set(promotion_rank(position.white_to_move)),
            rank_set(double_push_rank(position.white_to_move)),
            position.occupancy(),
        ).contains(mv),
    ensures
        pawn_move_of_the_rules(position, mv),
        !mv.flag().spec_is_capture(),
        position.empty_at(mv.to()),
{
    let white = position.white_to_move;
    let pawns = pawns_off(position, diagonal_pins);
    let landing = landing_pushes(position, push_map);
    let last = rank_set(promotion_rank(white));
    let first = rank_set(double_push_rank(white));
    let a = step_moves(
        single_pushers(white, pawns, landing, orthogonal_pins, last),
        forward(white),
        seq![MoveFlag::QuietMove],
    );
    let b = step_moves(
        double_pushers(white, pawns, landing, orthogonal_pins, first, position.occupancy()),
        2 * forward(white),
        seq![MoveFlag::DoublePush],
    );
    let c = step_moves(
        promotion_pushers(white, pawns, landing, orthogonal_pins, last),
        forward(white),
        promotion_flags(false),
    );
    lemma_concat_contains(a + b, c, mv);
    lemma_concat_contains(a, b, mv);
    if a.contains(mv) {
        let (s, i) = lemma_step_member(
            single_pushers(white, pawns, landing, orthogonal_pins, last),
            forward(white),
            seq![MoveFlag::QuietMove],
            mv,
        );
        assert(position.empty_at(s + forward(white)));
        Move::lemma_at(s, s + forward(white), MoveFlag::QuietMove);
    } else if b.contains(mv) {
        let (s, i) = lemma_step_member(
            double_pushers(white, pawns, landing, orthogonal_pins, first, position.occupancy()),
            2 * forward(white),
            seq![MoveFlag::DoublePush],
            mv,
        );
        assert(position.empty_at(s + 2 * forward(white)));
        assert(position.empty_at(s + forward(white)));
        Move::lemma_at(s, s + 2 * forward(white), MoveFlag::DoublePush);
    } else {
        let (s, i) = lemma_step_member(
            promotion_pushers(white, pawns, landing, orthogonal_pins, last),
            forward(white),
            promotion_flags(false),
            mv,
        );
        assert(position.empty_at(s + forward(white)));
        Move::lemma_at(s, s + forward(white), promotion_flags(false)[i]);
    }
}

/// A listed en-passant capture obeys the way a pawn moves and leaves the
/// king of the side that makes it unattacked, whatever the pin lines.
pub proof fn lemma_listed_en_passant_obeys(position: Position, orthogonal_pins: Set<int>, mv: Move)
    requires
        position.valid(),
        position.en_passant.is_valid(),
        en_passant_moves(position, pawns_off(position, orthogonal_pins)).contains(mv),
    ensures
        pawn_move_of_the_rules(position, mv),
        mv.flag() is EnPassant,
        legal(position, mv),
{
    let sources = en_passant_sources(position, pawns_off(position, orthogonal_pins));
    let each = en_passant_each(position);
    lemma_gather_contains(sources, each, 0, mv);
    let s = choose|s: int| 0 <= s < 64 && sources.contains(s) && #[trigger] each(s).contains(mv);
    let here = each(s);
    let i = choose|i: int| 0 <= i < here.len() && here[i] == mv;
    assert(here[0] == mv);
    Move::lemma_at(s, position.en_passant.index(), MoveFlag::EnPassant);
}

/// Whatever maps and pin lines the pawn moves are listed under, every
/// listed move is a move of a pawn of the side to move that obeys the way a
/// pawn moves: a push lands on an empty square, a capture takes a man of
/// the other side that is not its king. So each listed move can be made,
/// and the position after it has sound invariants.
pub proof fn lemma_pawn_moves_obey_rules(
    position: Position,
    capture_only: bool,
    push_map: Set<int>,
    capture_map: Set<int>,
    diagonal_pins: Set<int>,
    orthogonal_pins: Set<int>,
    mv: Move,
)
    requires
        position.valid(),
        pawn_moves(position, capture_only, push_map, capture_map, diagonal_pins, orthogonal_pins).contains(
            mv,
        ),
    ensures
        pseudo_legal(position, mv),
        position.holds(mv.from(), position.white_to_move, Piece::Pawn),
        mv.flag().spec_is_capture() && !(mv.flag() is EnPassant) ==> position.takeable(mv.to()),
        !mv.flag().spec_is_capture() ==> position.empty_at(mv.to()) && !capture_only,
        mv.flag() is EnPassant ==> mv.to() == position.en_passant.index() && legal(position, mv),
        position.applicable(mv),
        position.apply(mv).valid(),
{
    let white = position.white_to_move;
    let attackers = pawns_off(position, orthogonal_pins);
    let targets = landing_captures(position, capture_map);
    let last = rank_set(promotion_rank(white));
    let a1 = step_moves(
        capturers(white, true, false, attackers, targets, diagonal_pins, last),
        capture_step(white, true),
        seq![MoveFlag::Capture],
    );
    let a2 = step_moves(
        capturers(white, false, false, attackers, targets, diagonal_pins, last),
        capture_step(white, false),
        seq![MoveFlag::Capture],
    );
    let a3 = step_moves(
        capturers(white, true, true, attackers, targets, diagonal_pins, last),
        capture_step(white, true),
        promotion_flags(true),
    );
    let a4 = step_moves(
        capturers(white, false, true, attackers, targets, diagonal_pins, last),
        capture_step(white, false),
        promotion_flags(true),
    );
    let a = a1 + a2 + a3 + a4;
    let b = if position.en_passant.is_valid() {
        en_passant_moves(position, attackers)
    } else {
        Seq::empty()
    };
    let c = if capture_only {
        Seq::empty()
    } else {
        pawn_pushes(
            white,
            pawns_off(position, diagonal_pins),
            landing_pushes(position, push_map),
            orthogonal_pins,
            last,
            rank_set(double_push_rank(white)),
            position.occupancy(),
        )
    };
    lemma_concat_contains(a + b, c, mv);
    lemma_concat_contains(a, b, mv);
    lemma_concat_contains(a1 + a2 + a3, a4, mv);
    lemma_concat_contains(a1 + a2, a3, mv);
    lemma_concat_contains(a1, a2, mv);
    if a1.contains(mv) {
        lemma_listed_capture_obeys(position, true, false, capture_map, diagonal_pins, orthogonal_pins, mv);
    } else if a2.contains(mv) {
        lemma_listed_capture_obeys(position, false, false, capture_map, diagonal_pins, orthogonal_pins, mv);
    } else if a3.contains(mv) {
        lemma_listed_capture_obeys(position, true, true, capture_map, diagonal_pins, orthogonal_pins, mv);
    } else if a4.contains(mv) {
        lemma_listed_capture_obeys(position, false, true, capture_map, diagonal_pins, orthogonal_pins, mv);
    } else if b.contains(mv) {
        lemma_listed_en_passant_obeys(position, orthogonal_pins, mv);
    } else {
        lemma_listed_push_obeys(position, push_map, diagonal_pins, orthogonal_pins, mv);
    }
    lemma_pseudo_legal_fits(position, mv);
    lemma_apply_valid(position, mv);
}

/// The maps hold the squares that answer every check, and the pin masks
/// hold the pin lines of their class.
pub open spec fn masks_of(
    position: Position,
    push_map: Set<int>,
    capture_map: Set<int>,
    diagonal_pins: Set<int>,
    orthogonal_pins: Set<int>,
) -> bool {
    &&& forall|t: int| on_board(t) ==> (push_map.contains(t) <==> answers_check(position, t))
    &&& forall|t: int| on_board(t) ==> (capture_map.contains(t) <==> answers_check(position, t))
    &&& forall|u: int| diagonal_pins.contains(u) <==> pin_line(position, true, u)
    &&& forall|u: int| orthogonal_pins.contains(u) <==> pin_line(position, false, u)
}

/// Under the maps and pin lines of the position, the pawn moves are those
/// that the generator lists for the position as a whole.
pub proof fn lemma_pawn_moves_under_masks(
    position: Position,
    capture_only: bool,
    push_map: Set<int>,
    capture_map: Set<int>,
    diagonal_pins: Set<int>,
    orthogonal_pins: Set<int>,
)
    requires
        masks_of(position, push_map, capture_map, diagonal_pins, orthogonal_pins),
    ensures
        pawn_moves(position, capture_only, push_map, capture_map, diagonal_pins, orthogonal_pins)
            == pawn_moves_onto(
            position,
            capture_only,
            push_targets(position, capture_only),
            capture_targets(position),
            pin_set(position, true),
            pin_set(position, false),
        ),
{
    assert(landing_captures(position, capture_map) =~= capture_targets(position));
    assert(landing_pushes(position, push_map) =~= push_targets(position, false));
    assert(diagonal_pins =~= pin_set(position, true));
    assert(orthogonal_pins =~= pin_set(position, false));
}

/// A listed pawn move is a legal move of a pawn.
pub proof fn lemma_pawn_listed_legal(position: Position, capture_only: bool, mv: Move)
    requires
        position.valid(),
        pawn_listed(position, capture_only, mv),
    ensures
        legal(position, mv),
        position.holds(mv.from(), position.white_to_move, Piece::Pawn),
        capture_only ==> mv.flag().spec_is_capture(),
{
    assert(position.holds(mv.from(), position.white_to_move, Piece::Pawn));
    assert(pseudo_legal(position, mv));
    lemma_pseudo_legal_fits(position, mv);
    lemma_pawn_safe(position, capture_only, mv);
}

/// Under the maps and pin lines of the position the generator lists
/// exactly the legal pawn moves, each once: a move is in the list if and
/// only if it is a legal move of a pawn of the side to move, and, where
/// only captures are asked for, a capture.
pub proof fn lemma_pawn_moves_exactly_legal(
    position: Position,
    capture_only: bool,
    push_map: Set<int>,
    capture_map: Set<int>,
    diagonal_pins: Set<int>,
    orthogonal_pins: Set<int>,
    mv: Move,
)
    requires
        position.valid(),
        masks_of(position, push_map, capture_map, diagonal_pins, orthogonal_pins),
    ensures
        pawn_moves(position, capture_only, push_map, capture_map, diagonal_pins, orthogonal_pins).contains(
            mv,
        ) <==> legal(position, mv) && position.holds(mv.from(), position.white_to_move, Piece::Pawn) && (
        capture_only ==> mv.flag().spec_is_capture()),
        pawn_moves(
            position,
            capture_only,
            push_map,
            capture_map,
            diagonal_pins,
            orthogonal_pins,
        ).no_duplicates(),
{
    let list = pawn_moves(position, capture_only, push_map, capture_map, diagonal_pins, orthogonal_pins);
    lemma_pawn_moves_under_masks(position, capture_only, push_map, capture_map, diagonal_pins, orthogonal_pins);
    lemma_pawn_moves_distinct(position, capture_only);
    if list.contains(mv) {
        lemma_pawn_member(position, capture_only, mv);
        lemma_pawn_listed_legal(position, capture_only, mv);
    }
    if legal(position, mv) && position.holds(mv.from(), position.white_to_move, Piece::Pawn) && (capture_only
        ==> mv.flag().spec_is_capture()) {
        lemma_legal_pawn_listed(position, mv);
        assert(pawn_listed(position, capture_only, mv));
        lemma_pawn_listed_member(position, capture_only, mv);
    }
}

/// Every move of the list is a move of a pawn of the side to move that
/// obeys the way a pawn moves, and so can be made; where only captures are
/// asked for, it is a capture.
pub open spec fn pawn_moves_of_the_rules(position: Position, capture_only: bool, list: Seq<Move>) -> bool {
    forall|i: int|
        0 <= i < list.len() ==> pawn_move_of_the_rules(position, #[trigger] list[i]) && position.applicable(
            list[i],
        ) && (capture_only ==> list[i].flag().spec_is_capture())
}

/// The list holds the legal pawn moves of the position, or, where only
/// captures are asked for, the capturing ones among them, each once, and
/// nothing else.
pub open spec fn legal_pawn_moves(position: Position, capture_only: bool, list: Seq<Move>) -> bool {
    &&& list.no_duplicates()
    &&& forall|mv: Move| #[trigger]
        list.contains(mv) <==> legal(position, mv) && position.holds(
            mv.from(),
            position.white_to_move,
            Piece::Pawn,
        ) && (capture_only ==> mv.flag().spec_is_capture())
}

/// Whatever the maps and pin lines, the listed pawn moves are pawn moves of
/// the rules.
pub proof fn lemma_pawn_moves_all_obey(
    position: Position,
    capture_only: bool,
    push_map: Set<int>,
    capture_map: Set<int>,
    diagonal_pins: Set<int>,
    orthogonal_pins: Set<int>,
)
    requires
        position.valid(),
    ensures
        pawn_moves_of_the_rules(
            position,
            capture_only,
            pawn_moves(position, capture_only, push_map, capture_map, diagonal_pins, orthogonal_pins),
        ),
{
    let list = pawn_moves(position, capture_only, push_map, capture_map, diagonal_pins, orthogonal_pins);
    assert forall|i: int| 0 <= i < list.len() implies pawn_move_of_the_rules(position, #[trigger] list[i])
        && position.applicable(list[i]) && (capture_only ==> list[i].flag().spec_is_capture()) by {
        assert(list.contains(list[i]));
        lemma_pawn_moves_obey_rules(
            position,
            capture_only,
            push_map,
            capture_map,
            diagonal_pins,
            orthogonal_pins,
            list[i],
        );
    }
}

/// Under the maps and pin lines of the position, the listed pawn moves are
/// the legal pawn moves, each once.
pub proof fn lemma_pawn_moves_all_legal(
    position: Position,
    capture_only: bool,
    push_map: Set<int>,
    capture_map: Set<int>,
    diagonal_pins: Set<int>,
    orthogonal_pins: Set<int>,
)
    requires
        position.valid(),
        masks_of(position, push_map, capture_map, diagonal_pins, orthogonal_pins),
    ensures
        legal_pawn_moves(
            position,
            capture_only,
            pawn_moves(position, capture_only, push_map, capture_map, diagonal_pins, orthogonal_pins),
        ),
{
    let list = pawn_moves(position, capture_only, push_map, capture_map, diagonal_pins, orthogonal_pins);
    assert forall|mv: Move| #[trigger]
        list.contains(mv) <==> legal(position, mv) && position.holds(
            mv.from(),
            position.white_to_move,
            Piece::Pawn,
        ) && (capture_only ==> mv.flag().spec_is_capture()) by {
        lemma_pawn_moves_exactly_legal(
            position,
            capture_only,
            push_map,
            capture_map,
            diagonal_pins,
            orthogonal_pins,
            mv,
        );
    }
    lemma_pawn_moves_exactly_legal(
        position,
        capture_only,
        push_map,
        capture_map,
        diagonal_pins,
        orthogonal_pins,
        Move(0),
    );
}

} // verus!
