//! Why a listed move never leaves the king of the side that makes it
//! attacked.

use crate::base_structures::chess_move::Move;
use crate::base_structures::move_flags::MoveFlag;
use crate::base_structures::piece::{Man, Piece};
use crate::geometry::{
    aligned, between, clear, distance, file_gap, file_of, lemma_aligned_on_ray, lemma_between_on_ray,
    lemma_between_symmetric, lemma_clear_symmetric, lemma_first_on_ray_unique, lemma_ray_extend,
    lemma_sole_blocker_legs, magnitude, on_board, on_ray, rank_gap, rank_of, reaches, same_diagonal, sign,
};
use crate::position::{king_home, lemma_apply_valid, Position};
use super::listed::{castle_listed, king_listed};
use super::masks::{answers_check, checker, on_class, own_king, pin_line, pinner, sole_blocker};
use vstd::prelude::*;

verus! {

/// The man on `e` pins the man on `from` to the king of the side to move,
/// along a line of the given class.
pub open spec fn pins(position: Position, diagonal: bool, e: int, from: int) -> bool {
    pinner(position, diagonal, e) && sole_blocker(position, e, from)
}

/// The king of a side stands where a king of that side is seen.
pub proof fn lemma_king_found(position: Position, white: bool, s: int)
    requires
        position.one_king(white),
        position.holds(s, white, Piece::King),
    ensures
        position.king_square(white) == s,
{
    assert(position.holds(position.king_square(white), white, Piece::King));
}

/// A step of the king to a square that no opposing man attacks once the
/// king has left leaves the king unattacked.
pub proof fn lemma_king_step_safe(position: Position, capture_only: bool, mv: Move)
    requires
        position.valid(),
        position.applicable(mv),
        king_listed(position, capture_only, mv),
    ensures
        !position.apply(mv).attacked(
            !position.white_to_move,
            position.apply(mv).king_square(position.white_to_move),
        ),
{
    let white = position.white_to_move;
    let other = !white;
    let king = own_king(position);
    let to = mv.to();
    let next = position.apply(mv);
    let bare = position.occupancy().remove(king);
    let after = next.occupancy();
    assert(position.one_king(white));
    assert(position.holds(king, white, Piece::King));
    lemma_apply_valid(position, mv);
    assert(next.holds(to, white, Piece::King));
    lemma_king_found(next, white, to);
    if next.attacked(other, to) {
        let s = choose|s: int| next.attacks_from(s, other, to, after);
        assert(position.side_at(s, other));
        assert(position.squares[s] == next.squares[s]);
        let piece = position.squares[s].unwrap().piece;
        assert(clear(after, s, to) ==> clear(bare, s, to)) by {
            if clear(after, s, to) {
                assert forall|u: int| #[trigger] between(s, to, u) implies !bare.contains(u) by {
                    assert(!after.contains(u));
                }
            }
        }
        assert(reaches(piece, other, s, to, bare));
        assert(position.attacks_from(s, other, to, bare));
        assert(position.attacked_with(other, to, bare));
    }
}

/// Castling where no opposing man attacks the square of the king, the
/// square it passes or the square it reaches leaves the king unattacked.
pub proof fn lemma_castle_safe(position: Position, capture_only: bool, mv: Move)
    requires
        position.valid(),
        position.applicable(mv),
        castle_listed(position, capture_only, mv),
    ensures
        !position.apply(mv).attacked(
            !position.white_to_move,
            position.apply(mv).king_square(position.white_to_move),
        ),
{
    let white = position.white_to_move;
    let other = !white;
    let home = king_home(white);
    let next = position.apply(mv);
    let before = position.occupancy();
    let after = next.occupancy();
    Move::lemma_at(home, home + 2, MoveFlag::KingSideCastle);
    Move::lemma_at(home, home - 2, MoveFlag::QueenSideCastle);
    let to = mv.to();
    lemma_apply_valid(position, mv);
    assert(next.holds(to, white, Piece::King));
    lemma_king_found(next, white, to);
    if next.attacked(other, to) {
        let s = choose|s: int| next.attacks_from(s, other, to, after);
        assert(position.side_at(s, other));
        assert(position.squares[s] == next.squares[s]);
        let piece = position.squares[s].unwrap().piece;
        assert(clear(after, s, to) && aligned(s, to) ==> clear(before, s, to)) by {
            if clear(after, s, to) && aligned(s, to) {
                assert forall|u: int| #[trigger] between(s, to, u) implies !before.contains(u) by {
                    assert(!after.contains(u));
                    if before.contains(u) {
                        if mv.flag() is KingSideCastle {
                            assert(u == home || u == home + 3);
                            assert(between(s, to, home + 1));
                            assert(after.contains(home + 1));
                        } else {
                            assert(u == home || u == home - 4);
                            assert(between(s, to, home - 1));
                            assert(after.contains(home - 1));
                        }
                    }
                }
            }
        }
        assert(reaches(piece, other, s, to, before));
        assert(position.attacks_from(s, other, to, before));
        assert(position.attacked(other, to));
    }
}

/// A man other than the king that answers every check and, if pinned,
/// stays on the line of its pin, leaves its king unattacked by moving.
pub proof fn lemma_shielded_move_safe(position: Position, next: Position, from: int, to: int, placed: Man)
    requires
        position.valid(),
        position.side_at(from, position.white_to_move),
        from != own_king(position),
        to != own_king(position),
        from != to,
        placed.white == position.white_to_move,
        !(placed.piece is King),
        next.squares == position.squares.update(from, None).update(to, Some(placed)),
        answers_check(position, to),
        forall|e: int, diagonal: bool| #[trigger]
            pins(position, diagonal, e, from) ==> to == e || between(own_king(position), e, to),
    ensures
        !next.attacked(!position.white_to_move, own_king(position)),
        next.king_square(position.white_to_move) == own_king(position),
{
    let white = position.white_to_move;
    let other = !white;
    let king = own_king(position);
    let before = position.occupancy();
    let after = next.occupancy();
    assert(position.one_king(white));
    assert(position.holds(king, white, Piece::King));
    assert(next.holds(king, white, Piece::King));
    assert(next.one_king(white)) by {
        assert forall|a: int, b: int|
            next.holds(a, white, Piece::King) && next.holds(b, white, Piece::King) implies a == b by {
            assert(position.holds(a, white, Piece::King));
            assert(position.holds(b, white, Piece::King));
        }
    }
    lemma_king_found(next, white, king);
    if next.attacked(other, king) {
        let s = choose|s: int| next.attacks_from(s, other, king, after);
        assert(s != from && s != to);
        assert(position.squares[s] == next.squares[s]);
        assert(position.side_at(s, other));
        let piece = position.squares[s].unwrap().piece;
        lemma_clear_symmetric(after, s, king);
        lemma_clear_symmetric(before, s, king);
        lemma_between_symmetric(king, s, to);
        lemma_between_symmetric(king, s, from);
        if reaches(piece, other, s, king, before) {
            assert(checker(position, s));
            assert(between(king, s, to));
            assert(after.contains(to));
            assert(!clear(after, king, s));
        } else {
            assert(aligned(king, s));
            assert(clear(after, king, s));
            assert(!clear(before, king, s));
            let blocker = choose|u: int| #[trigger] between(king, s, u) && before.contains(u);
            assert(!after.contains(blocker));
            assert(blocker == from);
            let diagonal = same_diagonal(king, s);
            assert(sole_blocker(position, s, from)) by {
                assert forall|u: int| #[trigger] between(king, s, u) && u != from implies position.empty_at(
                    u,
                ) by {
                    assert(!after.contains(u));
                }
            }
            assert(pinner(position, diagonal, s));
            assert(pins(position, diagonal, s, from));
            assert(between(king, s, to));
            assert(after.contains(to));
        }
    }
}

/// A man that stands on no pin line of a class is not pinned along a line
/// of that class.
pub proof fn lemma_off_line_unpinned(position: Position, diagonal: bool, e: int, from: int)
    requires
        !pin_line(position, diagonal, from),
    ensures
        !pins(position, diagonal, e, from),
{
}

/// Two squares on different rays of one class from `k` that lie on one
/// line of that class have `k` between them.
pub proof fn lemma_cross_rays(
    diagonal: bool,
    k: int,
    file_step: int,
    rank_step: int,
    a: int,
    other_file_step: int,
    other_rank_step: int,
    b: int,
)
    requires
        on_ray(k, file_step, rank_step, a),
        on_ray(k, other_file_step, other_rank_step, b),
        -1 <= file_step <= 1,
        -1 <= rank_step <= 1,
        -1 <= other_file_step <= 1,
        -1 <= other_rank_step <= 1,
        diagonal <==> file_step != 0 && rank_step != 0,
        diagonal <==> other_file_step != 0 && other_rank_step != 0,
        file_step != other_file_step || rank_step != other_rank_step,
        on_class(diagonal, a, b),
    ensures
        between(a, b, k),
{
}

/// Two pinning men in one direction from the king are one man.
pub proof fn lemma_one_pin_per_ray(
    position: Position,
    diagonal: bool,
    other_diagonal: bool,
    e: int,
    other: int,
    file_step: int,
    rank_step: int,
)
    requires
        pinner(position, diagonal, e),
        pinner(position, other_diagonal, other),
        on_ray(own_king(position), file_step, rank_step, e),
        on_ray(own_king(position), file_step, rank_step, other),
        -1 <= file_step <= 1,
        -1 <= rank_step <= 1,
    ensures
        e == other,
{
    let k = own_king(position);
    let occupied = position.occupancy();
    let p = choose|p: int| sole_blocker(position, e, p);
    let q = choose|q: int| sole_blocker(position, other, q);
    assert forall|x: int| #[trigger] between(k, e, x) && x != p implies !occupied.contains(x) by {
        assert(position.empty_at(x));
    }
    assert forall|x: int| #[trigger] between(k, other, x) && x != q implies !occupied.contains(x) by {
        assert(position.empty_at(x));
    }
    lemma_sole_blocker_legs(occupied, k, file_step, rank_step, p, e);
    lemma_sole_blocker_legs(occupied, k, file_step, rank_step, q, other);
    lemma_first_on_ray_unique(occupied, k, file_step, rank_step, p, q);
    lemma_first_on_ray_unique(occupied, p, file_step, rank_step, e, other);
}

/// A pinned man that slides along a line of the class of its pin to a
/// square of a pin line of that class stays on the line of its pin.
pub proof fn lemma_slide_on_pin(position: Position, diagonal: bool, e: int, from: int, to: int)
    requires
        position.valid(),
        pins(position, diagonal, e, from),
        pin_line(position, diagonal, to),
        on_class(diagonal, from, to),
        clear(position.occupancy(), from, to),
    ensures
        to == e || between(own_king(position), e, to),
{
    let k = own_king(position);
    let white = position.white_to_move;
    assert(position.one_king(white));
    assert(position.holds(k, white, Piece::King));
    let other = choose|x: int| #[trigger] pinner(position, diagonal, x) && (to == x || between(k, x, to));
    lemma_aligned_on_ray(k, e);
    lemma_aligned_on_ray(k, other);
    let fs = sign(file_gap(k, e));
    let rs = sign(rank_gap(k, e));
    let ofs = sign(file_gap(k, other));
    let ors = sign(rank_gap(k, other));
    lemma_between_on_ray(k, fs, rs, e, from);
    lemma_between_on_ray(k, ofs, ors, other, to);
    if fs == ofs && rs == ors {
        lemma_one_pin_per_ray(position, diagonal, diagonal, e, other, fs, rs);
    } else {
        assert(on_ray(k, ofs, ors, to));
        lemma_cross_rays(diagonal, k, fs, rs, from, ofs, ors, to);
        assert(position.occupancy().contains(k));
        assert(false);
    }
}

/// Two squares that touch at a corner and lie on diagonal rays from `k`
/// lie on one ray, and so does the square that touches the first at the
/// opposite corner, unless it is `k` itself.
pub proof fn lemma_diagonal_neighbours(
    k: int,
    file_step: int,
    rank_step: int,
    from: int,
    other_file_step: int,
    other_rank_step: int,
    back: int,
    to: int,
)
    requires
        on_ray(k, file_step, rank_step, from),
        on_ray(k, other_file_step, other_rank_step, back),
        file_step == 1 || file_step == -1,
        rank_step == 1 || rank_step == -1,
        other_file_step == 1 || other_file_step == -1,
        other_rank_step == 1 || other_rank_step == -1,
        on_board(to),
        to != k,
        magnitude(file_gap(from, to)) == 1,
        magnitude(rank_gap(from, to)) == 1,
        back == 2 * from - to,
    ensures
        file_step == other_file_step,
        rank_step == other_rank_step,
        on_ray(k, file_step, rank_step, to),
        distance(k, to) <= distance(k, from) + 1,
{
    let kf = file_of(k);
    let kr = rank_of(k);
    let ff = file_of(from);
    let fr = rank_of(from);
    let tf = file_of(to);
    let tr = rank_of(to);
    let bf = file_of(back);
    let br = rank_of(back);
    assert(from == 8 * fr + ff && to == 8 * tr + tf && back == 8 * br + bf && k == 8 * kr + kf);
    assert(8 * br + bf == 8 * (2 * fr - tr) + (2 * ff - tf));
    if 0 <= 2 * ff - tf < 8 {
        assert(bf == 2 * ff - tf && br == 2 * fr - tr);
    } else if 2 * ff - tf < 0 {
        assert(bf == 2 * ff - tf + 8 && br == 2 * fr - tr - 1);
    } else {
        assert(bf == 2 * ff - tf - 8 && br == 2 * fr - tr + 1);
    }
}

/// A diagonally pinned pawn that captures along the diagonal of its pin
/// stays on the line of its pin: this is so where the square it captures on
/// or the square opposite to it lies on a diagonal pin line.
pub proof fn lemma_capture_on_pin(position: Position, e: int, from: int, to: int)
    requires
        position.valid(),
        pins(position, true, e, from),
        on_board(to),
        to != own_king(position),
        magnitude(file_gap(from, to)) == 1,
        magnitude(rank_gap(from, to)) == 1,
        pin_line(position, true, to) || pin_line(position, true, 2 * from - to),
    ensures
        to == e || between(own_king(position), e, to),
{
    let k = own_king(position);
    if pin_line(position, true, to) {
        assert(clear(position.occupancy(), from, to)) by {
            assert forall|u: int| #[trigger] between(from, to, u) implies !position.occupancy().contains(
                u,
            ) by {}
        }
        lemma_slide_on_pin(position, true, e, from, to);
    } else {
        let back = 2 * from - to;
        let other = choose|x: int| #[trigger] pinner(position, true, x) && (back == x || between(k, x, back));
        lemma_aligned_on_ray(k, e);
        lemma_aligned_on_ray(k, other);
        let fs = sign(file_gap(k, e));
        let rs = sign(rank_gap(k, e));
        let ofs = sign(file_gap(k, other));
        let ors = sign(rank_gap(k, other));
        lemma_between_on_ray(k, fs, rs, e, from);
        lemma_between_on_ray(k, ofs, ors, other, back);
        assert(on_ray(k, ofs, ors, back));
        assert(on_ray(k, fs, rs, from));
        lemma_diagonal_neighbours(k, fs, rs, from, ofs, ors, back, to);
        lemma_between_on_ray(k, fs, rs, e, to);
        lemma_ray_extend(k, fs, rs, e, to);
    }
}

/// Two squares, one above the other, that lie on rays along ranks and
/// files from `k` lie on the file of `k`.
pub proof fn lemma_vertical_neighbours(
    k: int,
    file_step: int,
    rank_step: int,
    from: int,
    other_file_step: int,
    other_rank_step: int,
    near: int,
)
    requires
        on_ray(k, file_step, rank_step, from),
        on_ray(k, other_file_step, other_rank_step, near),
        file_step == 0 || rank_step == 0,
        other_file_step == 0 || other_rank_step == 0,
        near == from + 8 || near == from - 8,
    ensures
        file_of(from) == file_of(k),
{
}

/// A square between `k` and `e` on a file, and from it one or two squares
/// up or down without meeting `k` or `e`: the square reached lies between
/// `k` and `e`.
pub proof fn lemma_push_between(k: int, e: int, from: int, to: int)
    requires
        between(k, e, from),
        file_of(from) == file_of(k),
        to == from + 8 || to == from - 8 || to == from + 16 || to == from - 16,
        on_board(to),
        to != k,
        to != e,
        to == from + 16 || to == from - 16 ==> (from + to) / 2 != k && (from + to) / 2 != e,
    ensures
        between(k, e, to),
{
    let file = file_of(k);
    let kr = rank_of(k);
    let er = rank_of(e);
    let fr = rank_of(from);
    assert(k == 8 * kr + file && from == 8 * fr + file);
    assert(file_of(e) == file && e == 8 * er + file);
    let middle = (from + to) / 2;
    if to == from + 8 {
        assert(to == 8 * (fr + 1) + file);
        assert(rank_of(to) == fr + 1 && file_of(to) == file);
    } else if to == from - 8 {
        assert(to == 8 * (fr - 1) + file);
        assert(rank_of(to) == fr - 1 && file_of(to) == file);
    } else if to == from + 16 {
        assert(to == 8 * (fr + 2) + file);
        assert(middle == 8 * (fr + 1) + file);
        assert(rank_of(to) == fr + 2 && file_of(to) == file);
    } else {
        assert(to == 8 * (fr - 2) + file);
        assert(middle == 8 * (fr - 1) + file);
        assert(rank_of(to) == fr - 2 && file_of(to) == file);
    }
}

/// An orthogonally pinned pawn that pushes along the file of its pin stays
/// on the line of its pin: this is so where the square above or below it
/// lies on an orthogonal pin line, and the squares it passes and reaches
/// are empty.
pub proof fn lemma_push_on_pin(position: Position, e: int, from: int, to: int)
    requires
        position.valid(),
        pins(position, false, e, from),
        pin_line(position, false, from - 8) || pin_line(position, false, from + 8),
        to == from + 8 || to == from - 8 || to == from + 16 || to == from - 16,
        position.empty_at(to),
        to == from + 16 || to == from - 16 ==> position.empty_at((from + to) / 2),
    ensures
        between(own_king(position), e, to),
{
    let k = own_king(position);
    let white = position.white_to_move;
    assert(position.one_king(white));
    assert(position.holds(k, white, Piece::King));
    let near = if pin_line(position, false, from - 8) {
        from - 8
    } else {
        from + 8
    };
    let other = choose|x: int| #[trigger] pinner(position, false, x) && (near == x || between(k, x, near));
    lemma_aligned_on_ray(k, e);
    lemma_aligned_on_ray(k, other);
    let fs = sign(file_gap(k, e));
    let rs = sign(rank_gap(k, e));
    let ofs = sign(file_gap(k, other));
    let ors = sign(rank_gap(k, other));
    lemma_between_on_ray(k, fs, rs, e, from);
    lemma_between_on_ray(k, ofs, ors, other, near);
    assert(on_ray(k, ofs, ors, near));
    assert(on_ray(k, fs, rs, from));
    lemma_vertical_neighbours(k, fs, rs, from, ofs, ors, near);
    assert(position.side_at(e, !white));
    lemma_push_between(k, e, from, to);
}

} // verus!
