//! Board geometry over square indices `0..64` (a1 = 0, h1 = 7, a8 = 56):
//! files, ranks, lines, and the squares from which each kind of piece
//! reaches a square.

use crate::base_structures::piece::Piece;
use vstd::prelude::*;

verus! {

pub open spec fn on_board(s: int) -> bool {
    0 <= s < 64
}

/// File of a square: 0 for the a-file, 7 for the h-file.
pub open spec fn file_of(s: int) -> int {
    s % 8
}

/// Rank of a square: 0 for the first rank, 7 for the eighth.
pub open spec fn rank_of(s: int) -> int {
    s / 8
}

pub open spec fn sign(x: int) -> int {
    if x > 0 {
        1
    } else if x < 0 {
        -1
    } else {
        0
    }
}

pub open spec fn magnitude(x: int) -> int {
    if x < 0 {
        -x
    } else {
        x
    }
}

/// Files to walk from `a` to `b`, negative towards the a-file.
pub open spec fn file_gap(a: int, b: int) -> int {
    file_of(b) - file_of(a)
}

/// Ranks to walk from `a` to `b`, negative towards the first rank.
pub open spec fn rank_gap(a: int, b: int) -> int {
    rank_of(b) - rank_of(a)
}

/// The number of king steps from `a` to `b`.
pub open spec fn distance(a: int, b: int) -> int {
    if magnitude(file_gap(a, b)) >= magnitude(rank_gap(a, b)) {
        magnitude(file_gap(a, b))
    } else {
        magnitude(rank_gap(a, b))
    }
}

/// `k` steps in the direction of `d`, of which only the sign counts.
pub open spec fn scaled(d: int, k: int) -> int {
    if d > 0 {
        k
    } else if d < 0 {
        -k
    } else {
        0
    }
}

/// `t` is reached from `s` by one or more steps of `(file_step, rank_step)`,
/// each component a sign.
pub open spec fn on_ray(s: int, file_step: int, rank_step: int, t: int) -> bool {
    &&& on_board(s)
    &&& on_board(t)
    &&& (file_step != 0 || rank_step != 0)
    &&& distance(s, t) >= 1
    &&& file_gap(s, t) == scaled(file_step, distance(s, t))
    &&& rank_gap(s, t) == scaled(rank_step, distance(s, t))
}

/// Two different squares on one rank or one file.
pub open spec fn same_line(a: int, b: int) -> bool {
    &&& on_board(a)
    &&& on_board(b)
    &&& a != b
    &&& (file_of(a) == file_of(b) || rank_of(a) == rank_of(b))
}

/// Two different squares on one diagonal.
pub open spec fn same_diagonal(a: int, b: int) -> bool {
    &&& on_board(a)
    &&& on_board(b)
    &&& a != b
    &&& magnitude(file_gap(a, b)) == magnitude(rank_gap(a, b))
}

/// Two different squares that a queen's line connects.
pub open spec fn aligned(a: int, b: int) -> bool {
    same_line(a, b) || same_diagonal(a, b)
}

/// `u` lies strictly between `a` and `b` on the line that connects them.
pub open spec fn between(a: int, b: int, u: int) -> bool {
    &&& aligned(a, b)
    &&& on_ray(a, sign(file_gap(a, b)), sign(rank_gap(a, b)), u)
    &&& distance(a, u) < distance(a, b)
}

/// No square strictly between `a` and `b` is occupied.
pub open spec fn clear(occupied: Set<int>, a: int, b: int) -> bool {
    forall|u: int| #[trigger] between(a, b, u) ==> !occupied.contains(u)
}

/// No square of the ray from `s` that is nearer than `t` is occupied.
pub open spec fn ray_clear(occupied: Set<int>, s: int, file_step: int, rank_step: int, t: int) -> bool {
    forall|u: int| #[trigger]
        on_ray(s, file_step, rank_step, u) && distance(s, u) < distance(s, t) ==> !occupied.contains(u)
}

/// A slider on `s` sees `t` along the ray of the given direction.
pub open spec fn ray_sees(occupied: Set<int>, s: int, file_step: int, rank_step: int, t: int) -> bool {
    on_ray(s, file_step, rank_step, t) && ray_clear(occupied, s, file_step, rank_step, t)
}

pub open spec fn knight_step(a: int, b: int) -> bool {
    &&& on_board(a)
    &&& on_board(b)
    &&& (magnitude(file_gap(a, b)) == 1 && magnitude(rank_gap(a, b)) == 2 || magnitude(file_gap(a, b)) == 2
        && magnitude(rank_gap(a, b)) == 1)
}

pub open spec fn king_step(a: int, b: int) -> bool {
    on_board(a) && on_board(b) && distance(a, b) == 1
}

/// A pawn of the given colour on `from` attacks `to`: one rank ahead, one
/// file aside.
pub open spec fn pawn_attack(white: bool, from: int, to: int) -> bool {
    &&& on_board(from)
    &&& on_board(to)
    &&& magnitude(file_gap(from, to)) == 1
    &&& rank_gap(from, to) == (if white {
        1int
    } else {
        -1int
    })
}

/// A piece of the given kind and colour on `from` attacks `to` when the
/// squares in `occupied` hold pieces.
pub open spec fn reaches(piece: Piece, white: bool, from: int, to: int, occupied: Set<int>) -> bool {
    match piece {
        Piece::Pawn => pawn_attack(white, from, to),
        Piece::Knight => knight_step(from, to),
        Piece::Bishop => same_diagonal(from, to) && clear(occupied, from, to),
        Piece::Rook => same_line(from, to) && clear(occupied, from, to),
        Piece::Queen => aligned(from, to) && clear(occupied, from, to),
        Piece::King => king_step(from, to),
    }
}

/// Along a ray, "between" is "on the ray and nearer".
pub proof fn lemma_between_on_ray(s: int, file_step: int, rank_step: int, t: int, u: int)
    requires
        on_ray(s, file_step, rank_step, t),
        -1 <= file_step <= 1,
        -1 <= rank_step <= 1,
    ensures
        aligned(s, t),
        sign(file_gap(s, t)) == file_step,
        sign(rank_gap(s, t)) == rank_step,
        same_diagonal(s, t) <==> file_step != 0 && rank_step != 0,
        same_line(s, t) <==> file_step == 0 || rank_step == 0,
        between(s, t, u) <==> on_ray(s, file_step, rank_step, u) && distance(s, u) < distance(s, t),
{
}

/// Seeing along a ray is seeing along the line.
pub proof fn lemma_ray_sees(occupied: Set<int>, s: int, file_step: int, rank_step: int, t: int)
    requires
        on_ray(s, file_step, rank_step, t),
        -1 <= file_step <= 1,
        -1 <= rank_step <= 1,
    ensures
        ray_clear(occupied, s, file_step, rank_step, t) <==> clear(occupied, s, t),
{
    lemma_between_on_ray(s, file_step, rank_step, t, 0);
    if ray_clear(occupied, s, file_step, rank_step, t) {
        assert forall|u: int| #[trigger] between(s, t, u) implies !occupied.contains(u) by {
            lemma_between_on_ray(s, file_step, rank_step, t, u);
        }
    }
    if clear(occupied, s, t) {
        assert forall|u: int| #[trigger]
            on_ray(s, file_step, rank_step, u) && distance(s, u) < distance(s, t) implies !occupied.contains(u) by {
            lemma_between_on_ray(s, file_step, rank_step, t, u);
            assert(between(s, t, u));
        }
    }
}

/// Two aligned squares lie on the ray whose direction is the sign of their
/// gaps.
pub proof fn lemma_aligned_on_ray(a: int, b: int)
    requires
        aligned(a, b),
    ensures
        on_ray(a, sign(file_gap(a, b)), sign(rank_gap(a, b)), b),
{
}

/// The squares between two squares do not depend on the end one starts from.
pub proof fn lemma_between_symmetric(a: int, b: int, u: int)
    ensures
        between(a, b, u) == between(b, a, u),
{
}

/// Whether the line between two squares is clear does not depend on the end
/// one starts from.
pub proof fn lemma_clear_symmetric(occupied: Set<int>, a: int, b: int)
    ensures
        clear(occupied, a, b) == clear(occupied, b, a),
{
    assert forall|u: int| #[trigger] between(a, b, u) == between(b, a, u) by {
        lemma_between_symmetric(a, b, u);
    }
    if clear(occupied, a, b) {
        assert forall|u: int| #[trigger] between(b, a, u) implies !occupied.contains(u) by {
            assert(between(a, b, u));
        }
    }
    if clear(occupied, b, a) {
        assert forall|u: int| #[trigger] between(a, b, u) implies !occupied.contains(u) by {
            assert(between(b, a, u));
        }
    }
}

/// `b` is the first occupied square on the ray from `s`.
pub open spec fn first_on_ray(occupied: Set<int>, s: int, file_step: int, rank_step: int, b: int) -> bool {
    on_ray(s, file_step, rank_step, b) && occupied.contains(b) && ray_clear(occupied, s, file_step, rank_step, b)
}

/// Walking on along a ray from a square of the ray stays on the ray, and
/// the distances add up.
pub proof fn lemma_ray_extend(s: int, file_step: int, rank_step: int, b: int, t: int)
    requires
        on_ray(s, file_step, rank_step, b),
        -1 <= file_step <= 1,
        -1 <= rank_step <= 1,
    ensures
        on_ray(b, file_step, rank_step, t) ==> on_ray(s, file_step, rank_step, t) && distance(s, t) == distance(
            s,
            b,
        ) + distance(b, t),
        on_ray(s, file_step, rank_step, t) && distance(s, t) > distance(s, b) ==> on_ray(
            b,
            file_step,
            rank_step,
            t,
        ) && distance(s, t) == distance(s, b) + distance(b, t),
        on_ray(s, file_step, rank_step, t) && distance(s, t) == distance(s, b) ==> t == b,
{
}

/// A ray has at most one first occupied square.
pub proof fn lemma_first_on_ray_unique(
    occupied: Set<int>,
    s: int,
    file_step: int,
    rank_step: int,
    a: int,
    b: int,
)
    requires
        first_on_ray(occupied, s, file_step, rank_step, a),
        first_on_ray(occupied, s, file_step, rank_step, b),
        -1 <= file_step <= 1,
        -1 <= rank_step <= 1,
    ensures
        a == b,
{
    lemma_ray_extend(s, file_step, rank_step, a, b);
    assert(on_ray(s, file_step, rank_step, a) && on_ray(s, file_step, rank_step, b));
    if distance(s, a) < distance(s, b) {
        assert(!occupied.contains(a));
    }
    if distance(s, b) < distance(s, a) {
        assert(!occupied.contains(b));
    }
}

/// Where `b` is the first occupied square from `s` and `e` the first from
/// `b`, `b` is the only occupied square between `s` and `e`, and the
/// squares seen from `s` and from `b` together are those between `s` and
/// `e` and `e` itself.
pub proof fn lemma_two_legs(occupied: Set<int>, s: int, file_step: int, rank_step: int, b: int, e: int)
    requires
        first_on_ray(occupied, s, file_step, rank_step, b),
        first_on_ray(occupied, b, file_step, rank_step, e),
        -1 <= file_step <= 1,
        -1 <= rank_step <= 1,
    ensures
        on_ray(s, file_step, rank_step, e),
        between(s, e, b),
        forall|u: int| #[trigger] between(s, e, u) && u != b ==> !occupied.contains(u),
        forall|t: int|
            (ray_sees(occupied, s, file_step, rank_step, t) || ray_sees(occupied, b, file_step, rank_step, t))
                <==> (t == e || #[trigger] between(s, e, t)),
{
    lemma_ray_extend(s, file_step, rank_step, b, e);
    lemma_between_on_ray(s, file_step, rank_step, e, b);
    assert forall|u: int| #[trigger] between(s, e, u) && u != b implies !occupied.contains(u) by {
        lemma_between_on_ray(s, file_step, rank_step, e, u);
        lemma_ray_extend(s, file_step, rank_step, b, u);
        if distance(s, u) > distance(s, b) {
            assert(on_ray(b, file_step, rank_step, u) && distance(b, u) < distance(b, e));
        }
    }
    assert forall|t: int|
        (ray_sees(occupied, s, file_step, rank_step, t) || ray_sees(occupied, b, file_step, rank_step, t))
            <==> (t == e || #[trigger] between(s, e, t)) by {
        lemma_between_on_ray(s, file_step, rank_step, e, t);
        lemma_ray_extend(s, file_step, rank_step, b, t);
        lemma_ray_extend(b, file_step, rank_step, e, t);
        if ray_sees(occupied, s, file_step, rank_step, t) {
            if distance(s, t) > distance(s, b) {
                assert(on_ray(s, file_step, rank_step, b));
                assert(false);
            }
        }
        if ray_sees(occupied, b, file_step, rank_step, t) {
            if distance(b, t) > distance(b, e) {
                assert(on_ray(b, file_step, rank_step, e));
                assert(false);
            }
        }
        if t == e || between(s, e, t) {
            if distance(s, t) <= distance(s, b) {
                assert forall|u: int| #[trigger]
                    on_ray(s, file_step, rank_step, u) && distance(s, u) < distance(s, t) implies !occupied.contains(
                    u,
                ) by {}
                assert(ray_sees(occupied, s, file_step, rank_step, t));
            } else {
                assert forall|u: int| #[trigger]
                    on_ray(b, file_step, rank_step, u) && distance(b, u) < distance(b, t) implies !occupied.contains(
                    u,
                ) by {}
                assert(ray_sees(occupied, b, file_step, rank_step, t));
            }
        }
    }
}

/// Where two occupied squares `p` and `e` lie on the ray from `s` with `p`
/// the only occupied square between `s` and `e`, `p` is the first occupied
/// square from `s` and `e` the first from `p`.
pub proof fn lemma_sole_blocker_legs(
    occupied: Set<int>,
    s: int,
    file_step: int,
    rank_step: int,
    p: int,
    e: int,
)
    requires
        on_ray(s, file_step, rank_step, e),
        -1 <= file_step <= 1,
        -1 <= rank_step <= 1,
        occupied.contains(e),
        occupied.contains(p),
        between(s, e, p),
        forall|u: int| #[trigger] between(s, e, u) && u != p ==> !occupied.contains(u),
    ensures
        first_on_ray(occupied, s, file_step, rank_step, p),
        first_on_ray(occupied, p, file_step, rank_step, e),
{
    lemma_between_on_ray(s, file_step, rank_step, e, p);
    lemma_ray_extend(s, file_step, rank_step, p, e);
    assert forall|u: int| #[trigger]
        on_ray(s, file_step, rank_step, u) && distance(s, u) < distance(s, p) implies !occupied.contains(u) by {
        lemma_between_on_ray(s, file_step, rank_step, e, u);
        assert(between(s, e, u));
    }
    assert forall|u: int| #[trigger]
        on_ray(p, file_step, rank_step, u) && distance(p, u) < distance(p, e) implies !occupied.contains(u) by {
        lemma_ray_extend(s, file_step, rank_step, p, u);
        lemma_between_on_ray(s, file_step, rank_step, e, u);
        assert(between(s, e, u));
    }
}

} // verus!
