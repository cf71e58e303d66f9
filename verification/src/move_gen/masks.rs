//! What restricts the moves of the side to move: the men that give check
//! and the lines along which men are pinned to the king.

use crate::attacks::Attacks;
use crate::base_structures::bitboard::Bitboard;
use crate::base_structures::piece::Piece;
use crate::base_structures::square::Square;
use crate::chess_board::ChessBoard;
use crate::geometry::{
    between, file_gap, first_on_ray, lemma_aligned_on_ray, lemma_between_on_ray, lemma_first_on_ray_unique,
    lemma_sole_blocker_legs, lemma_two_legs, on_board, on_ray, rank_gap, same_diagonal, same_line, sign,
};
use crate::position::Position;
use super::MoveGen;
use vstd::prelude::*;

verus! {

/// The square of the king of the side to move.
pub open spec fn own_king(position: Position) -> int {
    position.king_square(position.white_to_move)
}

/// The man on `s` gives check.
pub open spec fn checker(position: Position, s: int) -> bool {
    position.attacks_from(s, !position.white_to_move, own_king(position), position.occupancy())
}

/// Two different men give check.
pub open spec fn double_check(position: Position) -> bool {
    exists|a: int, b: int| a != b && checker(position, a) && checker(position, b)
}

/// A man other than the king that lands on `t` answers every check: `t` is
/// the square of each checking man or lies between it and the king.
pub open spec fn answers_check(position: Position, t: int) -> bool {
    on_board(t) && forall|c: int| #[trigger]
        checker(position, c) ==> t == c || between(own_king(position), c, t)
}

/// The two squares lie on one line of the class: a diagonal, or a rank or
/// file.
pub open spec fn on_class(diagonal: bool, a: int, b: int) -> bool {
    if diagonal {
        same_diagonal(a, b)
    } else {
        same_line(a, b)
    }
}

/// The piece slides along the lines of the class.
pub open spec fn slides_along(piece: Piece, diagonal: bool) -> bool {
    if diagonal {
        piece.slides_diagonally()
    } else {
        piece.slides_orthogonally()
    }
}

/// The man on `p` belongs to the side to move and is the only man between
/// its king and `e`.
pub open spec fn sole_blocker(position: Position, e: int, p: int) -> bool {
    &&& between(own_king(position), e, p)
    &&& position.side_at(p, position.white_to_move)
    &&& forall|u: int| #[trigger] between(own_king(position), e, u) && u != p ==> position.empty_at(u)
}

/// The man on `e` pins a man to the king of the side to move along a line
/// of the class: it is an opposing slider of that class on such a line
/// through the king, and one man of the side to move and nothing else
/// stands between.
pub open spec fn pinner(position: Position, diagonal: bool, e: int) -> bool {
    &&& position.side_at(e, !position.white_to_move)
    &&& slides_along(position.squares[e].unwrap().piece, diagonal)
    &&& on_class(diagonal, own_king(position), e)
    &&& exists|p: int| sole_blocker(position, e, p)
}

/// `u` lies on a pin line of the class: between the king and a pinning
/// man, or on the square of that man.
pub open spec fn pin_line(position: Position, diagonal: bool, u: int) -> bool {
    exists|e: int| #[trigger] pinner(position, diagonal, e) && (u == e || between(own_king(position), e, u))
}

/// `u` lies on a pin line that leaves the king in the given direction.
pub open spec fn pin_on_ray(position: Position, diagonal: bool, file_step: int, rank_step: int, u: int) -> bool {
    exists|e: int| #[trigger]
        pinner(position, diagonal, e) && on_ray(own_king(position), file_step, rank_step, e) && (u == e
            || between(own_king(position), e, u))
}

/// Where a pin line leaves the king in a direction, the pinned man is the
/// first man met in that direction and the pinning man the second.
proof fn lemma_pin_legs(position: Position, diagonal: bool, file_step: int, rank_step: int, u: int) -> (pe: (
    int,
    int,
))
    requires
        pin_on_ray(position, diagonal, file_step, rank_step, u),
        -1 <= file_step <= 1,
        -1 <= rank_step <= 1,
    ensures
        first_on_ray(position.occupancy(), own_king(position), file_step, rank_step, pe.0),
        first_on_ray(position.occupancy(), pe.0, file_step, rank_step, pe.1),
        position.side_at(pe.0, position.white_to_move),
        pinner(position, diagonal, pe.1),
        u == pe.1 || between(own_king(position), pe.1, u),
{
    let k = own_king(position);
    let occupied = position.occupancy();
    let e = choose|e: int| #[trigger]
        pinner(position, diagonal, e) && on_ray(k, file_step, rank_step, e) && (u == e || between(k, e, u));
    let p = choose|p: int| sole_blocker(position, e, p);
    assert(occupied.contains(e));
    assert(occupied.contains(p));
    assert forall|x: int| #[trigger] between(k, e, x) && x != p implies !occupied.contains(x) by {
        assert(position.empty_at(x));
    }
    lemma_sole_blocker_legs(occupied, k, file_step, rank_step, p, e);
    (p, e)
}

/// The squares of a pin line in one direction from the king.
fn pin_ray(
    king: Square,
    occupancy: Bitboard,
    own: Bitboard,
    sliders: Bitboard,
    file_step: i8,
    rank_step: i8,
    Ghost(position): Ghost<Position>,
    Ghost(diagonal): Ghost<bool>,
) -> (r: Bitboard)
    requires
        position.squares.len() == 64,
        king.is_valid(),
        king.index() == own_king(position),
        -1 <= file_step <= 1,
        -1 <= rank_step <= 1,
        file_step != 0 || rank_step != 0,
        occupancy@ == position.occupancy(),
        forall|s: int| own.contains(s) <==> position.side_at(s, position.white_to_move),
        forall|s: int|
            sliders.contains(s) <==> position.side_at(s, !position.white_to_move) && slides_along(
                position.squares[s].unwrap().piece,
                diagonal,
            ),
        diagonal <==> file_step != 0 && rank_step != 0,
    ensures
        forall|u: int| r.contains(u) <==> pin_on_ray(position, diagonal, file_step as int, rank_step as int, u),
{
    let ghost k = king.index();
    let ghost fs = file_step as int;
    let ghost rs = rank_step as int;
    let ghost occupied = occupancy@;
    let (first_leg, blocker) = Attacks::get_ray(king, occupancy, file_step, rank_step);
    if blocker.is_null() || !own.get_bit(blocker) {
        proof {
            assert forall|u: int| !pin_on_ray(position, diagonal, fs, rs, u) by {
                if pin_on_ray(position, diagonal, fs, rs, u) {
                    let (p, e) = lemma_pin_legs(position, diagonal, fs, rs, u);
                    if blocker.is_valid() {
                        lemma_first_on_ray_unique(occupied, k, fs, rs, p, blocker.index());
                        assert(own.contains(p));
                    } else {
                        assert(on_ray(k, fs, rs, p));
                        assert(!occupancy.contains(p));
                    }
                }
            }
        }
        return Bitboard::empty();
    }
    let (second_leg, end) = Attacks::get_ray(blocker, occupancy, file_step, rank_step);
    if end.is_null() || !sliders.get_bit(end) {
        proof {
            assert forall|u: int| !pin_on_ray(position, diagonal, fs, rs, u) by {
                if pin_on_ray(position, diagonal, fs, rs, u) {
                    let (p, e) = lemma_pin_legs(position, diagonal, fs, rs, u);
                    lemma_first_on_ray_unique(occupied, k, fs, rs, p, blocker.index());
                    if end.is_valid() {
                        lemma_first_on_ray_unique(occupied, p, fs, rs, e, end.index());
                        assert(sliders.contains(e));
                    } else {
                        assert(on_ray(p, fs, rs, e));
                        assert(!occupancy.contains(e));
                    }
                }
            }
        }
        return Bitboard::empty();
    }
    let r = first_leg.or(second_leg);
    proof {
        let b = blocker.index();
        let e = end.index();
        lemma_two_legs(occupied, k, fs, rs, b, e);
        lemma_between_on_ray(k, fs, rs, e, b);
        assert(sole_blocker(position, e, b)) by {
            assert forall|u: int| #[trigger] between(k, e, u) && u != b implies position.empty_at(u) by {
                assert(!occupied.contains(u));
            }
        }
        assert(pinner(position, diagonal, e));
        assert forall|u: int| r.contains(u) <==> pin_on_ray(position, diagonal, fs, rs, u) by {
            if pin_on_ray(position, diagonal, fs, rs, u) {
                let (p, e2) = lemma_pin_legs(position, diagonal, fs, rs, u);
                lemma_first_on_ray_unique(occupied, k, fs, rs, p, b);
                lemma_first_on_ray_unique(occupied, b, fs, rs, e2, e);
                assert(u == e || between(k, e, u));
            }
            if r.contains(u) {
                assert(u == e || between(k, e, u));
            }
        }
    }
    r
}

/// The squares on which a man other than the king answers every check,
/// given the men that give check: every square where there is none; where
/// there is one, its square and the squares between it and the king; no
/// square where there are more.
pub(crate) fn get_check_mask<const STM_WHITE: bool>(board: &ChessBoard, checkers: Bitboard) -> (r: Bitboard)
    requires
        board.wf(),
        STM_WHITE == board@.white_to_move,
        forall|s: int| checkers.contains(s) <==> checker(board@, s),
        !double_check(board@),
    ensures
        forall|t: int| r.contains(t) <==> answers_check(board@, t),
{
    let ghost position = board@;
    if checkers.is_empty() {
        let r = Bitboard::full();
        proof {
            assert forall|t: int| r.contains(t) <==> answers_check(position, t) by {
                assert forall|c: int| #[trigger] checker(position, c) implies t == c || between(
                    own_king(position),
                    c,
                    t,
                ) by {
                    assert(checkers.contains(c));
                }
            }
        }
        return r;
    }
    let king = board.get_king_square::<STM_WHITE>();
    let giver = checkers.ls1b_square();
    let r = Attacks::get_between(king, giver).or(Bitboard::from_square(giver));
    proof {
        let g = giver.index();
        assert(checker(position, g));
        assert forall|t: int| r.contains(t) <==> answers_check(position, t) by {
            if r.contains(t) {
                assert forall|c: int| #[trigger] checker(position, c) implies t == c || between(
                    own_king(position),
                    c,
                    t,
                ) by {
                    if c != g {
                        assert(double_check(position));
                    }
                }
            }
        }
    }
    r
}

/// Whether more than one man gives check, given the men that give check.
pub(crate) fn is_double_check(checkers: Bitboard, Ghost(position): Ghost<Position>) -> (r: bool)
    requires
        forall|s: int| checkers.contains(s) <==> checker(position, s),
    ensures
        r == double_check(position),
{
    if checkers.is_empty() {
        proof {
            if double_check(position) {
                let (a, b) = choose|a: int, b: int| a != b && checker(position, a) && checker(position, b);
                assert(checkers.contains(a));
            }
        }
        return false;
    }
    let mut rest = checkers;
    let first = rest.pop_ls1b_square();
    let r = rest.is_not_empty();
    proof {
        if r {
            let other = choose|s: int| rest.contains(s);
            assert(checker(position, first.index()) && checker(position, other));
        } else {
            if double_check(position) {
                let (a, b) = choose|a: int, b: int| a != b && checker(position, a) && checker(position, b);
                assert(checkers.contains(a) && checkers.contains(b));
                assert(rest.contains(a) || rest.contains(b));
            }
        }
    }
    r
}

impl MoveGen {
    /// The men that give check to the side to move.
    pub fn get_checkers<const STM_WHITE: bool, const NSTM_WHITE: bool>(board: &ChessBoard) -> (r: Bitboard)
        requires
            board.wf(),
            STM_WHITE == board@.white_to_move,
            NSTM_WHITE == !STM_WHITE,
        ensures
            forall|s: int| r.contains(s) <==> checker(board@, s),
    {
        let king = board.get_king_square::<STM_WHITE>();
        let occupancy = board.get_occupancy();
        board.attackers_of::<NSTM_WHITE>(king, occupancy)
    }

    /// The pin lines of one class: the diagonal ones, or those along ranks
    /// and files.
    pub fn get_pins<const STM_WHITE: bool, const NSTM_WHITE: bool>(board: &ChessBoard, diagonal: bool) -> (r:
        Bitboard)
        requires
            board.wf(),
            STM_WHITE == board@.white_to_move,
            NSTM_WHITE == !STM_WHITE,
        ensures
            forall|u: int| r.contains(u) <==> pin_line(board@, diagonal, u),
    {
        let ghost position = board@;
        proof {
            board.lemma_partition();
        }
        let king = board.get_king_square::<STM_WHITE>();
        let occupancy = board.get_occupancy();
        let own = board.get_occupancy_for_side::<STM_WHITE>();
        let queens = board.get_piece_mask_for_side::<NSTM_WHITE>(Piece::Queen);
        let others = if diagonal {
            board.get_piece_mask_for_side::<NSTM_WHITE>(Piece::Bishop)
        } else {
            board.get_piece_mask_for_side::<NSTM_WHITE>(Piece::Rook)
        };
        let sliders = queens.or(others);
        proof {
            assert forall|s: int|
                sliders.contains(s) <==> position.side_at(s, !position.white_to_move) && slides_along(
                    position.squares[s].unwrap().piece,
                    diagonal,
                ) by {}
        }
        let r = if diagonal {
            let a = pin_ray(king, occupancy, own, sliders, 1, 1, Ghost(position), Ghost(diagonal));
            let b = pin_ray(king, occupancy, own, sliders, -1, 1, Ghost(position), Ghost(diagonal));
            let c = pin_ray(king, occupancy, own, sliders, 1, -1, Ghost(position), Ghost(diagonal));
            let d = pin_ray(king, occupancy, own, sliders, -1, -1, Ghost(position), Ghost(diagonal));
            a.or(b).or(c.or(d))
        } else {
            let a = pin_ray(king, occupancy, own, sliders, 0, 1, Ghost(position), Ghost(diagonal));
            let b = pin_ray(king, occupancy, own, sliders, 0, -1, Ghost(position), Ghost(diagonal));
            let c = pin_ray(king, occupancy, own, sliders, 1, 0, Ghost(position), Ghost(diagonal));
            let d = pin_ray(king, occupancy, own, sliders, -1, 0, Ghost(position), Ghost(diagonal));
            a.or(b).or(c.or(d))
        };
        proof {
            let k = king.index();
            assert forall|u: int| r.contains(u) <==> pin_line(position, diagonal, u) by {
                if pin_line(position, diagonal, u) {
                    let e = choose|e: int| #[trigger]
                        pinner(position, diagonal, e) && (u == e || between(k, e, u));
                    lemma_aligned_on_ray(k, e);
                    let fs = sign(file_gap(k, e));
                    let rs = sign(rank_gap(k, e));
                    assert(pin_on_ray(position, diagonal, fs, rs, u));
                }
            }
        }
        r
    }
}

} // verus!
