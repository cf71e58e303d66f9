//! The squares that a piece attacks from a square, computed by walking the
//! board.

use crate::base_structures::bitboard::Bitboard;
use crate::base_structures::square::Square;
use crate::geometry::{
    between, clear, distance, file_gap, file_of, king_step, knight_step, lemma_between_on_ray,
    lemma_ray_sees, on_board, on_ray, pawn_attack, rank_gap, rank_of, ray_clear, ray_sees, same_diagonal,
    same_line, scaled,
};
use vstd::prelude::*;

verus! {

pub struct Attacks;

/// Adds to `mask` the square that lies the given files and ranks away from
/// `square`, if the board has such a square.
fn with_step(mask: Bitboard, square: Square, file_step: i8, rank_step: i8) -> (r: Bitboard)
    requires
        square.is_valid(),
        -2 <= file_step <= 2,
        -2 <= rank_step <= 2,
    ensures
        forall|t: int|
            r.contains(t) <==> mask.contains(t) || (on_board(t) && file_gap(square.index(), t) == file_step
                && rank_gap(square.index(), t) == rank_step),
{
    let file: i8 = square.get_file() as i8 + file_step;
    let rank: i8 = square.get_rank() as i8 + rank_step;
    if 0 <= file && file < 8 && 0 <= rank && rank < 8 {
        let target = Square::from_coords(rank as u8, file as u8);
        mask.or(Bitboard::from_square(target))
    } else {
        mask
    }
}

impl Attacks {
    /// The squares that a pawn of the given colour attacks from `square`.
    pub fn get_pawn_attacks_for_square<const WHITE: bool>(square: Square) -> (r: Bitboard)
        requires
            square.is_valid(),
        ensures
            forall|t: int| r.contains(t) <==> pawn_attack(WHITE, square.index(), t),
    {
        if WHITE {
            let mask = with_step(Bitboard::empty(), square, -1, 1);
            with_step(mask, square, 1, 1)
        } else {
            let mask = with_step(Bitboard::empty(), square, -1, -1);
            with_step(mask, square, 1, -1)
        }
    }

    /// The squares a knight's move away from `square`.
    pub fn get_knight_attacks_for_square(square: Square) -> (r: Bitboard)
        requires
            square.is_valid(),
        ensures
            forall|t: int| r.contains(t) <==> knight_step(square.index(), t),
    {
        let mask = with_step(Bitboard::empty(), square, -2, -1);
        let mask = with_step(mask, square, -2, 1);
        let mask = with_step(mask, square, -1, -2);
        let mask = with_step(mask, square, -1, 2);
        let mask = with_step(mask, square, 1, -2);
        let mask = with_step(mask, square, 1, 2);
        let mask = with_step(mask, square, 2, -1);
        with_step(mask, square, 2, 1)
    }

    /// The squares next to `square`.
    pub fn get_king_attacks_for_square(square: Square) -> (r: Bitboard)
        requires
            square.is_valid(),
        ensures
            forall|t: int| r.contains(t) <==> king_step(square.index(), t),
    {
        let mask = with_step(Bitboard::empty(), square, -1, -1);
        let mask = with_step(mask, square, -1, 0);
        let mask = with_step(mask, square, -1, 1);
        let mask = with_step(mask, square, 0, -1);
        let mask = with_step(mask, square, 0, 1);
        let mask = with_step(mask, square, 1, -1);
        let mask = with_step(mask, square, 1, 0);
        with_step(mask, square, 1, 1)
    }

    /// Walks from `square` in one direction until the edge of the board or
    /// the first occupied square. Returns the squares walked over, the
    /// occupied one included, and that occupied square, or the null square
    /// where the walk reached the edge.
    pub fn get_ray(square: Square, occupancy: Bitboard, file_step: i8, rank_step: i8) -> (r: (
        Bitboard,
        Square,
    ))
        requires
            square.is_valid(),
            -1 <= file_step <= 1,
            -1 <= rank_step <= 1,
            file_step != 0 || rank_step != 0,
        ensures
            forall|t: int|
                r.0.contains(t) <==> ray_sees(occupancy@, square.index(), file_step as int, rank_step as int, t),
            r.1.is_valid() ==> occupancy.contains(r.1.index()) && ray_sees(
                occupancy@,
                square.index(),
                file_step as int,
                rank_step as int,
                r.1.index(),
            ),
            !r.1.is_valid() ==> r.1 == Square::null() && forall|u: int| #[trigger]
                on_ray(square.index(), file_step as int, rank_step as int, u) ==> !occupancy.contains(u),
    {
        let ghost s = square.index();
        let ghost fs = file_step as int;
        let ghost rs = rank_step as int;
        let mut file: i8 = square.get_file() as i8 + file_step;
        let mut rank: i8 = square.get_rank() as i8 + rank_step;
        let mut mask = Bitboard::empty();
        let mut blocker = Square::null();
        let ghost mut k: int = 1;
        while blocker.is_null() && 0 <= file && file < 8 && 0 <= rank && rank < 8
            invariant
                square.is_valid(),
                s == square.index(),
                fs == file_step,
                rs == rank_step,
                -1 <= fs <= 1,
                -1 <= rs <= 1,
                fs != 0 || rs != 0,
                1 <= k <= 8,
                file == file_of(s) + scaled(fs, k),
                rank == rank_of(s) + scaled(rs, k),
                !blocker.is_valid() ==> blocker == Square::null(),
                !blocker.is_valid() ==> forall|u: int| #[trigger]
                    on_ray(s, fs, rs, u) && distance(s, u) < k ==> !occupancy.contains(u),
                !blocker.is_valid() ==> forall|t: int|
                    mask.contains(t) <==> on_ray(s, fs, rs, t) && distance(s, t) < k,
                blocker.is_valid() ==> on_ray(s, fs, rs, blocker.index()) && occupancy.contains(blocker.index())
                    && ray_clear(occupancy@, s, fs, rs, blocker.index()),
                blocker.is_valid() ==> forall|t: int|
                    mask.contains(t) <==> on_ray(s, fs, rs, t) && distance(s, t) <= distance(
                        s,
                        blocker.index(),
                    ),
            decreases
                    (if blocker.is_valid() {
                        0
                    } else {
                        9 - k
                    }),
        {
            let current = Square::from_coords(rank as u8, file as u8);
            proof {
                assert(on_ray(s, fs, rs, current.index()));
                assert(distance(s, current.index()) == k);
                assert forall|t: int| on_ray(s, fs, rs, t) && distance(s, t) == k implies t
                    == current.index() by {}
            }
            mask.set_bit(current);
            if occupancy.get_bit(current) {
                blocker = current;
            } else {
                file = file + file_step;
                rank = rank + rank_step;
                proof {
                    k = k + 1;
                }
            }
        }
        proof {
            if blocker.is_valid() {
                let b = blocker.index();
                assert forall|t: int| mask.contains(t) <==> ray_sees(occupancy@, s, fs, rs, t) by {
                    if on_ray(s, fs, rs, t) && distance(s, t) > distance(s, b) {
                        assert(!ray_clear(occupancy@, s, fs, rs, t));
                    }
                }
            } else {
                assert forall|u: int| #[trigger] on_ray(s, fs, rs, u) implies distance(s, u) < k by {}
            }
        }
        (mask, blocker)
    }

    /// The squares that a bishop attacks from `square` when the squares of
    /// `occupancy` hold pieces.
    pub fn get_bishop_attacks_for_square(square: Square, occupancy: Bitboard) -> (r: Bitboard)
        requires
            square.is_valid(),
        ensures
            forall|t: int|
                r.contains(t) <==> same_diagonal(square.index(), t) && clear(occupancy@, square.index(), t),
    {
        let north_east = Attacks::get_ray(square, occupancy, 1, 1).0;
        let north_west = Attacks::get_ray(square, occupancy, -1, 1).0;
        let south_east = Attacks::get_ray(square, occupancy, 1, -1).0;
        let south_west = Attacks::get_ray(square, occupancy, -1, -1).0;
        let r = north_east.or(north_west).or(south_east.or(south_west));
        proof {
            let s = square.index();
            assert forall|t: int| r.contains(t) <==> same_diagonal(s, t) && clear(occupancy@, s, t) by {
                if on_ray(s, 1, 1, t) {
                    lemma_between_on_ray(s, 1, 1, t, 0);
                    lemma_ray_sees(occupancy@, s, 1, 1, t);
                }
                if on_ray(s, -1, 1, t) {
                    lemma_between_on_ray(s, -1, 1, t, 0);
                    lemma_ray_sees(occupancy@, s, -1, 1, t);
                }
                if on_ray(s, 1, -1, t) {
                    lemma_between_on_ray(s, 1, -1, t, 0);
                    lemma_ray_sees(occupancy@, s, 1, -1, t);
                }
                if on_ray(s, -1, -1, t) {
                    lemma_between_on_ray(s, -1, -1, t, 0);
                    lemma_ray_sees(occupancy@, s, -1, -1, t);
                }
            }
        }
        r
    }

    /// The squares that a rook attacks from `square` when the squares of
    /// `occupancy` hold pieces.
    pub fn get_rook_attacks_for_square(square: Square, occupancy: Bitboard) -> (r: Bitboard)
        requires
            square.is_valid(),
        ensures
            forall|t: int|
                r.contains(t) <==> same_line(square.index(), t) && clear(occupancy@, square.index(), t),
    {
        let north = Attacks::get_ray(square, occupancy, 0, 1).0;
        let south = Attacks::get_ray(square, occupancy, 0, -1).0;
        let east = Attacks::get_ray(square, occupancy, 1, 0).0;
        let west = Attacks::get_ray(square, occupancy, -1, 0).0;
        let r = north.or(south).or(east.or(west));
        proof {
            let s = square.index();
            assert forall|t: int| r.contains(t) <==> same_line(s, t) && clear(occupancy@, s, t) by {
                if on_ray(s, 0, 1, t) {
                    lemma_between_on_ray(s, 0, 1, t, 0);
                    lemma_ray_sees(occupancy@, s, 0, 1, t);
                }
                if on_ray(s, 0, -1, t) {
                    lemma_between_on_ray(s, 0, -1, t, 0);
                    lemma_ray_sees(occupancy@, s, 0, -1, t);
                }
                if on_ray(s, 1, 0, t) {
                    lemma_between_on_ray(s, 1, 0, t, 0);
                    lemma_ray_sees(occupancy@, s, 1, 0, t);
                }
                if on_ray(s, -1, 0, t) {
                    lemma_between_on_ray(s, -1, 0, t, 0);
                    lemma_ray_sees(occupancy@, s, -1, 0, t);
                }
            }
        }
        r
    }

    /// The squares strictly between two squares of one line; no square
    /// where no line connects the two.
    pub fn get_between(a: Square, b: Square) -> (r: Bitboard)
        requires
            a.is_valid(),
            b.is_valid(),
        ensures
            forall|u: int| r.contains(u) <==> between(a.index(), b.index(), u),
    {
        let file_a: i8 = a.get_file() as i8;
        let file_b: i8 = b.get_file() as i8;
        let rank_a: i8 = a.get_rank() as i8;
        let rank_b: i8 = b.get_rank() as i8;
        let file_step: i8 = if file_b > file_a {
            1
        } else if file_b < file_a {
            -1
        } else {
            0
        };
        let rank_step: i8 = if rank_b > rank_a {
            1
        } else if rank_b < rank_a {
            -1
        } else {
            0
        };
        let file_way: i8 = if file_b > file_a {
            file_b - file_a
        } else {
            file_a - file_b
        };
        let rank_way: i8 = if rank_b > rank_a {
            rank_b - rank_a
        } else {
            rank_a - rank_b
        };
        if (file_step == 0 && rank_step == 0) || (file_step != 0 && rank_step != 0 && file_way != rank_way) {
            return Bitboard::empty();
        }
        let end = Bitboard::from_square(b);
        let walked = Attacks::get_ray(a, end, file_step, rank_step).0;
        let r = walked.and(end.inverse());
        proof {
            let s = a.index();
            let e = b.index();
            let fs = file_step as int;
            let rs = rank_step as int;
            assert(on_ray(s, fs, rs, e));
            assert forall|u: int| r.contains(u) <==> between(s, e, u) by {
                lemma_between_on_ray(s, fs, rs, e, u);
                if on_ray(s, fs, rs, u) {
                    if distance(s, u) > distance(s, e) {
                        assert(!ray_clear(end@, s, fs, rs, u));
                    }
                    if distance(s, u) == distance(s, e) {
                        assert(u == e);
                    }
                    if distance(s, u) < distance(s, e) {
                        assert(ray_clear(end@, s, fs, rs, u));
                    }
                }
            }
        }
        r
    }
}

} // verus!
