//! Lists of moves in the order in which the generator emits them: by
//! ascending square.

use crate::base_structures::bitboard::{lemma_bit_zero_all, Bitboard};
use crate::base_structures::chess_move::Move;
use crate::base_structures::move_flags::MoveFlag;
use crate::base_structures::square::Square;
use vstd::prelude::*;

verus! {

/// The moves of the members of `sources` from `low` upwards, member by
/// member in ascending order, where member `s` has the moves `each(s)`.
pub open spec fn gather(sources: Set<int>, each: spec_fn(int) -> Seq<Move>, low: int) -> Seq<Move>
    decreases 64 - low,
{
    if low >= 64 {
        Seq::empty()
    } else if sources.contains(low) {
        each(low) + gather(sources, each, low + 1)
    } else {
        gather(sources, each, low + 1)
    }
}

/// Squares that are no members contribute nothing.
pub proof fn lemma_gather_skip(sources: Set<int>, each: spec_fn(int) -> Seq<Move>, low: int, next: int)
    requires
        low <= next,
        forall|j: int| low <= j < next && j < 64 ==> !sources.contains(j),
    ensures
        gather(sources, each, low) == gather(sources, each, next),
    decreases next - low,
{
    if low < next {
        if low >= 64 {
            assert(gather(sources, each, next) == Seq::<Move>::empty());
        } else {
            lemma_gather_skip(sources, each, low + 1, next);
        }
    }
}

/// A move is listed exactly when a member has it.
pub proof fn lemma_gather_contains(
    sources: Set<int>,
    each: spec_fn(int) -> Seq<Move>,
    low: int,
    mv: Move,
)
    requires
        0 <= low,
    ensures
        gather(sources, each, low).contains(mv) <==> exists|s: int|
            low <= s < 64 && sources.contains(s) && #[trigger] each(s).contains(mv),
    decreases 64 - low,
{
    if low < 64 {
        lemma_gather_contains(sources, each, low + 1, mv);
        let rest = gather(sources, each, low + 1);
        if sources.contains(low) {
            let here = each(low);
            assert(gather(sources, each, low) == here + rest);
            if (here + rest).contains(mv) {
                let i = choose|i: int| 0 <= i < (here + rest).len() && (here + rest)[i] == mv;
                if i < here.len() {
                    assert(here[i] == mv);
                    assert(each(low).contains(mv));
                } else {
                    assert(rest[i - here.len()] == mv);
                    assert(rest.contains(mv));
                }
            }
            if here.contains(mv) {
                let i = choose|i: int| 0 <= i < here.len() && here[i] == mv;
                assert((here + rest)[i] == mv);
            }
            if rest.contains(mv) {
                let i = choose|i: int| 0 <= i < rest.len() && rest[i] == mv;
                assert((here + rest)[i + here.len()] == mv);
            }
        }
    } else {
        assert(gather(sources, each, low) == Seq::<Move>::empty());
    }
}

/// One move per flag, all with the same origin and destination.
pub open spec fn flagged(from: int, to: int, flags: Seq<MoveFlag>) -> Seq<Move> {
    Seq::new(flags.len(), |i: int| Move::at(from, to, flags[i]))
}

/// The moves of a square whose man steps by `delta`.
pub open spec fn step_each(delta: int, flags: Seq<MoveFlag>) -> spec_fn(int) -> Seq<Move> {
    |s: int| flagged(s, s + delta, flags)
}

/// For each member of `sources` in ascending order, the step by `delta`,
/// once per flag.
pub open spec fn step_moves(sources: Set<int>, delta: int, flags: Seq<MoveFlag>) -> Seq<Move> {
    gather(sources, step_each(delta, flags), 0)
}

/// The four flags of a promotion, in the order in which they are emitted.
pub open spec fn promotion_flags(capture: bool) -> Seq<MoveFlag> {
    if capture {
        seq![
            MoveFlag::KnightPromotionCapture,
            MoveFlag::BishopPromotionCapture,
            MoveFlag::RookPromotionCapture,
            MoveFlag::QueenPromotionCapture,
        ]
    } else {
        seq![
            MoveFlag::KnightPromotion,
            MoveFlag::BishopPromotion,
            MoveFlag::RookPromotion,
            MoveFlag::QueenPromotion,
        ]
    }
}

/// The flag of a move to `t`: a capture where `t` is among `captures`.
pub open spec fn landing_flag(captures: Set<int>, t: int) -> MoveFlag {
    if captures.contains(t) {
        MoveFlag::Capture
    } else {
        MoveFlag::QuietMove
    }
}

/// The move of the man on `from` to a square.
pub open spec fn target_each(from: int, captures: Set<int>) -> spec_fn(int) -> Seq<Move> {
    |t: int| seq![Move::at(from, t, landing_flag(captures, t))]
}

/// The moves of the man on `from` to each member of `targets`, in ascending
/// order; a move to a member of `captures` is a capture, any other a quiet
/// move.
pub open spec fn target_moves(from: int, targets: Set<int>, captures: Set<int>) -> Seq<Move> {
    gather(targets, target_each(from, captures), 0)
}

/// Appends, for each member of `sources` in ascending order, the step by
/// `delta` with the given flag.
pub(crate) fn push_steps(sources: Bitboard, delta: i8, flag: MoveFlag, moves: &mut Vec<Move>)
    requires
        forall|s: int| sources.contains(s) ==> 0 <= s + delta < 64,
    ensures
        final(moves)@ == old(moves)@ + step_moves(sources@, delta as int, seq![flag]),
{
    let ghost each = step_each(delta as int, seq![flag]);
    let ghost start = moves@;
    let mut rest = sources;
    let ghost mut low: int = 0;
    while rest.is_not_empty()
        invariant
            0 <= low <= 64,
            each == step_each(delta as int, seq![flag]),
            forall|s: int| sources.contains(s) ==> 0 <= s + delta < 64,
            forall|s: int| rest.contains(s) <==> sources.contains(s) && low <= s,
            moves@ + gather(sources@, each, low) == start + gather(sources@, each, 0),
        decreases 64 - low,
    {
        let from = rest.pop_ls1b_square();
        let to = Square::from_raw((from.get_raw() as i8 + delta) as u8);
        let ghost before = moves@;
        moves.push(Move::from_squares(from, to, flag));
        proof {
            lemma_gather_skip(sources@, each, low, from.index());
            let tail = gather(sources@, each, from.index() + 1);
            assert(each(from.index()) =~= seq![Move::at(from.index(), to.index(), flag)]);
            assert(moves@ + tail =~= before + (each(from.index()) + tail));
            low = from.index() + 1;
        }
    }
    proof {
        lemma_bit_zero_all();
        lemma_gather_skip(sources@, each, low, 64);
        assert(moves@ + Seq::<Move>::empty() =~= moves@);
    }
}

/// Appends, for each member of `sources` in ascending order, the step by
/// `delta` as a promotion to knight, bishop, rook and queen.
pub(crate) fn push_promotions(sources: Bitboard, delta: i8, capture: bool, moves: &mut Vec<Move>)
    requires
        forall|s: int| sources.contains(s) ==> 0 <= s + delta < 64,
    ensures
        final(moves)@ == old(moves)@ + step_moves(sources@, delta as int, promotion_flags(capture)),
{
    let ghost each = step_each(delta as int, promotion_flags(capture));
    let ghost start = moves@;
    let mut rest = sources;
    let ghost mut low: int = 0;
    while rest.is_not_empty()
        invariant
            0 <= low <= 64,
            each == step_each(delta as int, promotion_flags(capture)),
            forall|s: int| sources.contains(s) ==> 0 <= s + delta < 64,
            forall|s: int| rest.contains(s) <==> sources.contains(s) && low <= s,
            moves@ + gather(sources@, each, low) == start + gather(sources@, each, 0),
        decreases 64 - low,
    {
        let from = rest.pop_ls1b_square();
        let to = Square::from_raw((from.get_raw() as i8 + delta) as u8);
        let ghost before = moves@;
        if capture {
            moves.push(Move::from_squares(from, to, MoveFlag::KnightPromotionCapture));
            moves.push(Move::from_squares(from, to, MoveFlag::BishopPromotionCapture));
            moves.push(Move::from_squares(from, to, MoveFlag::RookPromotionCapture));
            moves.push(Move::from_squares(from, to, MoveFlag::QueenPromotionCapture));
        } else {
            moves.push(Move::from_squares(from, to, MoveFlag::KnightPromotion));
            moves.push(Move::from_squares(from, to, MoveFlag::BishopPromotion));
            moves.push(Move::from_squares(from, to, MoveFlag::RookPromotion));
            moves.push(Move::from_squares(from, to, MoveFlag::QueenPromotion));
        }
        proof {
            lemma_gather_skip(sources@, each, low, from.index());
            let tail = gather(sources@, each, from.index() + 1);
            assert(moves@ =~= before + each(from.index()));
            assert(moves@ + tail =~= before + (each(from.index()) + tail));
            low = from.index() + 1;
        }
    }
    proof {
        lemma_bit_zero_all();
        lemma_gather_skip(sources@, each, low, 64);
        assert(moves@ + Seq::<Move>::empty() =~= moves@);
    }
}

/// Appends the moves of the man on `from` to each member of `targets` in
/// ascending order, as captures where the member is in `captures`.
pub(crate) fn append_targets(from: Square, targets: Bitboard, captures: Bitboard, moves: &mut Vec<Move>)
    requires
        from.is_valid(),
    ensures
        final(moves)@ == old(moves)@ + target_moves(from.index(), targets@, captures@),
{
    let ghost each = target_each(from.index(), captures@);
    let ghost start = moves@;
    let mut rest = targets;
    let ghost mut low: int = 0;
    while rest.is_not_empty()
        invariant
            0 <= low <= 64,
            from.is_valid(),
            each == target_each(from.index(), captures@),
            forall|s: int| rest.contains(s) <==> targets.contains(s) && low <= s,
            moves@ + gather(targets@, each, low) == start + gather(targets@, each, 0),
        decreases 64 - low,
    {
        let to = rest.pop_ls1b_square();
        let flag = if captures.get_bit(to) {
            MoveFlag::Capture
        } else {
            MoveFlag::QuietMove
        };
        let ghost before = moves@;
        moves.push(Move::from_squares(from, to, flag));
        proof {
            lemma_gather_skip(targets@, each, low, to.index());
            let tail = gather(targets@, each, to.index() + 1);
            assert(moves@ =~= before + each(to.index()));
            assert(moves@ + tail =~= before + (each(to.index()) + tail));
            low = to.index() + 1;
        }
    }
    proof {
        lemma_bit_zero_all();
        lemma_gather_skip(targets@, each, low, 64);
        assert(moves@ + Seq::<Move>::empty() =~= moves@);
    }
}

} // verus!
