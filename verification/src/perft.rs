//! Counting the positions that a given number of moves leads to: the test
//! of a move generator against counts known from elsewhere.

use crate::base_structures::chess_move::Move;
use crate::chess_board::ChessBoard;
use crate::move_gen::MoveGen;
use crate::move_gen::exactness::lemma_generated_exactly_legal;
use crate::move_gen::laws::{lemma_generated_moves_fit, lemma_generated_moves_safe};
use crate::rules::legal;
use crate::move_gen::legal_moves;
use crate::position::Position;
use vstd::prelude::*;

verus! {

pub struct Perft;

/// A count as it is returned: the count itself, or the largest value of
/// the type where the count is beyond it.
pub open spec fn saturated(count: nat) -> u128 {
    if count > u128::MAX {
        u128::MAX
    } else {
        count as u128
    }
}

/// The number of lines of play that start with one of the given moves and
/// go on for `depth` more moves.
pub open spec fn nodes_below(position: Position, moves: Seq<Move>, depth: nat) -> nat
    decreases depth, moves.len() + 1,
{
    if moves.len() == 0 {
        0
    } else {
        nodes_below(position, moves.drop_last(), depth) + nodes(position.apply(moves.last()), depth)
    }
}

/// The number of lines of play of `depth` moves from the position: one
/// line of no moves; else, for each move of the generator's list, which
/// holds each legal move once, the lines of one move less from the
/// position that the move leads to.
pub open spec fn nodes(position: Position, depth: nat) -> nat
    decreases depth, 0nat,
{
    if depth == 0 {
        1
    } else {
        nodes_below(position, legal_moves(position, false), (depth - 1) as nat)
    }
}

/// Each move of the line is legal in the position in which it is made.
pub open spec fn playable(position: Position, line: Seq<Move>) -> bool
    decreases line.len(),
{
    line.len() == 0 || (legal(position, line[0]) && playable(position.apply(line[0]), line.drop_first()))
}

/// The position that a line of play leads to.
pub open spec fn after_line(position: Position, line: Seq<Move>) -> Position
    decreases line.len(),
{
    if line.len() == 0 {
        position
    } else {
        after_line(position.apply(line[0]), line.drop_first())
    }
}

/// Every position that legal moves lead to from a valid position is
/// valid: each side has exactly one king there, and once a move was made,
/// the king of the side that made the last one is not attacked.
pub proof fn lemma_line_keeps_invariants(position: Position, line: Seq<Move>)
    requires
        position.valid(),
        playable(position, line),
    ensures
        after_line(position, line).valid(),
        after_line(position, line).one_king(true),
        after_line(position, line).one_king(false),
        line.len() > 0 ==> !after_line(position, line).attacked(
            after_line(position, line).white_to_move,
            after_line(position, line).king_square(!after_line(position, line).white_to_move),
        ),
    decreases line.len(),
{
    if line.len() > 0 {
        lemma_generated_exactly_legal(position, line[0]);
        lemma_generated_moves_safe(position, false, line[0]);
        lemma_line_keeps_invariants(position.apply(line[0]), line.drop_first());
        if line.len() == 1 {
            assert(line.drop_first().len() == 0);
            assert(after_line(position, line) == position.apply(line[0]));
        }
    }
}

/// After each of the given moves there is one line of no moves.
pub proof fn lemma_leaves(position: Position, moves: Seq<Move>)
    ensures
        nodes_below(position, moves, 0) == moves.len(),
    decreases moves.len(),
{
    if moves.len() > 0 {
        lemma_leaves(position, moves.drop_last());
        assert(nodes(position.apply(moves.last()), 0) == 1);
        assert(nodes_below(position, moves, 0) == nodes_below(position, moves.drop_last(), 0) + nodes(
            position.apply(moves.last()),
            0,
        ));
    }
}

/// Counting the listed moves of a position gives the number of lines of
/// one move: counting in bulk at the last ply changes no count.
pub proof fn lemma_bulk_counting(position: Position)
    ensures
        nodes(position, 1) == legal_moves(position, false).len(),
{
    lemma_leaves(position, legal_moves(position, false));
}

/// The sum of two returned counts, returned.
fn add_counts(a: u128, b: u128, Ghost(x): Ghost<nat>, Ghost(y): Ghost<nat>) -> (r: u128)
    requires
        a == saturated(x),
        b == saturated(y),
    ensures
        r == saturated(x + y),
{
    if a > u128::MAX - b {
        u128::MAX
    } else {
        a + b
    }
}

fn perft_internal<const BULK: bool>(board: &ChessBoard, depth: u8) -> (r: u128)
    requires
        board.wf(),
    ensures
        r == saturated(nodes(board@, depth as nat)),
    decreases depth,
{
    if depth == 0 {
        return 1;
    }
    let moves = MoveGen::legal_moves(board);
    if BULK && depth == 1 {
        proof {
            lemma_bulk_counting(board@);
        }
        return moves.len() as u128;
    }
    let ghost below = (depth - 1) as nat;
    let mut node_count: u128 = 0;
    let mut i: usize = 0;
    while i < moves.len()
        invariant
            board.wf(),
            depth >= 1,
            below == depth - 1,
            moves@ == legal_moves(board@, false),
            0 <= i <= moves.len(),
            node_count == saturated(nodes_below(board@, moves@.take(i as int), below)),
        decreases moves.len() - i,
    {
        let mv = moves[i];
        proof {
            board.lemma_partition();
            lemma_generated_moves_fit(board@, false);
            assert(mv == legal_moves(board@, false)[i as int]);
        }
        let mut board_copy = *board;
        board_copy.make_move(mv);
        let result = perft_internal::<BULK>(&board_copy, depth - 1);
        let ghost so_far = nodes_below(board@, moves@.take(i as int), below);
        node_count = add_counts(node_count, result, Ghost(so_far), Ghost(nodes(board@.apply(mv), below)));
        proof {
            let next = moves@.take(i + 1);
            assert(next.drop_last() =~= moves@.take(i as int));
            assert(next.last() == mv);
        }
        i = i + 1;
    }
    proof {
        assert(moves@.take(moves.len() as int) =~= moves@);
    }
    node_count
}

impl Perft {
    /// The number of lines of play of `depth` moves from the position of
    /// the board, or the largest value of the type where there are more.
    /// With `BULK` the moves of the last ply are counted and not made; the
    /// count is the same.
    pub fn perft<const BULK: bool>(board: &ChessBoard, depth: u8) -> (r: u128)
        requires
            board.wf(),
        ensures
            r == saturated(nodes(board@, depth as nat)),
    {
        perft_internal::<BULK>(board, depth)
    }

    /// For each listed move of the position, in the generator's order, the
    /// move and the number of lines of play of `depth - 1` moves after it.
    pub fn split<const BULK: bool>(board: &ChessBoard, depth: u8) -> (r: Vec<(Move, u128)>)
        requires
            board.wf(),
            depth >= 1,
        ensures
            r.len() == legal_moves(board@, false).len(),
            forall|i: int|
                0 <= i < r.len() ==> (#[trigger] r[i]).0 == legal_moves(board@, false)[i] && r[i].1
                    == saturated(nodes(board@.apply(legal_moves(board@, false)[i]), (depth - 1) as nat)),
    {
        let moves = MoveGen::legal_moves(board);
        let mut counts: Vec<(Move, u128)> = Vec::new();
        let mut i: usize = 0;
        while i < moves.len()
            invariant
                board.wf(),
                depth >= 1,
                moves@ == legal_moves(board@, false),
                0 <= i <= moves.len(),
                counts.len() == i,
                forall|j: int|
                    0 <= j < i ==> (#[trigger] counts[j]).0 == moves[j] && counts[j].1 == saturated(
                        nodes(board@.apply(moves[j]), (depth - 1) as nat),
                    ),
            decreases moves.len() - i,
        {
            let mv = moves[i];
            proof {
                board.lemma_partition();
                lemma_generated_moves_fit(board@, false);
                assert(mv == legal_moves(board@, false)[i as int]);
            }
            let mut board_copy = *board;
            board_copy.make_move(mv);
            let result = perft_internal::<BULK>(&board_copy, depth - 1);
            counts.push((mv, result));
            i = i + 1;
        }
        counts
    }
}

} // verus!
