//! The moves of the pawns: captures, en-passant captures and pushes, found
//! for all pawns at once by shifting their bitboard.

use crate::attacks::Attacks;
use crate::base_structures::bitboard::{lemma_bit_zero_all, Bitboard};
use crate::base_structures::chess_move::Move;
use crate::base_structures::move_flags::MoveFlag;
use crate::base_structures::piece::Piece;
use crate::chess_board::ChessBoard;
use crate::geometry::{file_of, magnitude, on_board, pawn_attack, rank_of};
use crate::position::Position;
use super::pawn_laws::{
    legal_pawn_moves, lemma_pawn_moves_all_legal, lemma_pawn_moves_all_obey, masks_of, pawn_moves_of_the_rules,
};
use super::MoveGen;
use super::listing::{gather, lemma_gather_skip, promotion_flags, push_promotions, push_steps, step_moves};
use vstd::prelude::*;

verus! {

/// How far a capturing pawn moves in square indices: towards the a-file
/// (`left`) or the h-file, up the board for White, down for Black.
pub open spec fn capture_step(white: bool, left: bool) -> int {
    if white {
        if left {
            7
        } else {
            9
        }
    } else {
        if left {
            -9
        } else {
            -7
        }
    }
}

/// How far a pawn pushes in square indices.
pub open spec fn forward(white: bool) -> int {
    if white {
        8
    } else {
        -8
    }
}

/// The squares of one rank.
pub open spec fn rank_set(rank: int) -> Set<int> {
    Set::new(|s: int| on_board(s) && rank_of(s) == rank)
}

/// The rank from which a pawn of the colour promotes with its next step.
pub open spec fn promotion_rank(white: bool) -> int {
    if white {
        6
    } else {
        1
    }
}

/// The rank on which the pawns of the colour start.
pub open spec fn double_push_rank(white: bool) -> int {
    if white {
        1
    } else {
        6
    }
}

/// The pawn on `s` may capture to the given side: it is not on the edge
/// file of that side, the capture map holds the square it would land on,
/// and if it stands on a diagonal pin line, then so does a neighbour of it
/// along the diagonal of the capture.
pub open spec fn may_capture(
    white: bool,
    left: bool,
    pawns: Set<int>,
    capture_map: Set<int>,
    diagonal_pins: Set<int>,
    s: int,
) -> bool {
    let step = capture_step(white, left);
    let reach = magnitude(step);
    &&& pawns.contains(s)
    &&& file_of(s) != (if left {
        0int
    } else {
        7int
    })
    &&& capture_map.contains(s + step)
    &&& (diagonal_pins.contains(s) ==> diagonal_pins.contains(s - reach) || diagonal_pins.contains(
        s + reach,
    ))
}

/// The pawns that capture to the given side, those on the promotion rank
/// or the others.
pub open spec fn capturers(
    white: bool,
    left: bool,
    promoting: bool,
    pawns: Set<int>,
    capture_map: Set<int>,
    diagonal_pins: Set<int>,
    promotion_rank: Set<int>,
) -> Set<int> {
    Set::new(
        |s: int|
            may_capture(white, left, pawns, capture_map, diagonal_pins, s) && promotion_rank.contains(s)
                == promoting,
    )
}

/// The capturing pawn moves: plain captures to the left, plain captures to
/// the right, promoting captures to the left, promoting captures to the
/// right.
pub open spec fn pawn_captures(
    white: bool,
    pawns: Set<int>,
    capture_map: Set<int>,
    diagonal_pins: Set<int>,
    promotion_rank: Set<int>,
) -> Seq<Move> {
    step_moves(
        capturers(white, true, false, pawns, capture_map, diagonal_pins, promotion_rank),
        capture_step(white, true),
        seq![MoveFlag::Capture],
    ) + step_moves(
        capturers(white, false, false, pawns, capture_map, diagonal_pins, promotion_rank),
        capture_step(white, false),
        seq![MoveFlag::Capture],
    ) + step_moves(
        capturers(white, true, true, pawns, capture_map, diagonal_pins, promotion_rank),
        capture_step(white, true),
        promotion_flags(true),
    ) + step_moves(
        capturers(white, false, true, pawns, capture_map, diagonal_pins, promotion_rank),
        capture_step(white, false),
        promotion_flags(true),
    )
}

/// The pawn on `s` may push: if it stands on an orthogonal pin line, then
/// so does the square above or below it.
pub open spec fn may_push(pawns: Set<int>, orthogonal_pins: Set<int>, s: int) -> bool {
    &&& pawns.contains(s)
    &&& (orthogonal_pins.contains(s) ==> orthogonal_pins.contains(s - 8) || orthogonal_pins.contains(s + 8))
}

/// The pawns that push one square without promoting.
pub open spec fn single_pushers(
    white: bool,
    pawns: Set<int>,
    push_map: Set<int>,
    orthogonal_pins: Set<int>,
    promotion_rank: Set<int>,
) -> Set<int> {
    Set::new(
        |s: int|
            may_push(pawns, orthogonal_pins, s) && !promotion_rank.contains(s) && push_map.contains(
                s + forward(white),
            ),
    )
}

/// The pawns that push two squares: those on the double-push rank with an
/// empty square in front.
pub open spec fn double_pushers(
    white: bool,
    pawns: Set<int>,
    push_map: Set<int>,
    orthogonal_pins: Set<int>,
    double_push_rank: Set<int>,
    occupancy: Set<int>,
) -> Set<int> {
    Set::new(
        |s: int|
            may_push(pawns, orthogonal_pins, s) && double_push_rank.contains(s) && on_board(
                s + forward(white),
            ) && !occupancy.contains(s + forward(white)) && push_map.contains(s + 2 * forward(white)),
    )
}

/// The pawns that push one square and promote.
pub open spec fn promotion_pushers(
    white: bool,
    pawns: Set<int>,
    push_map: Set<int>,
    orthogonal_pins: Set<int>,
    promotion_rank: Set<int>,
) -> Set<int> {
    Set::new(
        |s: int|
            may_push(pawns, orthogonal_pins, s) && promotion_rank.contains(s) && push_map.contains(
                s + forward(white),
            ),
    )
}

/// The pushing pawn moves: single pushes, double pushes, promotions.
pub open spec fn pawn_pushes(
    white: bool,
    pawns: Set<int>,
    push_map: Set<int>,
    orthogonal_pins: Set<int>,
    promotion_rank: Set<int>,
    double_push_rank: Set<int>,
    occupancy: Set<int>,
) -> Seq<Move> {
    step_moves(
        single_pushers(white, pawns, push_map, orthogonal_pins, promotion_rank),
        forward(white),
        seq![MoveFlag::QuietMove],
    ) + step_moves(
        double_pushers(white, pawns, push_map, orthogonal_pins, double_push_rank, occupancy),
        2 * forward(white),
        seq![MoveFlag::DoublePush],
    ) + step_moves(
        promotion_pushers(white, pawns, push_map, orthogonal_pins, promotion_rank),
        forward(white),
        promotion_flags(false),
    )
}

/// The en-passant capture of the pawn on `s`.
pub open spec fn en_passant_move(position: Position, s: int) -> Move {
    Move::at(s, position.en_passant.index(), MoveFlag::EnPassant)
}

/// The en-passant capture of the pawn on `s` leaves the mover's king
/// unattacked.
pub open spec fn en_passant_safe(position: Position, s: int) -> bool {
    let after = position.apply(en_passant_move(position, s));
    !after.attacked(!position.white_to_move, after.king_square(position.white_to_move))
}

/// The en-passant capture of the pawn on a square, if it is safe.
pub open spec fn en_passant_each(position: Position) -> spec_fn(int) -> Seq<Move> {
    |s: int|
        if en_passant_safe(position, s) {
            seq![en_passant_move(position, s)]
        } else {
            Seq::empty()
        }
}

/// The pawns of the side to move among `attack_pawns` that attack the
/// en-passant square.
pub open spec fn en_passant_sources(position: Position, attack_pawns: Set<int>) -> Set<int> {
    Set::new(
        |s: int|
            attack_pawns.contains(s) && position.holds(s, position.white_to_move, Piece::Pawn) && pawn_attack(
                position.white_to_move,
                s,
                position.en_passant.index(),
            ),
    )
}

/// The en-passant captures: one for each pawn that attacks the en-passant
/// square, unless the capture would leave the mover's king attacked.
pub open spec fn en_passant_moves(position: Position, attack_pawns: Set<int>) -> Seq<Move> {
    gather(en_passant_sources(position, attack_pawns), en_passant_each(position), 0)
}

/// The pawns of the side to move that are not on one of the given lines.
pub open spec fn pawns_off(position: Position, lines: Set<int>) -> Set<int> {
    Set::new(|s: int| position.holds(s, position.white_to_move, Piece::Pawn) && !lines.contains(s))
}

/// The pawn moves of the side to move where pushes land on the squares of
/// `push_map` and captures on the squares of `capture_map`, whatever these
/// squares hold: captures, then en-passant captures, then, unless only
/// captures are asked for, pushes.
///
/// A pawn on an orthogonal pin line does not capture and a pawn on a
/// diagonal pin line does not push.
pub open spec fn pawn_moves_onto(
    position: Position,
    capture_only: bool,
    push_map: Set<int>,
    capture_map: Set<int>,
    diagonal_pins: Set<int>,
    orthogonal_pins: Set<int>,
) -> Seq<Move> {
    let white = position.white_to_move;
    pawn_captures(
        white,
        pawns_off(position, orthogonal_pins),
        capture_map,
        diagonal_pins,
        rank_set(promotion_rank(white)),
    ) + (if position.en_passant.is_valid() {
        en_passant_moves(position, pawns_off(position, orthogonal_pins))
    } else {
        Seq::empty()
    }) + (if capture_only {
        Seq::empty()
    } else {
        pawn_pushes(
            white,
            pawns_off(position, diagonal_pins),
            push_map,
            orthogonal_pins,
            rank_set(promotion_rank(white)),
            rank_set(double_push_rank(white)),
            position.occupancy(),
        )
    })
}

/// The squares of `push_map` on which a push lands: the empty ones.
pub open spec fn landing_pushes(position: Position, push_map: Set<int>) -> Set<int> {
    Set::new(|t: int| push_map.contains(t) && position.empty_at(t))
}

/// The squares of `capture_map` on which a capture lands: those that hold a
/// man of the other side that is not its king.
pub open spec fn landing_captures(position: Position, capture_map: Set<int>) -> Set<int> {
    Set::new(|t: int| capture_map.contains(t) && position.takeable(t))
}

/// The pawn moves of the side to move under the given restrictions:
/// captures, then en-passant captures, then, unless only captures are
/// asked for, pushes.
///
/// `push_map` and `capture_map` restrict where a push and a capture may
/// land, as the check does that the king is in. Within them a push lands on
/// an empty square only, and a capture only on a man of the other side that
/// is not its king.
pub open spec fn pawn_moves(
    position: Position,
    capture_only: bool,
    push_map: Set<int>,
    capture_map: Set<int>,
    diagonal_pins: Set<int>,
    orthogonal_pins: Set<int>,
) -> Seq<Move> {
    pawn_moves_onto(
        position,
        capture_only,
        landing_pushes(position, push_map),
        landing_captures(position, capture_map),
        diagonal_pins,
        orthogonal_pins,
    )
}

impl MoveGen {
    /// Appends the pawn moves of the side to move to `moves`.
    ///
    /// `push_map` and `capture_map` hold the squares on which a push and a
    /// capture may land as far as checks go: every square while the king is
    /// not in check. `diagonal_pins` and `ortographic_pins` hold the lines
    /// along which men are pinned to the king.
    ///
    /// Whatever the four hold, a listed push lands on an empty square and a
    /// listed capture takes a man of the other side that is not its king.
    /// Where they hold what the position gives, the list is that of the
    /// legal pawn moves, each once.
    pub fn generate_pawn_moves<const STM_WHITE: bool, const NSTM_WHITE: bool, const CAPTURE_ONLY: bool>(
        board: &ChessBoard,
        push_map: Bitboard,
        capture_map: Bitboard,
        diagonal_pins: Bitboard,
        ortographic_pins: Bitboard,
        moves: &mut Vec<Move>,
    )
        requires
            board.wf(),
            STM_WHITE == board@.white_to_move,
            NSTM_WHITE == !STM_WHITE,
        ensures
            final(moves)@ == old(moves)@ + pawn_moves(
                board@,
                CAPTURE_ONLY,
                push_map@,
                capture_map@,
                diagonal_pins@,
                ortographic_pins@,
            ),
            pawn_moves_of_the_rules(
                board@,
                CAPTURE_ONLY,
                pawn_moves(board@, CAPTURE_ONLY, push_map@, capture_map@, diagonal_pins@, ortographic_pins@),
            ),
            masks_of(board@, push_map@, capture_map@, diagonal_pins@, ortographic_pins@) ==> legal_pawn_moves(
                board@,
                CAPTURE_ONLY,
                pawn_moves(board@, CAPTURE_ONLY, push_map@, capture_map@, diagonal_pins@, ortographic_pins@),
            ),
    {
        proof {
            board.lemma_partition();
            lemma_pawn_moves_all_obey(
                board@,
                CAPTURE_ONLY,
                push_map@,
                capture_map@,
                diagonal_pins@,
                ortographic_pins@,
            );
            if masks_of(board@, push_map@, capture_map@, diagonal_pins@, ortographic_pins@) {
                lemma_pawn_moves_all_legal(
                    board@,
                    CAPTURE_ONLY,
                    push_map@,
                    capture_map@,
                    diagonal_pins@,
                    ortographic_pins@,
                );
            }
        }
        let ghost given_pushes = push_map@;
        let ghost given_captures = capture_map@;
        let promotion_rank = if STM_WHITE {
            Bitboard::rank(6)
        } else {
            Bitboard::rank(1)
        };
        let double_push_rank = if STM_WHITE {
            Bitboard::rank(1)
        } else {
            Bitboard::rank(6)
        };
        let pawns = board.get_piece_mask_for_side::<STM_WHITE>(Piece::Pawn);
        let enemy_king = board.get_piece_mask_for_side::<NSTM_WHITE>(Piece::King);
        let push_map = push_map.and(board.get_occupancy().inverse());
        let capture_map = capture_map.and(board.get_occupancy_for_side::<NSTM_WHITE>()).and(enemy_king.inverse());
        proof {
            assert(push_map@ =~= landing_pushes(board@, given_pushes));
            assert(capture_map@ =~= landing_captures(board@, given_captures));
        }

        let pushable_pawns = pawns.and(diagonal_pins.inverse());
        let attack_pawns = pawns.and(ortographic_pins.inverse());
        proof {
            assert(promotion_rank@ =~= rank_set(self::promotion_rank(STM_WHITE)));
            assert(double_push_rank@ =~= rank_set(self::double_push_rank(STM_WHITE)));
            assert(pushable_pawns@ =~= pawns_off(board@, diagonal_pins@));
            assert(attack_pawns@ =~= pawns_off(board@, ortographic_pins@));
        }
        let ghost start = moves@;

        handle_pawn_captures::<STM_WHITE>(attack_pawns, capture_map, diagonal_pins, promotion_rank, moves);
        let ghost captured = moves@;

        if !board.en_passant_square().is_null() {
            handle_en_passant::<STM_WHITE, NSTM_WHITE>(board, attack_pawns, moves)
        }
        let ghost taken = moves@;
        proof {
            assert(taken =~= captured + (if board@.en_passant.is_valid() {
                en_passant_moves(board@, pawns_off(board@, ortographic_pins@))
            } else {
                Seq::empty()
            }));
        }

        if CAPTURE_ONLY {
            proof {
                assert(taken + Seq::<Move>::empty() =~= taken);
            }
            return ;
        }
        handle_pawn_pushes::<STM_WHITE>(
            board,
            pushable_pawns,
            push_map,
            ortographic_pins,
            promotion_rank,
            double_push_rank,
            moves,
        );
    }
}

fn handle_pawn_pushes<const STM_WHITE: bool>(
    board: &ChessBoard,
    pushable_pawns: Bitboard,
    push_map: Bitboard,
    ortographic_pins: Bitboard,
    promotion_rank: Bitboard,
    double_push_rank: Bitboard,
    moves: &mut Vec<Move>,
)
    requires
        board.wf(),
    ensures
        final(moves)@ == old(moves)@ + pawn_pushes(
            STM_WHITE,
            pushable_pawns@,
            push_map@,
            ortographic_pins@,
            promotion_rank@,
            double_push_rank@,
            board@.occupancy(),
        ),
{
    let ghost given = pushable_pawns;
    let vertical_pins = ortographic_pins.and(ortographic_pins.shift_left(8));
    let vertical_pins = vertical_pins.or(vertical_pins.shift_right(8));
    let pinned_pawns = pushable_pawns.and(vertical_pins);
    let pushable_pawns = pushable_pawns.and(ortographic_pins.inverse()).or(pinned_pawns);
    let promotion_pawns = pushable_pawns.and(promotion_rank);
    let double_pushable_pawns = pushable_pawns.and(double_push_rank);

    let occupancy = board.get_occupancy();
    let empty_spaces = occupancy.inverse();
    let single_shifted_push_map = if STM_WHITE {
        push_map.shift_right(8)
    } else {
        push_map.shift_left(8)
    };
    let double_shifted_push_map = if STM_WHITE {
        push_map.shift_right(16)
    } else {
        push_map.shift_left(16)
    };
    let single_shifted_empty = if STM_WHITE {
        empty_spaces.shift_right(8)
    } else {
        empty_spaces.shift_left(8)
    };
    let step: i8 = if STM_WHITE {
        8
    } else {
        -8
    };
    let double_step: i8 = if STM_WHITE {
        16
    } else {
        -16
    };

    let single_push_pawns = pushable_pawns.and(promotion_pawns.inverse()).and(single_shifted_push_map);
    push_steps(single_push_pawns, step, MoveFlag::QuietMove, moves);

    let double_push_pawns = double_pushable_pawns.and(single_shifted_empty).and(double_shifted_push_map);
    push_steps(double_push_pawns, double_step, MoveFlag::DoublePush, moves);

    let promotion_pawns = promotion_pawns.and(single_shifted_push_map);
    push_promotions(promotion_pawns, step, false, moves);
    proof {
        assert(single_push_pawns@ =~= single_pushers(
            STM_WHITE,
            given@,
            push_map@,
            ortographic_pins@,
            promotion_rank@,
        ));
        assert(double_push_pawns@ =~= double_pushers(
            STM_WHITE,
            given@,
            push_map@,
            ortographic_pins@,
            double_push_rank@,
            occupancy@,
        ));
        assert(promotion_pawns@ =~= promotion_pushers(
            STM_WHITE,
            given@,
            push_map@,
            ortographic_pins@,
            promotion_rank@,
        ));
    }
}

fn handle_pawn_captures<const STM_WHITE: bool>(
    attack_pawns: Bitboard,
    capture_map: Bitboard,
    diagonal_pins: Bitboard,
    promotion_rank: Bitboard,
    moves: &mut Vec<Move>,
)
    ensures
        final(moves)@ == old(moves)@ + pawn_captures(
            STM_WHITE,
            attack_pawns@,
            capture_map@,
            diagonal_pins@,
            promotion_rank@,
        ),
{
    let shift_amount: u32 = if STM_WHITE {
        7
    } else {
        9
    };
    let left_pin = diagonal_pins.and(diagonal_pins.shift_left(shift_amount));
    let left_pin = left_pin.or(left_pin.shift_right(shift_amount));

    let shift_amount: u32 = if STM_WHITE {
        9
    } else {
        7
    };
    let right_pin = diagonal_pins.and(diagonal_pins.shift_left(shift_amount));
    let right_pin = right_pin.or(right_pin.shift_right(shift_amount));

    let left_shifted_captures = if STM_WHITE {
        capture_map.shift_right(7)
    } else {
        capture_map.shift_left(9)
    };
    let right_shifted_captures = if STM_WHITE {
        capture_map.shift_right(9)
    } else {
        capture_map.shift_left(7)
    };
    let left_step: i8 = if STM_WHITE {
        7
    } else {
        -9
    };
    let right_step: i8 = if STM_WHITE {
        9
    } else {
        -7
    };

    let left_attack_pawns = attack_pawns.and(diagonal_pins.inverse()).or(attack_pawns.and(left_pin)).and(
        Bitboard::file(0).inverse(),
    );
    let right_attack_pawns = attack_pawns.and(diagonal_pins.inverse()).or(attack_pawns.and(right_pin)).and(
        Bitboard::file(7).inverse(),
    );
    let left_promotion_pawns = left_attack_pawns.and(promotion_rank);
    let right_promotion_pawns = right_attack_pawns.and(promotion_rank);

    let left_capture_pawns = left_attack_pawns.and(left_promotion_pawns.inverse()).and(left_shifted_captures);
    push_steps(left_capture_pawns, left_step, MoveFlag::Capture, moves);

    let right_capture_pawns = right_attack_pawns.and(right_promotion_pawns.inverse()).and(
        right_shifted_captures,
    );
    push_steps(right_capture_pawns, right_step, MoveFlag::Capture, moves);

    let left_promotion_pawns = left_promotion_pawns.and(left_shifted_captures);
    push_promotions(left_promotion_pawns, left_step, true, moves);

    let right_promotion_pawns = right_promotion_pawns.and(right_shifted_captures);
    push_promotions(right_promotion_pawns, right_step, true, moves);
    proof {
        assert(left_capture_pawns@ =~= capturers(
            STM_WHITE,
            true,
            false,
            attack_pawns@,
            capture_map@,
            diagonal_pins@,
            promotion_rank@,
        ));
        assert(right_capture_pawns@ =~= capturers(
            STM_WHITE,
            false,
            false,
            attack_pawns@,
            capture_map@,
            diagonal_pins@,
            promotion_rank@,
        ));
        assert(left_promotion_pawns@ =~= capturers(
            STM_WHITE,
            true,
            true,
            attack_pawns@,
            capture_map@,
            diagonal_pins@,
            promotion_rank@,
        ));
        assert(right_promotion_pawns@ =~= capturers(
            STM_WHITE,
            false,
            true,
            attack_pawns@,
            capture_map@,
            diagonal_pins@,
            promotion_rank@,
        ));
    }
}

fn handle_en_passant<const STM_WHITE: bool, const NSTM_WHITE: bool>(
    board: &ChessBoard,
    attack_pawns: Bitboard,
    moves: &mut Vec<Move>,
)
    requires
        board.wf(),
        STM_WHITE == board@.white_to_move,
        NSTM_WHITE == !STM_WHITE,
        board@.en_passant.is_valid(),
    ensures
        final(moves)@ == old(moves)@ + en_passant_moves(board@, attack_pawns@),
{
    let target = board.en_passant_square();
    let pawns = Attacks::get_pawn_attacks_for_square::<NSTM_WHITE>(target).and(attack_pawns).and(
        board.get_piece_mask_for_side::<STM_WHITE>(Piece::Pawn),
    );
    let ghost sources = en_passant_sources(board@, attack_pawns@);
    let ghost each = en_passant_each(board@);
    let ghost start = moves@;
    proof {
        assert(pawns@ =~= sources);
    }
    let mut rest = pawns;
    let ghost mut low: int = 0;
    while rest.is_not_empty()
        invariant
            0 <= low <= 64,
            board.wf(),
            STM_WHITE == board@.white_to_move,
            NSTM_WHITE == !STM_WHITE,
            target == board@.en_passant,
            target.is_valid(),
            each == en_passant_each(board@),
            sources == pawns@,
            forall|s: int| pawns.contains(s) ==> board@.holds(s, board@.white_to_move, Piece::Pawn) && pawn_attack(
                board@.white_to_move,
                s,
                target.index(),
            ),
            forall|s: int| rest.contains(s) <==> pawns.contains(s) && low <= s,
            moves@ + gather(sources, each, low) == start + gather(sources, each, 0),
        decreases 64 - low,
    {
        let pawn_square = rest.pop_ls1b_square();
        let mut board_copy = *board;
        let new_mv = Move::from_squares(pawn_square, target, MoveFlag::EnPassant);
        board_copy.make_move(new_mv);

        let king_square = board_copy.get_king_square::<STM_WHITE>();
        let ghost before = moves@;
        if !board_copy.is_square_attacked::<STM_WHITE, NSTM_WHITE>(king_square) {
            moves.push(new_mv);
        }
        proof {
            lemma_gather_skip(sources, each, low, pawn_square.index());
            let tail = gather(sources, each, pawn_square.index() + 1);
            assert(moves@ =~= before + each(pawn_square.index()));
            assert(moves@ + tail =~= before + (each(pawn_square.index()) + tail));
            low = pawn_square.index() + 1;
        }
    }
    proof {
        lemma_bit_zero_all();
        lemma_gather_skip(sources, each, low, 64);
        assert(moves@ + Seq::<Move>::empty() =~= moves@);
    }
}

} // verus!
