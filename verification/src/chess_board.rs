//! The executable board: twelve bitboards, the occupancy derived from
//! them, and the state that a game carries from move to move.

use crate::attacks::Attacks;
use crate::base_structures::bitboard::Bitboard;
use crate::base_structures::castle_rights::CastleRight;
use crate::base_structures::chess_move::Move;
use crate::base_structures::move_flags::MoveFlag;
use crate::base_structures::piece::{Man, Piece};
use crate::base_structures::side::Side;
use crate::base_structures::square::Square;
use crate::base_structures::zobrist::{
    castle_key, en_passant_key, lemma_placement_key_update, lemma_xor_swap, piece_key, placement_key,
    side_key, slot, state_key, ZobristKey,
};
use crate::bits::{bit, group_bits};
use crate::geometry::{between, clear, lemma_clear_symmetric, on_board};
use crate::position::{lemma_apply_valid, Position};
use vstd::prelude::*;

verus! {

/// A chess position in executable form.
///
/// The twelve bitboards stand in the order white pawn, knight, bishop,
/// rook, queen, king, then the same for black.
#[derive(Clone, Copy, Debug)]
pub struct ChessBoard {
    pieces: [Bitboard; 12],
    occupancy: [Bitboard; 2],
    side_to_move: Side,
    castle_rights: CastleRight,
    en_passant: Square,
    half_moves: u16,
    full_moves: u16,
    key: ZobristKey,
}

/// The man whose bitboard stands at position `i` of the twelve.
pub open spec fn man_of_slot(i: int) -> Man {
    Man { white: i < 6, piece: Piece::spec_from_index(i % 6) }
}

impl View for ChessBoard {
    type V = Position;

    closed spec fn view(&self) -> Position {
        Position {
            squares: self.placement(),
            white_to_move: self.side_to_move is White,
            castle_rights: self.castle_rights,
            en_passant: self.en_passant,
            half_moves: self.half_moves,
            full_moves: self.full_moves,
        }
    }
}

impl ChessBoard {
    /// Bitboard `i` has square `s`.
    spec fn has(self, i: int, s: int) -> bool {
        bit(self.pieces[i].0, s)
    }

    /// The man that the bitboards show on square `s`.
    #[verifier::opaque]
    spec fn man_at(self, s: int) -> Option<Man> {
        if self.has(0, s) {
            Some(Man { white: true, piece: Piece::Pawn })
        } else if self.has(1, s) {
            Some(Man { white: true, piece: Piece::Knight })
        } else if self.has(2, s) {
            Some(Man { white: true, piece: Piece::Bishop })
        } else if self.has(3, s) {
            Some(Man { white: true, piece: Piece::Rook })
        } else if self.has(4, s) {
            Some(Man { white: true, piece: Piece::Queen })
        } else if self.has(5, s) {
            Some(Man { white: true, piece: Piece::King })
        } else if self.has(6, s) {
            Some(Man { white: false, piece: Piece::Pawn })
        } else if self.has(7, s) {
            Some(Man { white: false, piece: Piece::Knight })
        } else if self.has(8, s) {
            Some(Man { white: false, piece: Piece::Bishop })
        } else if self.has(9, s) {
            Some(Man { white: false, piece: Piece::Rook })
        } else if self.has(10, s) {
            Some(Man { white: false, piece: Piece::Queen })
        } else if self.has(11, s) {
            Some(Man { white: false, piece: Piece::King })
        } else {
            None
        }
    }

    spec fn placement(self) -> Seq<Option<Man>> {
        Seq::new(64, |s: int| self.man_at(s))
    }

    /// No square is in two of the twelve bitboards, and the occupancy of a
    /// side is the union of its six.
    #[verifier::opaque]
    spec fn tidy(self) -> bool {
        &&& forall|i: int, s: int|
            0 <= i < 12 && #[trigger] self.has(i, s) ==> self.man_at(s) == Some(man_of_slot(i))
        &&& forall|s: int| #[trigger]
            bit(self.occupancy[0].0, s) <==> self.has(0, s) || self.has(1, s) || self.has(2, s) || self.has(3, s)
                || self.has(4, s) || self.has(5, s)
        &&& forall|s: int| #[trigger]
            bit(self.occupancy[1].0, s) <==> self.has(6, s) || self.has(7, s) || self.has(8, s) || self.has(9, s)
                || self.has(10, s) || self.has(11, s)
    }

    /// The bitboard of the given men.
    pub closed spec fn piece_mask(self, white: bool, piece: Piece) -> Bitboard {
        self.pieces[slot(white, piece)]
    }

    /// The stored occupancy of a side.
    pub closed spec fn side_mask(self, white: bool) -> Bitboard {
        self.occupancy[if white {
            0int
        } else {
            1int
        }]
    }

    /// The stored hash.
    pub closed spec fn hash(self) -> u64 {
        self.key.0
    }

    /// The hash that a position has: the folded keys of the placement and
    /// the keys of the state.
    pub open spec fn position_key(position: Position) -> u64 {
        placement_key(position.squares, 64) ^ state_key(
            position.white_to_move,
            position.castle_rights,
            position.en_passant,
        )
    }

    /// The invariants of a board: the bitboards partition the occupied
    /// squares, the occupancies are their unions, the position they show is
    /// valid, and the stored hash is the hash of that position.
    pub closed spec fn wf(self) -> bool {
        &&& self.tidy()
        &&& self@.valid()
        &&& self.key.0 == ChessBoard::position_key(self@)
    }

    proof fn lemma_holds(self, white: bool, piece: Piece, s: int)
        requires
            self.tidy(),
        ensures
            self@.holds(s, white, piece) <==> self.has(slot(white, piece), s),
            self@.squares.len() == 64,
            on_board(s) ==> self@.squares[s] == self.man_at(s),
    {
        reveal(ChessBoard::tidy);
        reveal(ChessBoard::man_at);
        if self.has(slot(white, piece), s) {
            assert(self.man_at(s) == Some(man_of_slot(slot(white, piece))));
        }
    }

    /// The bitboards of a well-formed board are pairwise disjoint; each
    /// side's occupancy is the union of its six; every member of a bitboard
    /// is a square where the position shows that man.
    pub proof fn lemma_partition(self)
        requires
            self.wf(),
        ensures
            self@.valid(),
            self.hash() == ChessBoard::position_key(self@),
            forall|white: bool, piece: Piece, s: int|
                self@.holds(s, white, piece) <==> #[trigger] self.piece_mask(white, piece).contains(s),
            forall|white: bool, piece: Piece, other_white: bool, other_piece: Piece, s: int|
                #[trigger] self.piece_mask(white, piece).contains(s) && #[trigger] self.piece_mask(
                    other_white,
                    other_piece,
                ).contains(s) ==> white == other_white && piece == other_piece,
            forall|white: bool, s: int|
                #[trigger] self.side_mask(white).contains(s) <==> exists|piece: Piece|
                    self.piece_mask(white, piece).contains(s),
            forall|white: bool, s: int| #[trigger] self.side_mask(white).contains(s) <==> self@.side_at(s, white),
            forall|s: int| #[trigger]
                self@.occupancy().contains(s) <==> self.side_mask(true).contains(s) || self.side_mask(
                    false,
                ).contains(s),
    {
        assert forall|white: bool, piece: Piece, s: int|
            self@.holds(s, white, piece) <==> #[trigger] self.piece_mask(white, piece).contains(s) by {
            self.lemma_holds(white, piece, s);
        }
        assert forall|white: bool, s: int| #[trigger]
            self.side_mask(white).contains(s) <==> self@.side_at(s, white) by {
            self.lemma_side(white, s);
        }
        assert forall|s: int| #[trigger]
            self@.occupancy().contains(s) <==> self.side_mask(true).contains(s) || self.side_mask(
                false,
            ).contains(s) by {
            self.lemma_side(true, s);
            self.lemma_side(false, s);
        }
        assert forall|white: bool, s: int| #[trigger]
            self.side_mask(white).contains(s) <==> exists|piece: Piece|
                self.piece_mask(white, piece).contains(s) by {
            self.lemma_side(white, s);
            if self@.side_at(s, white) {
                let piece = self@.squares[s].unwrap().piece;
                self.lemma_holds(white, piece, s);
                assert(self.piece_mask(white, piece).contains(s));
            }
            if exists|piece: Piece| self.piece_mask(white, piece).contains(s) {
                let piece = choose|piece: Piece| self.piece_mask(white, piece).contains(s);
                self.lemma_holds(white, piece, s);
            }
        }
    }

    /// Exactly one square is in the bitboard of the king of a side: the
    /// square of that king.
    pub proof fn lemma_one_king_bit(self, white: bool)
        requires
            self.wf(),
        ensures
            self@.holds(self@.king_square(white), white, Piece::King),
            forall|s: int| self.piece_mask(white, Piece::King).contains(s) <==> s == self@.king_square(white),
    {
        assert(self@.one_king(white));
        assert(self@.holds(self@.king_square(white), white, Piece::King));
        assert forall|s: int| self.piece_mask(white, Piece::King).contains(s) <==> s == self@.king_square(
            white,
        ) by {
            self.lemma_holds(white, Piece::King, s);
        }
    }

    proof fn lemma_side(self, white: bool, s: int)
        requires
            self.tidy(),
        ensures
            self.side_mask(white).contains(s) <==> self@.side_at(s, white),
    {
        reveal(ChessBoard::tidy);
        self.lemma_holds(white, Piece::Pawn, s);
        self.lemma_holds(white, Piece::Knight, s);
        self.lemma_holds(white, Piece::Bishop, s);
        self.lemma_holds(white, Piece::Rook, s);
        self.lemma_holds(white, Piece::Queen, s);
        self.lemma_holds(white, Piece::King, s);
    }

    /// The squares of the given men of one side.
    pub fn get_piece_mask_for_side<const WHITE: bool>(&self, piece: Piece) -> (r: Bitboard)
        requires
            self.wf(),
        ensures
            r == self.piece_mask(WHITE, piece),
            forall|s: int| r.contains(s) <==> self@.holds(s, WHITE, piece),
    {
        let base: usize = if WHITE {
            0
        } else {
            6
        };
        let r = self.pieces[base + piece.get_index()];
        proof {
            assert forall|s: int| r.contains(s) <==> self@.holds(s, WHITE, piece) by {
                self.lemma_holds(WHITE, piece, s);
            }
        }
        r
    }

    /// The squares that hold a man of one side.
    pub fn get_occupancy_for_side<const WHITE: bool>(&self) -> (r: Bitboard)
        requires
            self.wf(),
        ensures
            r == self.side_mask(WHITE),
            forall|s: int| r.contains(s) <==> self@.side_at(s, WHITE),
            r@ == self@.side_occupancy(WHITE),
    {
        let r = if WHITE {
            self.occupancy[0]
        } else {
            self.occupancy[1]
        };
        proof {
            assert forall|s: int| r.contains(s) <==> self@.side_at(s, WHITE) by {
                self.lemma_side(WHITE, s);
            }
            assert(r@ =~= self@.side_occupancy(WHITE));
        }
        r
    }

    /// The squares that hold a man.
    pub fn get_occupancy(&self) -> (r: Bitboard)
        requires
            self.wf(),
        ensures
            forall|s: int| r.contains(s) <==> self@.occupancy().contains(s),
            r@ == self@.occupancy(),
    {
        let r = self.occupancy[0].or(self.occupancy[1]);
        proof {
            assert forall|s: int| r.contains(s) <==> self@.occupancy().contains(s) by {
                self.lemma_side(true, s);
                self.lemma_side(false, s);
            }
            assert(r@ =~= self@.occupancy());
        }
        r
    }

    pub fn en_passant_square(&self) -> (r: Square)
        ensures
            r == self@.en_passant,
    {
        self.en_passant
    }

    pub fn side_to_move(&self) -> (r: Side)
        ensures
            r.is_white() == self@.white_to_move,
    {
        self.side_to_move
    }

    pub fn castle_rights(&self) -> (r: CastleRight)
        ensures
            r == self@.castle_rights,
    {
        self.castle_rights
    }

    pub fn half_move_counter(&self) -> (r: u16)
        ensures
            r == self@.half_moves,
    {
        self.half_moves
    }

    pub fn full_move_counter(&self) -> (r: u16)
        ensures
            r == self@.full_moves,
    {
        self.full_moves
    }

    /// The hash of the position.
    pub fn get_key(&self) -> (r: ZobristKey)
        requires
            self.wf(),
        ensures
            r.0 == ChessBoard::position_key(self@),
    {
        self.key
    }

    /// The man on a square.
    pub fn get_piece_on_square(&self, square: Square) -> (r: Option<Man>)
        requires
            self.wf(),
            square.is_valid(),
        ensures
            r == self@.squares[square.index()],
    {
        self.man_on(square)
    }

    /// The square of the king of one side.
    pub fn get_king_square<const WHITE: bool>(&self) -> (r: Square)
        requires
            self.wf(),
        ensures
            r.is_valid(),
            self@.holds(r.index(), WHITE, Piece::King),
            r.index() == self@.king_square(WHITE),
    {
        let kings = self.get_piece_mask_for_side::<WHITE>(Piece::King);
        proof {
            let k = self@.king_square(WHITE);
            assert(self@.one_king(WHITE));
            assert(kings.contains(k));
            crate::base_structures::bitboard::lemma_bit_zero_all();
        }
        let r = kings.ls1b_square();
        proof {
            assert(self@.holds(r.index(), WHITE, Piece::King));
            assert(self@.holds(self@.king_square(WHITE), WHITE, Piece::King));
        }
        r
    }

    /// The squares from which a man of the given colour attacks `square`
    /// when the squares of `occupancy` hold pieces.
    pub fn attackers_of<const ATTACKER_WHITE: bool>(&self, square: Square, occupancy: Bitboard) -> (r:
        Bitboard)
        requires
            self.wf(),
            square.is_valid(),
        ensures
            forall|s: int| r.contains(s) <==> self@.attacks_from(s, ATTACKER_WHITE, square.index(), occupancy@),
    {
        let pawn_origins = if ATTACKER_WHITE {
            Attacks::get_pawn_attacks_for_square::<false>(square)
        } else {
            Attacks::get_pawn_attacks_for_square::<true>(square)
        };
        let pawns = self.get_piece_mask_for_side::<ATTACKER_WHITE>(Piece::Pawn);
        let knights = self.get_piece_mask_for_side::<ATTACKER_WHITE>(Piece::Knight);
        let bishops = self.get_piece_mask_for_side::<ATTACKER_WHITE>(Piece::Bishop);
        let rooks = self.get_piece_mask_for_side::<ATTACKER_WHITE>(Piece::Rook);
        let queens = self.get_piece_mask_for_side::<ATTACKER_WHITE>(Piece::Queen);
        let kings = self.get_piece_mask_for_side::<ATTACKER_WHITE>(Piece::King);
        let diagonal = Attacks::get_bishop_attacks_for_square(square, occupancy);
        let straight = Attacks::get_rook_attacks_for_square(square, occupancy);
        let leapers = pawn_origins.and(pawns).or(Attacks::get_knight_attacks_for_square(square).and(knights)).or(
            Attacks::get_king_attacks_for_square(square).and(kings),
        );
        let sliders = diagonal.and(bishops.or(queens)).or(straight.and(rooks.or(queens)));
        let r = leapers.or(sliders);
        proof {
            let t = square.index();
            assert forall|s: int| r.contains(s) <==> self@.attacks_from(s, ATTACKER_WHITE, t, occupancy@) by {
                lemma_clear_symmetric(occupancy@, s, t);
                self.lemma_holds(ATTACKER_WHITE, Piece::Pawn, s);
            }
        }
        r
    }

    /// Some man of the given colour attacks `square` when the squares of
    /// `occupancy` hold pieces.
    pub fn is_square_attacked_with_occupancy<const ATTACKER_WHITE: bool>(
        &self,
        square: Square,
        occupancy: Bitboard,
    ) -> (r: bool)
        requires
            self.wf(),
            square.is_valid(),
        ensures
            r == self@.attacked_with(ATTACKER_WHITE, square.index(), occupancy@),
    {
        let attackers = self.attackers_of::<ATTACKER_WHITE>(square, occupancy);
        let r = attackers.is_not_empty();
        proof {
            if r {
                let s = choose|s: int| attackers.contains(s);
                assert(self@.attacks_from(s, ATTACKER_WHITE, square.index(), occupancy@));
            } else {
                let white = ATTACKER_WHITE;
                assert forall|s: int| !self@.attacks_from(s, white, square.index(), occupancy@) by {
                    assert(!attackers.contains(s));
                }
            }
        }
        r
    }

    /// Some man of the attacking colour attacks `square`, the king of the
    /// defending colour taken off the board: a slider attacks through the
    /// square that this king stands on, as it will once the king has
    /// stepped away. For the square of that king itself this is whether
    /// the king is attacked as the men stand.
    pub fn is_square_attacked<const DEFENDER_WHITE: bool, const ATTACKER_WHITE: bool>(
        &self,
        square: Square,
    ) -> (r: bool)
        requires
            self.wf(),
            square.is_valid(),
        ensures
            r == self@.attacked_with(
                ATTACKER_WHITE,
                square.index(),
                self@.occupancy().remove(self@.king_square(DEFENDER_WHITE)),
            ),
            square.index() == self@.king_square(DEFENDER_WHITE) ==> r == self@.attacked(
                ATTACKER_WHITE,
                square.index(),
            ),
    {
        let king = self.get_king_square::<DEFENDER_WHITE>();
        let occupancy = self.get_occupancy().and(Bitboard::from_square(king).inverse());
        proof {
            assert(occupancy@ =~= self@.occupancy().remove(king.index()));
            if square.index() == king.index() {
                lemma_target_blocks_nothing(self@, ATTACKER_WHITE, king.index());
            }
        }
        self.is_square_attacked_with_occupancy::<ATTACKER_WHITE>(square, occupancy)
    }

    /// Everything but the bitboards, the occupancies and the hash is the
    /// same in both boards.
    spec fn same_state(self, other: ChessBoard) -> bool {
        &&& self.side_to_move == other.side_to_move
        &&& self.castle_rights == other.castle_rights
        &&& self.en_passant == other.en_passant
        &&& self.half_moves == other.half_moves
        &&& self.full_moves == other.full_moves
    }

    /// The stored hash is the folded key of the placement combined with
    /// `state`.
    spec fn keyed(self, state: u64) -> bool {
        self.key.0 == placement_key(self.placement(), 64) ^ state
    }

    /// The board differs from `before` in one bitboard and one occupancy,
    /// each with `square` flipped.
    spec fn flipped(self, before: ChessBoard, white: bool, piece: Piece, square: int) -> bool {
        let mark = 1u64 << (square as u64);
        let side = if white {
            0int
        } else {
            1int
        };
        &&& self.pieces@ == before.pieces@.update(
            slot(white, piece),
            Bitboard(before.pieces[slot(white, piece)].0 ^ mark),
        )
        &&& self.occupancy@ == before.occupancy@.update(side, Bitboard(before.occupancy[side].0 ^ mark))
        &&& self.key.0 == before.key.0 ^ piece_key(white, piece, square)
        &&& self.same_state(before)
    }

    fn flip_man(&mut self, white: bool, piece: Piece, square: Square)
        requires
            square.is_valid(),
        ensures
            final(self).flipped(*old(self), white, piece, square.index()),
    {
        let base: usize = if white {
            0
        } else {
            6
        };
        let side: usize = if white {
            0
        } else {
            1
        };
        let mark = Bitboard::from_square(square);
        let index = base + piece.get_index();
        self.pieces[index] = self.pieces[index].xor(mark);
        self.occupancy[side] = self.occupancy[side].xor(mark);
        self.key.update_piece_hash(white, piece, square);
    }

    proof fn lemma_flipped_bits(self, before: ChessBoard, white: bool, piece: Piece, square: int)
        requires
            on_board(square),
            self.flipped(before, white, piece, square),
        ensures
            forall|i: int, s: int|
                0 <= i < 12 ==> (#[trigger] self.has(i, s) <==> (if i == slot(white, piece) && s == square {
                    !before.has(i, s)
                } else {
                    before.has(i, s)
                })),
            forall|s: int| #[trigger]
                bit(self.occupancy[0].0, s) <==> (if white && s == square {
                    !bit(before.occupancy[0].0, s)
                } else {
                    bit(before.occupancy[0].0, s)
                }),
            forall|s: int| #[trigger]
                bit(self.occupancy[1].0, s) <==> (if !white && s == square {
                    !bit(before.occupancy[1].0, s)
                } else {
                    bit(before.occupancy[1].0, s)
                }),
    {
        broadcast use group_bits;

        let mark = 1u64 << (square as u64);
        assert forall|i: int, s: int| 0 <= i < 12 implies (#[trigger] self.has(i, s) <==> (if i == slot(
            white,
            piece,
        ) && s == square {
            !before.has(i, s)
        } else {
            before.has(i, s)
        })) by {
            if i == slot(white, piece) {
                assert(self.pieces[i].0 == before.pieces[i].0 ^ mark);
            } else {
                assert(self.pieces[i] == before.pieces[i]);
            }
        }
    }

    proof fn lemma_removed(self, before: ChessBoard, white: bool, piece: Piece, square: int, state: u64)
        requires
            on_board(square),
            before.tidy(),
            before.keyed(state),
            before.man_at(square) == Some(Man { white, piece }),
            self.flipped(before, white, piece, square),
        ensures
            self.tidy(),
            self.keyed(state),
            self.placement() == before.placement().update(square, None),
    {
        reveal(ChessBoard::tidy);
        reveal(ChessBoard::man_at);
        self.lemma_flipped_bits(before, white, piece, square);
        assert(before.has(slot(white, piece), square));
        assert forall|s: int| 0 <= s < 64 implies self.man_at(s) == (if s == square {
            None
        } else {
            before.man_at(s)
        }) by {
            if s == square {
                assert forall|i: int| 0 <= i < 12 implies !self.has(i, s) by {
                    if before.has(i, s) {
                        assert(before.man_at(s) == Some(man_of_slot(i)));
                    }
                }
            }
        }
        assert(self.placement() =~= before.placement().update(square, None));
        assert forall|i: int, s: int| 0 <= i < 12 && #[trigger] self.has(i, s) implies self.man_at(s)
            == Some(man_of_slot(i)) by {
            assert(before.has(i, s));
            if s == square {
                assert(before.man_at(s) == Some(man_of_slot(i)));
            } else if 0 <= s < 64 {
            }
        }
        lemma_placement_key_update(before.placement(), square, None, 64);
        let k = piece_key(white, piece, square);
        lemma_xor_swap(placement_key(before.placement(), 64), state, k, 0);
        lemma_xor_swap((placement_key(before.placement(), 64) ^ state) ^ k, 0, 0, 0);
    }

    proof fn lemma_added(self, before: ChessBoard, white: bool, piece: Piece, square: int, state: u64)
        requires
            on_board(square),
            before.tidy(),
            before.keyed(state),
            before.man_at(square) is None,
            self.flipped(before, white, piece, square),
        ensures
            self.tidy(),
            self.keyed(state),
            self.placement() == before.placement().update(square, Some(Man { white, piece })),
    {
        reveal(ChessBoard::tidy);
        reveal(ChessBoard::man_at);
        self.lemma_flipped_bits(before, white, piece, square);
        assert forall|i: int| 0 <= i < 12 implies !before.has(i, square) by {
            if before.has(i, square) {
                assert(before.man_at(square) == Some(man_of_slot(i)));
            }
        }
        assert(self.has(slot(white, piece), square));
        assert forall|s: int| 0 <= s < 64 implies self.man_at(s) == (if s == square {
            Some(Man { white, piece })
        } else {
            before.man_at(s)
        }) by {}
        assert(self.placement() =~= before.placement().update(square, Some(Man { white, piece })));
        assert forall|i: int, s: int| 0 <= i < 12 && #[trigger] self.has(i, s) implies self.man_at(s)
            == Some(man_of_slot(i)) by {
            if s == square {
            } else {
                assert(before.has(i, s));
            }
        }
        lemma_placement_key_update(before.placement(), square, Some(Man { white, piece }), 64);
        let k = piece_key(white, piece, square);
        lemma_xor_swap(placement_key(before.placement(), 64), state, 0, k);
        lemma_xor_swap(placement_key(before.placement(), 64) ^ state, 0, 0, 0);
    }

    /// Takes a man off its square.
    fn remove_man(&mut self, white: bool, piece: Piece, square: Square, Ghost(state): Ghost<u64>)
        requires
            square.is_valid(),
            old(self).tidy(),
            old(self).keyed(state),
            old(self).man_at(square.index()) == Some(Man { white, piece }),
        ensures
            final(self).tidy(),
            final(self).keyed(state),
            final(self).placement() == old(self).placement().update(square.index(), None),
            final(self).same_state(*old(self)),
    {
        let ghost before = *self;
        self.flip_man(white, piece, square);
        proof {
            self.lemma_removed(before, white, piece, square.index(), state);
        }
    }

    /// Sets a man on an empty square.
    fn put_man(&mut self, white: bool, piece: Piece, square: Square, Ghost(state): Ghost<u64>)
        requires
            square.is_valid(),
            old(self).tidy(),
            old(self).keyed(state),
            old(self).man_at(square.index()) is None,
        ensures
            final(self).tidy(),
            final(self).keyed(state),
            final(self).placement() == old(self).placement().update(
                square.index(),
                Some(Man { white, piece }),
            ),
            final(self).same_state(*old(self)),
    {
        let ghost before = *self;
        self.flip_man(white, piece, square);
        proof {
            self.lemma_added(before, white, piece, square.index(), state);
        }
    }

    /// The man that the bitboards show on a square.
    fn man_on(&self, square: Square) -> (r: Option<Man>)
        requires
            square.is_valid(),
        ensures
            r == self.man_at(square.index()),
    {
        reveal(ChessBoard::man_at);
        let mut i: usize = 0;
        let mut found: Option<Man> = None;
        while i < 12 && found.is_none()
            invariant
                square.is_valid(),
                0 <= i <= 12,
                found.is_none() ==> forall|j: int| 0 <= j < i ==> !self.has(j, square.index()),
                found.is_some() ==> found == self.man_at(square.index()),
            decreases 12 - i + (if found.is_none() {
                1int
            } else {
                0int
            }),
        {
            proof {
                reveal(ChessBoard::man_at);
            }
            if self.pieces[i].get_bit(square) {
                let white = i < 6;
                let piece = Piece::from_index(i % 6);
                found = Some(Man { white, piece });
            } else {
                i = i + 1;
            }
        }
        found
    }

    /// The placement once the man that the move takes is gone.
    spec fn squares_taken(position: Position, mv: Move) -> Seq<Option<Man>> {
        if mv.flag() is EnPassant {
            position.squares.update(
                if position.white_to_move {
                    mv.to() - 8
                } else {
                    mv.to() + 8
                },
                None,
            )
        } else if mv.flag().spec_is_capture() {
            position.squares.update(mv.to(), None)
        } else {
            position.squares
        }
    }

    /// Removes the man that the move takes, if it takes one.
    fn take_victim(&mut self, mv: Move, Ghost(state): Ghost<u64>)
        requires
            old(self).wf(),
            old(self)@.applicable(mv),
            old(self).keyed(state),
        ensures
            final(self).tidy(),
            final(self).keyed(state),
            final(self).same_state(*old(self)),
            final(self).placement() == ChessBoard::squares_taken(old(self)@, mv),
    {
        let to = mv.get_to_square();
        let flag = mv.get_flag();
        let white = self.side_to_move.is_white();
        match flag {
            MoveFlag::EnPassant => {
                let victim = Square::from_raw(
                    if white {
                        to.get_raw() - 8
                    } else {
                        to.get_raw() + 8
                    },
                );
                self.remove_man(!white, Piece::Pawn, victim, Ghost(state));
            },
            _ => {
                if flag.is_capture() {
                    match self.man_on(to) {
                        Some(man) => {
                            self.remove_man(!white, man.piece, to, Ghost(state));
                        },
                        None => {},
                    }
                }
            },
        }
    }

    /// Moves a man from a square to an empty square, as the given kind.
    fn relocate(&mut self, white: bool, piece: Piece, placed: Piece, from: Square, to: Square, Ghost(state): Ghost<u64>)
        requires
            from.is_valid(),
            to.is_valid(),
            from != to,
            old(self).tidy(),
            old(self).keyed(state),
            old(self).man_at(from.index()) == Some(Man { white, piece }),
            old(self).man_at(to.index()) is None,
        ensures
            final(self).tidy(),
            final(self).keyed(state),
            final(self).same_state(*old(self)),
            final(self).placement() == old(self).placement().update(from.index(), None).update(
                to.index(),
                Some(Man { white, piece: placed }),
            ),
    {
        assert(old(self).placement()[to.index()] == old(self).man_at(to.index()));
        self.remove_man(white, piece, from, Ghost(state));
        assert(self.placement()[to.index()] == self.man_at(to.index()));
        self.put_man(white, placed, to, Ghost(state));
    }

    /// Changes where the men stand as the move says.
    fn move_men(&mut self, mv: Move, Ghost(state): Ghost<u64>) -> (piece: Piece)
        requires
            old(self).wf(),
            old(self)@.applicable(mv),
            old(self).keyed(state),
        ensures
            final(self).tidy(),
            final(self).keyed(state),
            final(self).same_state(*old(self)),
            final(self).placement() == old(self)@.squares_after(mv),
            old(self)@.squares[mv.from()] == Some(Man { white: old(self)@.white_to_move, piece }),
    {
        let ghost pos = self@;
        let from = mv.get_from_square();
        let to = mv.get_to_square();
        let flag = mv.get_flag();
        let white = self.side_to_move.is_white();
        let piece = match self.man_on(from) {
            Some(man) => man.piece,
            None => Piece::Pawn,
        };
        self.take_victim(mv, Ghost(state));
        let placed = match flag.promotion() {
            Some(promoted) => promoted,
            None => piece,
        };
        let ghost taken = self.placement();
        assert(taken[from.index()] == Some(Man { white, piece }));
        assert(taken[to.index()] is None);
        self.relocate(white, piece, placed, from, to, Ghost(state));
        let ghost moved = self.placement();
        match flag {
            MoveFlag::KingSideCastle => {
                let rook_from = Square::from_raw(to.get_raw() + 1);
                let rook_to = Square::from_raw(to.get_raw() - 1);
                assert(moved[rook_from.index()] == Some(Man { white, piece: Piece::Rook }));
                assert(moved[rook_to.index()] is None);
                self.relocate(white, Piece::Rook, Piece::Rook, rook_from, rook_to, Ghost(state));
            },
            MoveFlag::QueenSideCastle => {
                let rook_from = Square::from_raw(to.get_raw() - 2);
                let rook_to = Square::from_raw(to.get_raw() + 1);
                assert(moved[rook_from.index()] == Some(Man { white, piece: Piece::Rook }));
                assert(moved[rook_to.index()] is None);
                self.relocate(white, Piece::Rook, Piece::Rook, rook_from, rook_to, Ghost(state));
            },
            _ => {},
        }
        assert(self.placement() =~= pos.squares_after(mv));
        piece
    }

    /// What the bitboards show depends on the bitboards alone.
    proof fn lemma_same_men(self, other: ChessBoard)
        requires
            self.pieces == other.pieces,
            self.occupancy == other.occupancy,
        ensures
            self.placement() == other.placement(),
            self.tidy() == other.tidy(),
    {
        reveal(ChessBoard::tidy);
        reveal(ChessBoard::man_at);
        assert(self.placement() =~= other.placement());
        assert forall|i: int, s: int| self.has(i, s) == other.has(i, s) by {}
    }

    /// Revokes rights, sets the en-passant square, advances the counters
    /// and passes the turn.
    fn pass_turn(&mut self, mv: Move, piece: Piece, Ghost(before): Ghost<Position>)
        requires
            before.valid(),
            before.applicable(mv),
            before.squares[mv.from()] == Some(Man { white: before.white_to_move, piece }),
            old(self).tidy(),
            old(self).keyed(state_key(before.white_to_move, before.castle_rights, before.en_passant)),
            old(self).placement() == before.squares_after(mv),
            old(self)@.white_to_move == before.white_to_move,
            old(self)@.castle_rights == before.castle_rights,
            old(self)@.en_passant == before.en_passant,
            old(self)@.half_moves == before.half_moves,
            old(self)@.full_moves == before.full_moves,
        ensures
            final(self).wf(),
            final(self)@ == before.apply(mv),
    {
        let from = mv.get_from_square();
        let to = mv.get_to_square();
        let flag = mv.get_flag();
        let white = self.side_to_move.is_white();
        let ghost placed_key = placement_key(self.placement(), 64);

        let old_rights = self.castle_rights;
        let rights = CastleRight::from_raw(
            old_rights.get_value() & !(CastleRight::rook_mask(from).get_value() | CastleRight::rook_mask(
                to,
            ).get_value()),
        );
        self.key.update_castle_rights_hash(old_rights);
        self.key.update_castle_rights_hash(rights);
        self.castle_rights = rights;

        let old_en_passant = self.en_passant;
        let en_passant = if flag == MoveFlag::DoublePush {
            Square::from_raw((from.get_raw() + to.get_raw()) / 2)
        } else {
            Square::null()
        };
        self.key.update_en_passant_hash(old_en_passant);
        self.key.update_en_passant_hash(en_passant);
        self.en_passant = en_passant;

        self.key.update_side_to_move_hash();
        self.side_to_move = self.side_to_move.flipped();

        if piece == Piece::Pawn || flag.is_capture() {
            self.half_moves = 0;
        } else if self.half_moves < 0xffff {
            self.half_moves = self.half_moves + 1;
        }
        if !white && self.full_moves < 0xffff {
            self.full_moves = self.full_moves + 1;
        }
        proof {
            self.lemma_same_men(*old(self));
            lemma_apply_valid(before, mv);
            let side_before = if before.white_to_move {
                0u64
            } else {
                side_key()
            };
            lemma_state_key(
                placed_key,
                side_before,
                castle_key(old_rights),
                en_passant_key(old_en_passant),
                castle_key(rights),
                en_passant_key(en_passant),
                side_key(),
            );
            let after = before.apply(mv);
            assert(self@.squares == after.squares);
            assert(self@.white_to_move == after.white_to_move);
            assert(self@.castle_rights == after.castle_rights);
            assert(self@.en_passant == after.en_passant);
            assert(self@.half_moves == after.half_moves);
            assert(self@.full_moves == after.full_moves);
            assert(self@ == after);
            assert(self.key.0 == ChessBoard::position_key(after));
        }
    }

    /// The given man stands on the square.
    fn shows(&self, square: Square, white: bool, piece: Piece) -> (r: bool)
        requires
            self.tidy(),
            square.is_valid(),
        ensures
            r == self@.holds(square.index(), white, piece),
    {
        proof {
            self.lemma_holds(white, piece, square.index());
        }
        let base: usize = if white {
            0
        } else {
            6
        };
        self.pieces[base + piece.get_index()].get_bit(square)
    }

    /// No man stands on the square.
    fn vacant(&self, square: Square) -> (r: bool)
        requires
            self.tidy(),
            square.is_valid(),
        ensures
            r == self@.empty_at(square.index()),
    {
        proof {
            self.lemma_side(true, square.index());
            self.lemma_side(false, square.index());
        }
        !self.occupancy[0].get_bit(square) && !self.occupancy[1].get_bit(square)
    }

    fn has_one_king(&self, white: bool) -> (r: bool)
        requires
            self.tidy(),
        ensures
            r == self@.one_king(white),
    {
        let base: usize = if white {
            0
        } else {
            6
        };
        let mut kings = self.pieces[base + 5];
        let ghost all = kings;
        proof {
            assert forall|s: int| all.contains(s) <==> self@.holds(s, white, Piece::King) by {
                self.lemma_holds(white, Piece::King, s);
            }
        }
        if kings.is_empty() {
            proof {
                if self@.one_king(white) {
                    let k = choose|k: int| self@.holds(k, white, Piece::King);
                    assert(all.contains(k));
                }
            }
            return false;
        }
        let first = kings.pop_ls1b_square();
        let r = kings.is_empty();
        proof {
            if r {
                assert(self@.holds(first.index(), white, Piece::King));
                assert forall|a: int, b: int|
                    self@.holds(a, white, Piece::King) && self@.holds(b, white, Piece::King) implies a
                    == b by {
                    assert(all.contains(a) && all.contains(b));
                    assert(!kings.contains(a) && !kings.contains(b));
                }
            } else {
                let other = choose|s: int| kings.contains(s);
                assert(self@.holds(first.index(), white, Piece::King));
                assert(self@.holds(other, white, Piece::King));
            }
        }
        r
    }

    fn en_passant_fits(&self) -> (r: bool)
        requires
            self.tidy(),
        ensures
            r == self@.en_passant_sound(),
    {
        let square = self.en_passant;
        if square.is_null() {
            return square.get_raw() == 64;
        }
        let raw = square.get_raw();
        if self.side_to_move.is_white() {
            square.get_rank() == 5 && self.vacant(square) && self.vacant(Square::from_raw(raw + 8))
                && self.shows(Square::from_raw(raw - 8), false, Piece::Pawn)
        } else {
            square.get_rank() == 2 && self.vacant(square) && self.vacant(Square::from_raw(raw - 8))
                && self.shows(Square::from_raw(raw + 8), true, Piece::Pawn)
        }
    }

    fn castle_right_fits(&self, white: bool, king_side: bool) -> (r: bool)
        requires
            self.tidy(),
        ensures
            r == self@.castle_right_sound(white, king_side),
    {
        let right = if white {
            if king_side {
                CastleRight::white_king()
            } else {
                CastleRight::white_queen()
            }
        } else {
            if king_side {
                CastleRight::black_king()
            } else {
                CastleRight::black_queen()
            }
        };
        if !self.castle_rights.has_right(right) {
            return true;
        }
        let king: u8 = if white {
            4
        } else {
            60
        };
        let rook: u8 = if king_side {
            king + 3
        } else {
            king - 4
        };
        self.shows(Square::from_raw(king), white, Piece::King) && self.shows(
            Square::from_raw(rook),
            white,
            Piece::Rook,
        )
    }

    /// The position that the board shows has sound invariants.
    fn is_valid(&self) -> (r: bool)
        requires
            self.tidy(),
        ensures
            r == self@.valid(),
    {
        self.has_one_king(true) && self.has_one_king(false) && self.en_passant_fits()
            && self.castle_rights.get_value() < 16 && self.castle_right_fits(true, true)
            && self.castle_right_fits(true, false) && self.castle_right_fits(false, true)
            && self.castle_right_fits(false, false)
    }

    /// A board without men, White to move, no rights, counters at zero.
    fn blank() -> (r: ChessBoard)
        ensures
            r.tidy(),
            r.keyed(0),
            r.placement() == Seq::new(64, |s: int| None::<Man>),
    {
        let r = ChessBoard {
            pieces: [Bitboard::empty(); 12],
            occupancy: [Bitboard::empty(); 2],
            side_to_move: Side::White,
            castle_rights: CastleRight::null(),
            en_passant: Square::null(),
            half_moves: 0,
            full_moves: 0,
            key: ZobristKey::new(),
        };
        proof {
            reveal(ChessBoard::tidy);
            reveal(ChessBoard::man_at);
            crate::base_structures::bitboard::lemma_bit_zero_all();
            assert(r.placement() =~= Seq::new(64, |s: int| None::<Man>));
            ChessBoard::lemma_blank_key(64);
            lemma_xor_swap(0, 0, 0, 0);
        }
        r
    }

    proof fn lemma_blank_key(n: int)
        requires
            0 <= n <= 64,
        ensures
            placement_key(Seq::new(64, |s: int| None::<Man>), n) == 0,
        decreases n,
    {
        if n > 0 {
            ChessBoard::lemma_blank_key(n - 1);
            lemma_xor_swap(0, 0, 0, 0);
        }
    }

    /// The position with the given placement and state.
    pub open spec fn described(
        placement: Seq<Option<Man>>,
        side_to_move: Side,
        castle_rights: CastleRight,
        en_passant: Square,
        half_moves: u16,
        full_moves: u16,
    ) -> Position {
        Position {
            squares: placement,
            white_to_move: side_to_move is White,
            castle_rights,
            en_passant,
            half_moves,
            full_moves,
        }
    }

    /// Builds the board of a position given square by square: entry `i` of
    /// `placement` is the man on square `i`. Returns `None` where the parts
    /// do not make a position with sound invariants.
    pub fn from_parts(
        placement: &Vec<Option<Man>>,
        side_to_move: Side,
        castle_rights: CastleRight,
        en_passant: Square,
        half_moves: u16,
        full_moves: u16,
    ) -> (r: Option<ChessBoard>)
        ensures
            r.is_some() <==> ChessBoard::described(
                placement@,
                side_to_move,
                castle_rights,
                en_passant,
                half_moves,
                full_moves,
            ).valid(),
            r matches Some(board) ==> board.wf() && board@ == ChessBoard::described(
                placement@,
                side_to_move,
                castle_rights,
                en_passant,
                half_moves,
                full_moves,
            ),
    {
        if placement.len() != 64 {
            return None;
        }
        let mut board = ChessBoard::blank();
        let mut i: u8 = 0;
        while i < 64
            invariant
                0 <= i <= 64,
                placement.len() == 64,
                board.tidy(),
                board.keyed(0),
                board.placement() == Seq::new(
                    64,
                    |s: int|
                        if s < i {
                            placement@[s]
                        } else {
                            None
                        },
                ),
            decreases 64 - i,
        {
            let ghost before = board.placement();
            match placement[i as usize] {
                Some(man) => {
                    assert(before[i as int] == board.man_at(i as int));
                    board.put_man(man.white, man.piece, Square::from_raw(i), Ghost(0));
                },
                None => {},
            }
            i = i + 1;
            assert(board.placement() =~= Seq::new(
                64,
                |s: int|
                    if s < i {
                        placement@[s]
                    } else {
                        None
                    },
            ));
        }
        assert(board.placement() =~= placement@);
        let ghost placed = board;
        let ghost placed_key = placement_key(board.placement(), 64);
        board.side_to_move = side_to_move;
        board.castle_rights = castle_rights;
        board.en_passant = en_passant;
        board.half_moves = half_moves;
        board.full_moves = full_moves;
        if !side_to_move.is_white() {
            board.key.update_side_to_move_hash();
        }
        board.key.update_castle_rights_hash(castle_rights);
        board.key.update_en_passant_hash(en_passant);
        proof {
            board.lemma_same_men(placed);
            let side = if side_to_move.is_white() {
                0u64
            } else {
                side_key()
            };
            lemma_first_key(placed_key, side, castle_key(castle_rights), en_passant_key(en_passant));
        }
        if board.is_valid() {
            Some(board)
        } else {
            None
        }
    }

    /// Makes a move that fits the position. The board afterwards shows the
    /// position that the rules give, hash included.
    pub fn make_move(&mut self, mv: Move)
        requires
            old(self).wf(),
            old(self)@.applicable(mv),
        ensures
            final(self).wf(),
            final(self)@ == old(self)@.apply(mv),
    {
        let ghost pos = self@;
        let ghost state = state_key(pos.white_to_move, pos.castle_rights, pos.en_passant);
        let piece = self.move_men(mv, Ghost(state));
        self.pass_turn(mv, piece, Ghost(pos));
    }
}

/// What stands on a square blocks no attack on that square.
pub proof fn lemma_target_blocks_nothing(position: Position, by_white: bool, target: int)
    ensures
        position.attacked_with(by_white, target, position.occupancy().remove(target)) == position.attacked(
            by_white,
            target,
        ),
{
    let full = position.occupancy();
    let bare = full.remove(target);
    assert forall|s: int| position.attacks_from(s, by_white, target, bare) == position.attacks_from(
        s,
        by_white,
        target,
        full,
    ) by {
        if clear(full, s, target) {
            assert forall|u: int| #[trigger] between(s, target, u) implies !bare.contains(u) by {}
        }
        if clear(bare, s, target) {
            assert forall|u: int| #[trigger] between(s, target, u) implies !full.contains(u) by {}
        }
    }
    if position.attacked_with(by_white, target, bare) {
        let s = choose|s: int| position.attacks_from(s, by_white, target, bare);
        assert(position.attacks_from(s, by_white, target, full));
    }
    if position.attacked(by_white, target) {
        let s = choose|s: int| position.attacks_from(s, by_white, target, full);
        assert(position.attacks_from(s, by_white, target, bare));
    }
}

/// Folding the keys of a state into the key of a placement gives the key of
/// the position.
proof fn lemma_first_key(placed: u64, side: u64, castle: u64, en_passant: u64)
    by (bit_vector)
    ensures
        (((placed ^ 0) ^ side) ^ castle) ^ en_passant == placed ^ ((side ^ castle) ^ en_passant),
        ((placed ^ 0) ^ castle) ^ en_passant == placed ^ ((0 ^ castle) ^ en_passant),
{
}

/// Replacing the keys of the rights and of the en-passant square and
/// passing the turn replaces the key of the state.
proof fn lemma_state_key(placed: u64, side: u64, c0: u64, e0: u64, c1: u64, e1: u64, turn: u64)
    by (bit_vector)
    ensures
        (((((placed ^ ((side ^ c0) ^ e0)) ^ c0) ^ c1) ^ e0) ^ e1) ^ turn == placed ^ (((side ^ turn) ^ c1)
            ^ e1),
        turn ^ turn == 0,
        0 ^ turn == turn,
{
}

} // verus!
