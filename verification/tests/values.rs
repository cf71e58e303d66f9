use spear::{Attacks, Bitboard, Move, MoveFlag, Piece, Side, Square, ZobristKey};

const ALL_FLAGS: [MoveFlag; 14] = [
    MoveFlag::QuietMove,
    MoveFlag::DoublePush,
    MoveFlag::KingSideCastle,
    MoveFlag::QueenSideCastle,
    MoveFlag::Capture,
    MoveFlag::EnPassant,
    MoveFlag::KnightPromotion,
    MoveFlag::BishopPromotion,
    MoveFlag::RookPromotion,
    MoveFlag::QueenPromotion,
    MoveFlag::KnightPromotionCapture,
    MoveFlag::BishopPromotionCapture,
    MoveFlag::RookPromotionCapture,
    MoveFlag::QueenPromotionCapture,
];

#[test]
fn move_gives_back_what_it_was_packed_from() {
    for flag in ALL_FLAGS {
        for from in [0u8, 1, 9, 36, 62, 63] {
            for to in [0u8, 7, 8, 27, 63] {
                let mv = Move::from_squares(Square::from_raw(from), Square::from_raw(to), flag);
                assert_eq!(mv.get_from_square().get_raw(), from);
                assert_eq!(mv.get_to_square().get_raw(), to);
                assert_eq!(mv.get_flag(), flag);
                assert_eq!(mv.get_raw(), from as u16 + 64 * to as u16 + 4096 * flag.code());
                assert_eq!(Move::from_raw(mv.get_raw()), mv);
            }
        }
    }
}

#[test]
fn move_equality_is_equality_of_the_parts() {
    let a = Move::from_squares(Square::from_raw(12), Square::from_raw(28), MoveFlag::DoublePush);
    let b = Move::from_squares(Square::from_raw(12), Square::from_raw(28), MoveFlag::DoublePush);
    let c = Move::from_squares(Square::from_raw(12), Square::from_raw(28), MoveFlag::QuietMove);
    let d = Move::from_squares(Square::from_raw(12), Square::from_raw(20), MoveFlag::DoublePush);
    assert_eq!(a, b);
    assert_ne!(a, c);
    assert_ne!(a, d);
}

#[test]
fn flag_codes_and_kinds() {
    let codes: Vec<u16> = ALL_FLAGS.iter().map(|flag| flag.code()).collect();
    assert_eq!(codes, vec![0, 1, 2, 3, 4, 5, 8, 9, 10, 11, 12, 13, 14, 15]);
    for flag in ALL_FLAGS {
        assert_eq!(MoveFlag::from_code(flag.code()), flag);
    }
    assert_eq!(MoveFlag::from_code(6), MoveFlag::QuietMove);
    assert_eq!(MoveFlag::from_code(7), MoveFlag::QuietMove);
    assert_eq!(MoveFlag::from_code(16), MoveFlag::QuietMove);
    assert!(MoveFlag::Capture.is_capture());
    assert!(MoveFlag::EnPassant.is_capture());
    assert!(MoveFlag::RookPromotionCapture.is_capture());
    assert!(!MoveFlag::QueenPromotion.is_capture());
    assert!(!MoveFlag::DoublePush.is_capture());
    assert_eq!(MoveFlag::KnightPromotion.promotion(), Some(Piece::Knight));
    assert_eq!(MoveFlag::BishopPromotionCapture.promotion(), Some(Piece::Bishop));
    assert_eq!(MoveFlag::RookPromotion.promotion(), Some(Piece::Rook));
    assert_eq!(MoveFlag::QueenPromotionCapture.promotion(), Some(Piece::Queen));
    assert_eq!(MoveFlag::Capture.promotion(), None);
    assert!(MoveFlag::KingSideCastle.is_castle());
    assert!(MoveFlag::QueenSideCastle.is_castle());
    assert!(!MoveFlag::QuietMove.is_castle());
    let mv = Move::from_squares(Square::from_raw(52), Square::from_raw(61), MoveFlag::QueenPromotionCapture);
    assert!(mv.is_capture());
    assert!(mv.is_promotion());
}

#[test]
fn squares_have_ranks_and_files() {
    let e4 = Square::from_coords(3, 4);
    assert_eq!(e4.get_raw(), 28);
    assert_eq!(e4.get_rank(), 3);
    assert_eq!(e4.get_file(), 4);
    assert!(!e4.is_null());
    assert!(Square::null().is_null());
    assert_eq!(Square::null().get_raw(), 64);
    assert_eq!(Square::from_raw(63), Square::from_coords(7, 7));
}

#[test]
fn sides_and_pieces_have_indices() {
    assert!(Side::White.is_white());
    assert!(!Side::Black.is_white());
    assert_eq!(Side::White.flipped(), Side::Black);
    assert_eq!(Side::Black.flipped(), Side::White);
    assert_eq!(Side::from_white(true), Side::White);
    assert_eq!(Side::from_white(false), Side::Black);
    assert_eq!(Side::White.get_index(), 0);
    assert_eq!(Side::Black.get_index(), 1);
    let pieces = [Piece::Pawn, Piece::Knight, Piece::Bishop, Piece::Rook, Piece::Queen, Piece::King];
    for (index, piece) in pieces.iter().enumerate() {
        assert_eq!(piece.get_index(), index);
        assert_eq!(Piece::from_index(index), *piece);
    }
}

#[test]
fn bitboard_is_a_set_of_squares() {
    let mut board = Bitboard::empty();
    assert!(board.is_empty());
    board.set_bit(Square::from_raw(5));
    board.set_bit(Square::from_raw(40));
    board.set_bit(Square::from_raw(5));
    assert!(board.is_not_empty());
    assert_eq!(board.get_raw(), (1u64 << 5) | (1u64 << 40));
    assert!(board.get_bit(Square::from_raw(40)));
    assert!(!board.get_bit(Square::from_raw(41)));
    board.pop_bit(Square::from_raw(5));
    assert_eq!(board, Bitboard::from_square(Square::from_raw(40)));
    board.pop_bit(Square::from_raw(5));
    assert_eq!(board, Bitboard::from_square(Square::from_raw(40)));
    let a = Bitboard::from_raw(0b1100);
    let b = Bitboard::from_raw(0b1010);
    assert_eq!(a.and(b).get_raw(), 0b1000);
    assert_eq!(a.or(b).get_raw(), 0b1110);
    assert_eq!(a.xor(b).get_raw(), 0b0110);
    assert_eq!(a.inverse().get_raw(), !0b1100u64);
    assert_eq!(Bitboard::full().get_raw(), u64::MAX);
    assert_eq!(Bitboard::full().inverse(), Bitboard::empty());
}

#[test]
fn bitboard_shifts_drop_what_leaves_the_board() {
    let top = Bitboard::from_square(Square::from_raw(63));
    assert_eq!(top.shift_left(1), Bitboard::empty());
    assert_eq!(top.shift_right(63).get_raw(), 1);
    let low = Bitboard::from_raw(0b101);
    assert_eq!(low.shift_left(8).get_raw(), 0b101 << 8);
    assert_eq!(low.shift_right(1).get_raw(), 0b10);
    assert_eq!(low.shift_left(0), low);
}

#[test]
fn bitboard_yields_its_squares_in_ascending_order() {
    let board = Bitboard::from_raw((1u64 << 63) | (1u64 << 17) | (1u64 << 3) | 1);
    let squares: Vec<u8> = board.squares().iter().map(|square| square.get_raw()).collect();
    assert_eq!(squares, vec![0, 3, 17, 63]);
    assert_eq!(board.ls1b_square().get_raw(), 0);
    let mut rest = board;
    assert_eq!(rest.pop_ls1b_square().get_raw(), 0);
    assert_eq!(rest.pop_ls1b_square().get_raw(), 3);
    assert_eq!(rest.pop_ls1b_square().get_raw(), 17);
    assert_eq!(rest.pop_ls1b_square().get_raw(), 63);
    assert!(rest.is_empty());
    assert_eq!(board.squares().len(), 4);
    assert!(Bitboard::empty().squares().is_empty());
    assert_eq!(Bitboard::full().squares().len(), 64);
}

#[test]
fn rank_and_file_masks() {
    assert_eq!(Bitboard::rank(0).get_raw(), 0xff);
    assert_eq!(Bitboard::rank(1).get_raw(), 0xff00);
    assert_eq!(Bitboard::rank(6).get_raw(), 0x00ff_0000_0000_0000);
    assert_eq!(Bitboard::rank(7).get_raw(), 0xff00_0000_0000_0000);
    assert_eq!(Bitboard::file(0).get_raw(), 0x0101_0101_0101_0101);
    assert_eq!(Bitboard::file(7).get_raw(), 0x8080_8080_8080_8080);
    assert_eq!(Bitboard::file(3).and(Bitboard::rank(3)), Bitboard::from_square(Square::from_raw(27)));
}

#[test]
fn leaper_attacks() {
    let knight_a1 = Attacks::get_knight_attacks_for_square(Square::from_raw(0));
    assert_eq!(knight_a1.get_raw(), (1u64 << 10) | (1u64 << 17));
    let knight_e4 = Attacks::get_knight_attacks_for_square(Square::from_raw(28));
    assert_eq!(knight_e4.squares().len(), 8);
    assert_eq!(knight_e4.get_raw(), 0x0000_2844_0044_2800);
    let king_h8 = Attacks::get_king_attacks_for_square(Square::from_raw(63));
    assert_eq!(king_h8.get_raw(), (1u64 << 62) | (1u64 << 55) | (1u64 << 54));
    let king_e1 = Attacks::get_king_attacks_for_square(Square::from_raw(4));
    assert_eq!(king_e1.get_raw(), 0x3828);
    let white_e4 = Attacks::get_pawn_attacks_for_square::<true>(Square::from_raw(28));
    assert_eq!(white_e4.get_raw(), (1u64 << 35) | (1u64 << 37));
    let black_e4 = Attacks::get_pawn_attacks_for_square::<false>(Square::from_raw(28));
    assert_eq!(black_e4.get_raw(), (1u64 << 19) | (1u64 << 21));
    let white_a2 = Attacks::get_pawn_attacks_for_square::<true>(Square::from_raw(8));
    assert_eq!(white_a2.get_raw(), 1u64 << 17);
    let white_h8 = Attacks::get_pawn_attacks_for_square::<true>(Square::from_raw(63));
    assert_eq!(white_h8, Bitboard::empty());
    let black_h1 = Attacks::get_pawn_attacks_for_square::<false>(Square::from_raw(7));
    assert_eq!(black_h1, Bitboard::empty());
}

#[test]
fn slider_attacks_stop_at_the_first_man() {
    let occupancy = Bitboard::from_raw((1u64 << 12) | (1u64 << 2) | (1u64 << 32) | (1u64 << 18));
    let rook_a1 = Attacks::get_rook_attacks_for_square(Square::from_raw(0), occupancy);
    assert_eq!(rook_a1.get_raw(), (1u64 << 1) | (1u64 << 2) | (1u64 << 8) | (1u64 << 16) | (1u64 << 24) | (1u64 << 32));
    let bishop_a1 = Attacks::get_bishop_attacks_for_square(Square::from_raw(0), occupancy);
    assert_eq!(bishop_a1.get_raw(), (1u64 << 9) | (1u64 << 18));
    let free_rook = Attacks::get_rook_attacks_for_square(Square::from_raw(27), Bitboard::empty());
    assert_eq!(free_rook.squares().len(), 14);
    let free_bishop = Attacks::get_bishop_attacks_for_square(Square::from_raw(27), Bitboard::empty());
    assert_eq!(free_bishop.squares().len(), 13);
    let (walked, blocker) = Attacks::get_ray(Square::from_raw(0), occupancy, 1, 1);
    assert_eq!(walked.get_raw(), (1u64 << 9) | (1u64 << 18));
    assert_eq!(blocker.get_raw(), 18);
    let (walked, blocker) = Attacks::get_ray(Square::from_raw(7), occupancy, 0, 1);
    assert_eq!(walked.squares().len(), 7);
    assert!(blocker.is_null());
    let (walked, blocker) = Attacks::get_ray(Square::from_raw(7), occupancy, 1, 0);
    assert!(walked.is_empty());
    assert!(blocker.is_null());
}

#[test]
fn squares_between_two_squares() {
    let between = Attacks::get_between(Square::from_raw(0), Square::from_raw(63));
    assert_eq!(between.get_raw(), 0x0040_2010_0804_0200);
    let file = Attacks::get_between(Square::from_raw(60), Square::from_raw(4));
    assert_eq!(file.get_raw(), 0x0010_1010_1010_1000);
    assert_eq!(Attacks::get_between(Square::from_raw(4), Square::from_raw(5)), Bitboard::empty());
    assert_eq!(Attacks::get_between(Square::from_raw(4), Square::from_raw(21)), Bitboard::empty());
    assert_eq!(Attacks::get_between(Square::from_raw(4), Square::from_raw(4)), Bitboard::empty());
    assert_eq!(Attacks::get_between(Square::from_raw(7), Square::from_raw(56)).squares().len(), 6);
}

#[test]
fn hash_keys_toggle() {
    let mut key = ZobristKey::new();
    assert_eq!(key.get_raw(), 0);
    key.update_piece_hash(true, Piece::Queen, Square::from_raw(3));
    let with_queen = key.get_raw();
    assert_ne!(with_queen, 0);
    key.update_side_to_move_hash();
    assert_ne!(key.get_raw(), with_queen);
    key.update_side_to_move_hash();
    assert_eq!(key.get_raw(), with_queen);
    key.update_piece_hash(true, Piece::Queen, Square::from_raw(3));
    assert_eq!(key.get_raw(), 0);
    key.update_en_passant_hash(Square::null());
    assert_eq!(key.get_raw(), 0);
    key.update_en_passant_hash(Square::from_raw(20));
    let with_file = key.get_raw();
    assert_ne!(with_file, 0);
    key.update_en_passant_hash(Square::from_raw(44));
    assert_eq!(key.get_raw(), 0);
    let mut other = ZobristKey::new();
    other.update_piece_hash(false, Piece::Queen, Square::from_raw(3));
    assert_ne!(other.get_raw(), with_queen);
    assert_eq!(spear::base_structures::zobrist::mix(0), 0);
    assert_eq!(spear::base_structures::zobrist::mix(1), 0x5692161d100b05e5);
}
