use spear::{CastleRight, ChessBoard, Man, Move, MoveFlag, MoveGen, Piece, Side, Square};

fn state_board(fen: &str) -> Option<ChessBoard> {
    let parts: Vec<&str> = fen.split(' ').collect();
    let mut placement: Vec<Option<Man>> = vec![None; 64];
    let mut rank: usize = 7;
    let mut file: usize = 0;
    for c in parts[0].chars() {
        if c == '/' {
            rank -= 1;
            file = 0;
        } else if let Some(skip) = c.to_digit(10) {
            file += skip as usize;
        } else {
            let piece = match c.to_ascii_lowercase() {
                'p' => Piece::Pawn,
                'n' => Piece::Knight,
                'b' => Piece::Bishop,
                'r' => Piece::Rook,
                'q' => Piece::Queen,
                _ => Piece::King,
            };
            placement[rank * 8 + file] = Some(Man { white: c.is_ascii_uppercase(), piece });
            file += 1;
        }
    }
    let side = if parts[1] == "w" { Side::White } else { Side::Black };
    let mut rights = CastleRight::null();
    for c in parts[2].chars() {
        match c {
            'K' => rights.set_right(CastleRight::white_king()),
            'Q' => rights.set_right(CastleRight::white_queen()),
            'k' => rights.set_right(CastleRight::black_king()),
            'q' => rights.set_right(CastleRight::black_queen()),
            _ => {}
        }
    }
    let en_passant = if parts[3] == "-" {
        Square::null()
    } else {
        let bytes = parts[3].as_bytes();
        Square::from_coords(bytes[1] - b'1', bytes[0] - b'a')
    };
    let half: u16 = parts[4].parse().unwrap();
    let full: u16 = parts[5].parse().unwrap();
    ChessBoard::from_parts(&placement, side, rights, en_passant, half, full)
}

fn placement_of(board: &ChessBoard) -> Vec<Option<Man>> {
    (0..64u8).map(|raw| board.get_piece_on_square(Square::from_raw(raw))).collect()
}

fn rebuilt(board: &ChessBoard) -> ChessBoard {
    ChessBoard::from_parts(
        &placement_of(board),
        board.side_to_move(),
        board.castle_rights(),
        board.en_passant_square(),
        board.half_move_counter(),
        board.full_move_counter(),
    )
    .expect("a board shows a valid position")
}

fn masks_partition(board: &ChessBoard) {
    let pieces = [Piece::Pawn, Piece::Knight, Piece::Bishop, Piece::Rook, Piece::Queen, Piece::King];
    let mut white: u64 = 0;
    let mut black: u64 = 0;
    for piece in pieces {
        let w = board.get_piece_mask_for_side::<true>(piece).get_raw();
        let b = board.get_piece_mask_for_side::<false>(piece).get_raw();
        assert_eq!(white & w, 0);
        assert_eq!(black & b, 0);
        white |= w;
        black |= b;
    }
    assert_eq!(white & black, 0);
    assert_eq!(white, board.get_occupancy_for_side::<true>().get_raw());
    assert_eq!(black, board.get_occupancy_for_side::<false>().get_raw());
    assert_eq!(white | black, board.get_occupancy().get_raw());
    assert_eq!(board.get_piece_mask_for_side::<true>(Piece::King).get_raw().count_ones(), 1);
    assert_eq!(board.get_piece_mask_for_side::<false>(Piece::King).get_raw().count_ones(), 1);
}

fn walk(board: &ChessBoard, depth: u8, visit: &mut dyn FnMut(&ChessBoard)) {
    visit(board);
    if depth == 0 {
        return;
    }
    for mv in MoveGen::legal_moves(board) {
        let mut next = *board;
        next.make_move(mv);
        walk(&next, depth - 1, visit);
    }
}

const START: &str = "rnbqkbnr/pppppppp/8/8/8/8/PPPPPPPP/RNBQKBNR w KQkq - 0 1";
const KIWIPETE: &str = "r3k2r/p1ppqpb1/bn2pnp1/3PN3/1p2P3/2N2Q1p/PPPBBPPP/R3K2R w KQkq - 0 1";

#[test]
fn start_position_is_read_back() {
    let board = state_board(START).unwrap();
    assert!(board.side_to_move().is_white());
    assert_eq!(board.castle_rights().get_value(), 0b1111);
    assert!(board.en_passant_square().is_null());
    assert_eq!(board.half_move_counter(), 0);
    assert_eq!(board.full_move_counter(), 1);
    assert_eq!(board.get_occupancy().get_raw(), 0xffff_0000_0000_ffff);
    assert_eq!(board.get_occupancy_for_side::<true>().get_raw(), 0xffff);
    assert_eq!(board.get_piece_mask_for_side::<true>(Piece::Pawn).get_raw(), 0xff00);
    assert_eq!(board.get_piece_mask_for_side::<false>(Piece::Knight).get_raw(), 0x4200_0000_0000_0000);
    assert_eq!(board.get_king_square::<true>().get_raw(), 4);
    assert_eq!(board.get_king_square::<false>().get_raw(), 60);
    assert_eq!(board.get_piece_on_square(Square::from_raw(3)), Some(Man { white: true, piece: Piece::Queen }));
    assert_eq!(board.get_piece_on_square(Square::from_raw(63)), Some(Man { white: false, piece: Piece::Rook }));
    assert_eq!(board.get_piece_on_square(Square::from_raw(30)), None);
}

#[test]
fn parts_that_make_no_position_are_refused() {
    assert!(state_board("8/8/8/8/8/8/8/4K3 w - - 0 1").is_none());
    assert!(state_board("4k3/8/8/8/8/8/8/8 w - - 0 1").is_none());
    assert!(state_board("4k2k/8/8/8/8/8/8/4K3 w - - 0 1").is_none());
    assert!(state_board("4k3/8/8/8/8/8/8/K3K3 b - - 0 1").is_none());
    assert!(state_board("4k3/8/8/8/8/8/8/4K3 w K - 0 1").is_none());
    assert!(state_board("4k3/8/8/8/8/8/8/4K2R w Q - 0 1").is_none());
    assert!(state_board("4k2r/8/8/8/8/8/8/4K3 b q - 0 1").is_none());
    assert!(state_board("r2k3r/8/8/8/8/8/8/4K3 b kq - 0 1").is_none());
    assert!(state_board("4k3/8/8/8/8/8/8/4K3 w - e3 0 1").is_none());
    assert!(state_board("4k3/8/8/8/4P3/8/8/4K3 w - e3 0 1").is_none());
    assert!(state_board("4k3/8/8/8/4P3/8/4N3/4K3 b - e3 0 1").is_none());
    assert!(state_board("4k3/8/8/8/4P3/4n3/8/4K3 b - e3 0 1").is_none());
    assert!(state_board("4k3/8/8/4p3/8/8/8/4K3 w - e5 0 1").is_none());
    let kings: Vec<Option<Man>> = (0..64)
        .map(|i| match i {
            4 => Some(Man { white: true, piece: Piece::King }),
            60 => Some(Man { white: false, piece: Piece::King }),
            _ => None,
        })
        .collect();
    assert!(ChessBoard::from_parts(&kings, Side::White, CastleRight::null(), Square::null(), 0, 1).is_some());
    assert!(ChessBoard::from_parts(&kings, Side::White, CastleRight::from_raw(16), Square::null(), 0, 1).is_none());
    assert!(ChessBoard::from_parts(&kings, Side::White, CastleRight::null(), Square::from_raw(65), 0, 1).is_none());
    assert!(ChessBoard::from_parts(&kings[..63].to_vec(), Side::White, CastleRight::null(), Square::null(), 0, 1).is_none());
    let mut longer = kings.clone();
    longer.push(None);
    assert!(ChessBoard::from_parts(&longer, Side::White, CastleRight::null(), Square::null(), 0, 1).is_none());
}

#[test]
fn valid_en_passant_squares_are_accepted() {
    assert!(state_board("4k3/8/8/8/4P3/8/8/4K3 b - e3 0 1").is_some());
    assert!(state_board("4k3/8/8/4p3/8/8/8/4K3 w - e6 0 1").is_some());
}

#[test]
fn double_push_sets_the_en_passant_square() {
    let mut board = state_board(START).unwrap();
    board.make_move(Move::from_squares(Square::from_raw(12), Square::from_raw(28), MoveFlag::DoublePush));
    assert_eq!(board.en_passant_square().get_raw(), 20);
    assert!(!board.side_to_move().is_white());
    assert_eq!(board.half_move_counter(), 0);
    assert_eq!(board.full_move_counter(), 1);
    assert_eq!(board.get_piece_on_square(Square::from_raw(28)), Some(Man { white: true, piece: Piece::Pawn }));
    assert_eq!(board.get_piece_on_square(Square::from_raw(12)), None);
    board.make_move(Move::from_squares(Square::from_raw(62), Square::from_raw(45), MoveFlag::QuietMove));
    assert!(board.en_passant_square().is_null());
    assert_eq!(board.half_move_counter(), 1);
    assert_eq!(board.full_move_counter(), 2);
    assert!(board.side_to_move().is_white());
    assert_eq!(board.castle_rights().get_value(), 0b1111);
}

#[test]
fn en_passant_takes_the_pawn_behind_the_square() {
    let mut board = state_board("4k3/8/8/3pP3/8/8/8/4K3 w - d6 0 1").unwrap();
    board.make_move(Move::from_squares(Square::from_raw(36), Square::from_raw(43), MoveFlag::EnPassant));
    assert_eq!(board.get_piece_on_square(Square::from_raw(43)), Some(Man { white: true, piece: Piece::Pawn }));
    assert_eq!(board.get_piece_on_square(Square::from_raw(35)), None);
    assert_eq!(board.get_piece_on_square(Square::from_raw(36)), None);
    assert_eq!(board.get_occupancy().get_raw().count_ones(), 3);
    assert!(board.en_passant_square().is_null());
    let mut black = state_board("4k3/8/8/8/3pP3/8/8/4K3 b - e3 0 1").unwrap();
    black.make_move(Move::from_squares(Square::from_raw(27), Square::from_raw(20), MoveFlag::EnPassant));
    assert_eq!(black.get_piece_on_square(Square::from_raw(20)), Some(Man { white: false, piece: Piece::Pawn }));
    assert_eq!(black.get_piece_on_square(Square::from_raw(28)), None);
    assert_eq!(black.get_occupancy().get_raw().count_ones(), 3);
}

#[test]
fn castling_moves_the_rook_and_revokes_both_rights() {
    let fen = "r3k2r/8/8/8/8/8/8/R3K2R w KQkq - 0 1";
    let mut board = state_board(fen).unwrap();
    board.make_move(Move::from_squares(Square::from_raw(4), Square::from_raw(6), MoveFlag::KingSideCastle));
    assert_eq!(board.get_piece_on_square(Square::from_raw(6)), Some(Man { white: true, piece: Piece::King }));
    assert_eq!(board.get_piece_on_square(Square::from_raw(5)), Some(Man { white: true, piece: Piece::Rook }));
    assert_eq!(board.get_piece_on_square(Square::from_raw(7)), None);
    assert_eq!(board.get_piece_on_square(Square::from_raw(4)), None);
    assert_eq!(board.castle_rights().get_value(), 0b0011);
    board.make_move(Move::from_squares(Square::from_raw(60), Square::from_raw(58), MoveFlag::QueenSideCastle));
    assert_eq!(board.get_piece_on_square(Square::from_raw(58)), Some(Man { white: false, piece: Piece::King }));
    assert_eq!(board.get_piece_on_square(Square::from_raw(59)), Some(Man { white: false, piece: Piece::Rook }));
    assert_eq!(board.get_piece_on_square(Square::from_raw(56)), None);
    assert_eq!(board.castle_rights().get_value(), 0);
    assert_eq!(board.full_move_counter(), 2);
    assert_eq!(board.half_move_counter(), 2);
}

#[test]
fn rook_moves_and_rook_captures_revoke_one_right() {
    let fen = "r3k2r/8/8/8/8/8/8/R3K2R w KQkq - 0 1";
    let mut board = state_board(fen).unwrap();
    board.make_move(Move::from_squares(Square::from_raw(0), Square::from_raw(56), MoveFlag::Capture));
    assert_eq!(board.castle_rights().get_value(), 0b0101);
    assert_eq!(board.get_piece_on_square(Square::from_raw(56)), Some(Man { white: true, piece: Piece::Rook }));
    assert_eq!(board.half_move_counter(), 0);
    board.make_move(Move::from_squares(Square::from_raw(63), Square::from_raw(62), MoveFlag::QuietMove));
    assert_eq!(board.castle_rights().get_value(), 0b0100);
}

#[test]
fn promotion_replaces_the_pawn() {
    let fen = "n3k3/1P6/8/8/8/8/7p/4K3 w - - 5 9";
    let mut quiet = state_board(fen).unwrap();
    quiet.make_move(Move::from_squares(Square::from_raw(49), Square::from_raw(57), MoveFlag::KnightPromotion));
    assert_eq!(quiet.get_piece_on_square(Square::from_raw(57)), Some(Man { white: true, piece: Piece::Knight }));
    assert_eq!(quiet.get_piece_mask_for_side::<true>(Piece::Pawn).get_raw(), 0);
    assert_eq!(quiet.half_move_counter(), 0);
    let mut taking = state_board(fen).unwrap();
    taking.make_move(Move::from_squares(Square::from_raw(49), Square::from_raw(56), MoveFlag::QueenPromotionCapture));
    assert_eq!(taking.get_piece_on_square(Square::from_raw(56)), Some(Man { white: true, piece: Piece::Queen }));
    assert_eq!(taking.get_piece_mask_for_side::<false>(Piece::Knight).get_raw(), 0);
    assert_eq!(taking.get_piece_on_square(Square::from_raw(49)), None);
    taking.make_move(Move::from_squares(Square::from_raw(15), Square::from_raw(7), MoveFlag::RookPromotion));
    assert_eq!(taking.get_piece_on_square(Square::from_raw(7)), Some(Man { white: false, piece: Piece::Rook }));
    assert_eq!(taking.full_move_counter(), 10);
}

#[test]
fn counters_stop_at_their_largest_value() {
    let mut board = state_board("4k3/8/8/8/8/8/8/4K2R b - - 65535 65535").unwrap();
    board.make_move(Move::from_squares(Square::from_raw(60), Square::from_raw(59), MoveFlag::QuietMove));
    assert_eq!(board.half_move_counter(), 65535);
    assert_eq!(board.full_move_counter(), 65535);
    board.make_move(Move::from_squares(Square::from_raw(7), Square::from_raw(15), MoveFlag::QuietMove));
    assert_eq!(board.half_move_counter(), 65535);
    let mut short = state_board("4k3/8/8/8/8/8/8/4K2R b - - 65534 65534").unwrap();
    short.make_move(Move::from_squares(Square::from_raw(60), Square::from_raw(59), MoveFlag::QuietMove));
    assert_eq!(short.half_move_counter(), 65535);
    assert_eq!(short.full_move_counter(), 65535);
}

#[test]
fn bitboards_partition_the_occupancy_in_every_reached_position() {
    for fen in [START, KIWIPETE, "8/2p5/3p4/KP5r/1R3p1k/8/4P1P1/8 w - - 0 1"] {
        let board = state_board(fen).unwrap();
        let mut seen = 0;
        walk(&board, 2, &mut |reached| {
            masks_partition(reached);
            seen += 1;
        });
        assert!(seen > 100);
    }
}

#[test]
fn hash_after_a_move_is_the_hash_of_the_position() {
    for fen in [START, KIWIPETE, "r3k2r/Pppp1ppp/1b3nbN/nP6/BBP1P3/q4N2/Pp1P2PP/R2Q1RK1 w kq - 0 1"] {
        let board = state_board(fen).unwrap();
        walk(&board, 2, &mut |reached| {
            let fresh = rebuilt(reached);
            assert_eq!(reached.get_key(), fresh.get_key());
            assert_eq!(placement_of(reached), placement_of(&fresh));
        });
    }
}

#[test]
fn hash_tells_positions_apart() {
    let start = state_board(START).unwrap();
    let black = state_board("rnbqkbnr/pppppppp/8/8/8/8/PPPPPPPP/RNBQKBNR b KQkq - 0 1").unwrap();
    let fewer = state_board("rnbqkbnr/pppppppp/8/8/8/8/PPPPPPPP/RNBQKBNR w KQk - 0 1").unwrap();
    let pushed = state_board("rnbqkbnr/pppppppp/8/8/4P3/8/PPPP1PPP/RNBQKBNR b KQkq e3 0 1").unwrap();
    let quiet = state_board("rnbqkbnr/pppppppp/8/8/4P3/8/PPPP1PPP/RNBQKBNR b KQkq - 0 1").unwrap();
    let later = state_board("rnbqkbnr/pppppppp/8/8/8/8/PPPPPPPP/RNBQKBNR w KQkq - 7 12").unwrap();
    assert_ne!(start.get_key(), black.get_key());
    assert_ne!(start.get_key(), fewer.get_key());
    assert_ne!(pushed.get_key(), quiet.get_key());
    assert_eq!(start.get_key(), later.get_key());
    let mut moved = start;
    moved.make_move(Move::from_squares(Square::from_raw(12), Square::from_raw(28), MoveFlag::DoublePush));
    assert_eq!(moved.get_key(), pushed.get_key());
}

#[test]
fn transposed_lines_meet_in_one_hash() {
    let start = state_board(START).unwrap();
    let knight_out = Move::from_squares(Square::from_raw(6), Square::from_raw(21), MoveFlag::QuietMove);
    let pawn_up = Move::from_squares(Square::from_raw(11), Square::from_raw(19), MoveFlag::QuietMove);
    let reply_a = Move::from_squares(Square::from_raw(57), Square::from_raw(42), MoveFlag::QuietMove);
    let reply_b = Move::from_squares(Square::from_raw(51), Square::from_raw(43), MoveFlag::QuietMove);
    let mut one = start;
    for mv in [knight_out, reply_a, pawn_up, reply_b] {
        one.make_move(mv);
    }
    let mut two = start;
    for mv in [pawn_up, reply_b, knight_out, reply_a] {
        two.make_move(mv);
    }
    assert_eq!(one.get_key(), two.get_key());
    assert_eq!(placement_of(&one), placement_of(&two));
}
