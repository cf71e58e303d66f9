use spear::{Bitboard, CastleRight, ChessBoard, Man, Move, MoveFlag, MoveGen, Piece, Side, Square};

fn gen_board(fen: &str) -> ChessBoard {
    let parts: Vec<&str> = fen.split(' ').collect();
    let mut placement: Vec<Option<Man>> = vec![None; 64];
    let mut rank: usize = 7;
    let mut file: usize = 0;
    for c in parts[0].chars() {
        if c == '/' {
            rank -= 1;
            file = 0;
        } else if let Some(skip) = c.to_digit(10) {
            file += skip as usize;
        } else {
            let piece = match c.to_ascii_lowercase() {
                'p' => Piece::Pawn,
                'n' => Piece::Knight,
                'b' => Piece::Bishop,
                'r' => Piece::Rook,
                'q' => Piece::Queen,
                _ => Piece::King,
            };
            placement[rank * 8 + file] = Some(Man { white: c.is_ascii_uppercase(), piece });
            file += 1;
        }
    }
    let side = if parts[1] == "w" { Side::White } else { Side::Black };
    let mut rights = CastleRight::null();
    for c in parts[2].chars() {
        match c {
            'K' => rights.set_right(CastleRight::white_king()),
            'Q' => rights.set_right(CastleRight::white_queen()),
            'k' => rights.set_right(CastleRight::black_king()),
            'q' => rights.set_right(CastleRight::black_queen()),
            _ => {}
        }
    }
    let en_passant = if parts[3] == "-" {
        Square::null()
    } else {
        let bytes = parts[3].as_bytes();
        Square::from_coords(bytes[1] - b'1', bytes[0] - b'a')
    };
    let half: u16 = parts[4].parse().unwrap();
    let full: u16 = parts[5].parse().unwrap();
    ChessBoard::from_parts(&placement, side, rights, en_passant, half, full).expect("a valid position")
}

fn mv(from: u8, to: u8, flag: MoveFlag) -> Move {
    Move::from_squares(Square::from_raw(from), Square::from_raw(to), flag)
}

fn seen_by(board: &ChessBoard, white: bool, target: i32) -> u64 {
    let mut attackers: u64 = 0;
    for s in 0..64i32 {
        let man = match board.get_piece_on_square(Square::from_raw(s as u8)) {
            Some(man) if man.white == white => man,
            _ => continue,
        };
        let df = target % 8 - s % 8;
        let dr = target / 8 - s / 8;
        if df == 0 && dr == 0 {
            continue;
        }
        let straight = df == 0 || dr == 0;
        let diagonal = df.abs() == dr.abs();
        let open = |board: &ChessBoard| {
            let (sf, sr) = (df.signum(), dr.signum());
            let (mut f, mut r) = (s % 8 + sf, s / 8 + sr);
            while (f, r) != (target % 8, target / 8) {
                if board.get_piece_on_square(Square::from_raw((r * 8 + f) as u8)).is_some() {
                    return false;
                }
                f += sf;
                r += sr;
            }
            true
        };
        let hits = match man.piece {
            Piece::Pawn => df.abs() == 1 && dr == if white { 1 } else { -1 },
            Piece::Knight => (df.abs() == 1 && dr.abs() == 2) || (df.abs() == 2 && dr.abs() == 1),
            Piece::King => df.abs() <= 1 && dr.abs() <= 1,
            Piece::Bishop => diagonal && open(board),
            Piece::Rook => straight && open(board),
            Piece::Queen => (diagonal || straight) && open(board),
        };
        if hits {
            attackers |= 1u64 << s;
        }
    }
    attackers
}

fn walk_positions(board: &ChessBoard, depth: u8, visit: &mut dyn FnMut(&ChessBoard)) {
    visit(board);
    if depth == 0 {
        return;
    }
    for mv in MoveGen::legal_moves(board) {
        let mut next = *board;
        next.make_move(mv);
        walk_positions(&next, depth - 1, visit);
    }
}

const START: &str = "rnbqkbnr/pppppppp/8/8/8/8/PPPPPPPP/RNBQKBNR w KQkq - 0 1";
const KIWIPETE: &str = "r3k2r/p1ppqpb1/bn2pnp1/3PN3/1p2P3/2N2Q1p/PPPBBPPP/R3K2R w KQkq - 0 1";

#[test]
fn no_listed_move_leaves_the_own_king_attacked() {
    for fen in [
        START,
        KIWIPETE,
        "8/2p5/3p4/KP5r/1R3p1k/8/4P1P1/8 w - - 0 1",
        "rnbq1k1r/pp1Pbppp/2p5/8/2B5/8/PPP1NnPP/RNBQK2R w KQ - 1 8",
    ] {
        let board = gen_board(fen);
        walk_positions(&board, 2, &mut |reached| {
            let white = reached.side_to_move().is_white();
            for mv in MoveGen::legal_moves(reached) {
                let mut next = *reached;
                next.make_move(mv);
                let king = if white { next.get_king_square::<true>() } else { next.get_king_square::<false>() };
                assert_eq!(seen_by(&next, !white, king.get_raw() as i32), 0);
            }
        });
    }
}

#[test]
fn checkers_and_attacks_match_a_search_of_the_whole_board() {
    for fen in [KIWIPETE, "r3k2r/Pppp1ppp/1b3nbN/nP6/BBP1P3/q4N2/Pp1P2PP/R2Q1RK1 w kq - 0 1"] {
        let board = gen_board(fen);
        walk_positions(&board, 2, &mut |reached| {
            let white = reached.side_to_move().is_white();
            let (checkers, king) = if white {
                (MoveGen::get_checkers::<true, false>(reached), reached.get_king_square::<true>())
            } else {
                (MoveGen::get_checkers::<false, true>(reached), reached.get_king_square::<false>())
            };
            assert_eq!(checkers.get_raw(), seen_by(reached, !white, king.get_raw() as i32));
            for target in 0..64u8 {
                let square = Square::from_raw(target);
                let by_white = seen_by(reached, true, target as i32);
                let by_black = seen_by(reached, false, target as i32);
                assert_eq!(reached.attackers_of::<true>(square, reached.get_occupancy()).get_raw(), by_white);
                assert_eq!(reached.attackers_of::<false>(square, reached.get_occupancy()).get_raw(), by_black);
                let occupancy = reached.get_occupancy();
                assert_eq!(reached.is_square_attacked_with_occupancy::<true>(square, occupancy), by_white != 0);
                assert_eq!(reached.is_square_attacked_with_occupancy::<false>(square, occupancy), by_black != 0);
            }
        });
    }
}

#[test]
fn double_check_yields_king_moves_only() {
    let board = gen_board("4k3/8/8/8/8/5n2/8/4K2r w - - 0 1");
    let checkers = MoveGen::get_checkers::<true, false>(&board);
    assert_eq!(checkers.get_raw(), (1u64 << 7) | (1u64 << 21));
    let moves = MoveGen::legal_moves(&board);
    assert_eq!(moves, vec![mv(4, 12, MoveFlag::QuietMove), mv(4, 13, MoveFlag::QuietMove)]);
    let armed = gen_board("4k3/8/8/8/8/5n2/3Q4/R3K2r w Q - 0 1");
    for listed in MoveGen::legal_moves(&armed) {
        assert_eq!(listed.get_from_square().get_raw(), 4);
    }
    assert_eq!(MoveGen::legal_moves(&armed).len(), 2);
}

#[test]
fn double_check_without_a_flight_square_yields_no_move() {
    let board = gen_board("6rk/5Npp/8/8/8/8/8/K6R b - - 0 1");
    assert_eq!(MoveGen::get_checkers::<false, true>(&board).get_raw(), 1u64 << 53);
    let smothered = gen_board("7k/5N1p/8/8/8/8/8/K5R1 b - - 0 1");
    assert!(MoveGen::legal_moves(&smothered).is_empty());
    let mate = gen_board("R3k3/8/4K3/8/8/8/8/8 b - - 0 1");
    assert!(MoveGen::legal_moves(&mate).is_empty());
    let twice = gen_board("3rk3/8/8/8/8/2b5/8/3RK2r w - - 0 1");
    assert_eq!(MoveGen::get_checkers::<true, false>(&twice).get_raw(), (1u64 << 7) | (1u64 << 18));
    assert_eq!(MoveGen::legal_moves(&twice), vec![mv(4, 12, MoveFlag::QuietMove), mv(4, 13, MoveFlag::QuietMove)]);
}

#[test]
fn single_check_is_answered_by_block_capture_or_flight() {
    let board = gen_board("4k3/8/8/8/8/8/3N4/4K2r w - - 0 1");
    let moves = MoveGen::legal_moves(&board);
    assert_eq!(
        moves,
        vec![
            mv(4, 12, MoveFlag::QuietMove),
            mv(4, 13, MoveFlag::QuietMove),
            mv(11, 5, MoveFlag::QuietMove),
        ]
    );
    let taking = gen_board("4k3/8/8/8/8/6N1/8/4K2r w - - 0 1");
    assert!(MoveGen::legal_moves(&taking).contains(&mv(22, 7, MoveFlag::Capture)));
    assert!(MoveGen::legal_moves(&taking).contains(&mv(22, 5, MoveFlag::QuietMove)));
    assert_eq!(MoveGen::legal_moves(&taking).len(), 5);
}

#[test]
fn en_passant_that_opens_the_rank_is_not_listed() {
    let board = gen_board("7k/8/8/K2pP2r/8/8/8/8 w - d6 0 1");
    let moves = MoveGen::legal_moves(&board);
    assert!(moves.iter().all(|listed| listed.get_flag() != MoveFlag::EnPassant));
    assert!(moves.contains(&mv(36, 44, MoveFlag::QuietMove)));
    assert_eq!(MoveGen::get_pins::<true, false>(&board, false), Bitboard::empty());
    assert_eq!(MoveGen::get_pins::<true, false>(&board, true), Bitboard::empty());
    let black = gen_board("8/8/8/8/k2Pp2R/8/8/7K b - d3 0 1");
    assert!(MoveGen::legal_moves(&black).iter().all(|listed| listed.get_flag() != MoveFlag::EnPassant));
    let captures = MoveGen::capture_moves(&board);
    assert!(captures.iter().all(|listed| listed.get_flag() != MoveFlag::EnPassant));
}

#[test]
fn en_passant_is_listed_where_it_is_safe() {
    let board = gen_board("7k/8/8/3pP3/8/8/8/K7 w - d6 0 1");
    assert!(MoveGen::legal_moves(&board).contains(&mv(36, 43, MoveFlag::EnPassant)));
    assert!(MoveGen::capture_moves(&board).contains(&mv(36, 43, MoveFlag::EnPassant)));
    let both = gen_board("7k/8/8/2PpP3/8/8/8/K7 w - d6 0 1");
    let moves = MoveGen::legal_moves(&both);
    assert!(moves.contains(&mv(34, 43, MoveFlag::EnPassant)));
    assert!(moves.contains(&mv(36, 43, MoveFlag::EnPassant)));
    let guarded = gen_board("7k/8/8/K1PpP2r/8/8/8/8 w - d6 0 1");
    let moves = MoveGen::legal_moves(&guarded);
    assert!(moves.contains(&mv(34, 43, MoveFlag::EnPassant)));
    assert!(moves.contains(&mv(36, 43, MoveFlag::EnPassant)));
    let checking_pawn = gen_board("8/8/8/3pP3/4K3/8/8/7k w - d6 0 1");
    assert!(MoveGen::legal_moves(&checking_pawn).contains(&mv(36, 43, MoveFlag::EnPassant)));
    let black = gen_board("7k/8/8/8/3pP3/8/8/K7 b - e3 0 1");
    assert!(MoveGen::legal_moves(&black).contains(&mv(27, 20, MoveFlag::EnPassant)));
}

#[test]
fn castling_is_listed_when_all_conditions_hold() {
    let board = gen_board("r3k2r/8/8/8/8/8/8/R3K2R w KQkq - 0 1");
    let moves = MoveGen::legal_moves(&board);
    assert!(moves.contains(&mv(4, 6, MoveFlag::KingSideCastle)));
    assert!(moves.contains(&mv(4, 2, MoveFlag::QueenSideCastle)));
    assert_eq!(moves.len(), 26);
    let black = gen_board("r3k2r/8/8/8/8/8/8/R3K2R b KQkq - 0 1");
    let moves = MoveGen::legal_moves(&black);
    assert!(moves.contains(&mv(60, 62, MoveFlag::KingSideCastle)));
    assert!(moves.contains(&mv(60, 58, MoveFlag::QueenSideCastle)));
    let knight_file = gen_board("1r2k3/8/8/8/8/8/8/R3K2R w KQ - 0 1");
    assert!(MoveGen::legal_moves(&knight_file).contains(&mv(4, 2, MoveFlag::QueenSideCastle)));
}

#[test]
fn castling_is_not_listed_through_or_into_attack() {
    let passed = gen_board("4kr2/8/8/8/8/8/8/R3K2R w KQ - 0 1");
    let moves = MoveGen::legal_moves(&passed);
    assert!(!moves.contains(&mv(4, 6, MoveFlag::KingSideCastle)));
    assert!(moves.contains(&mv(4, 2, MoveFlag::QueenSideCastle)));
    let reached = gen_board("2r1k3/8/8/8/8/8/8/R3K2R w KQ - 0 1");
    let moves = MoveGen::legal_moves(&reached);
    assert!(moves.contains(&mv(4, 6, MoveFlag::KingSideCastle)));
    assert!(!moves.contains(&mv(4, 2, MoveFlag::QueenSideCastle)));
    let queen_path = gen_board("3rk3/8/8/8/8/8/8/R3K2R w KQ - 0 1");
    assert!(!MoveGen::legal_moves(&queen_path).contains(&mv(4, 2, MoveFlag::QueenSideCastle)));
    let in_check = gen_board("4k3/8/8/8/8/8/4r3/R3K2R w KQ - 0 1");
    let moves = MoveGen::legal_moves(&in_check);
    assert!(moves.iter().all(|listed| !listed.get_flag().is_castle()));
    let by_pawn = gen_board("4k3/8/8/8/8/8/6p1/R3K2R w KQ - 0 1");
    let moves = MoveGen::legal_moves(&by_pawn);
    assert!(!moves.contains(&mv(4, 6, MoveFlag::KingSideCastle)));
    assert!(moves.contains(&mv(4, 2, MoveFlag::QueenSideCastle)));
}

#[test]
fn castling_is_not_listed_without_the_right_or_through_men() {
    let revoked = gen_board("r3k2r/8/8/8/8/8/8/R3K2R w Qkq - 0 1");
    let moves = MoveGen::legal_moves(&revoked);
    assert!(!moves.contains(&mv(4, 6, MoveFlag::KingSideCastle)));
    assert!(moves.contains(&mv(4, 2, MoveFlag::QueenSideCastle)));
    let none = gen_board("r3k2r/8/8/8/8/8/8/R3K2R w - - 0 1");
    assert!(MoveGen::legal_moves(&none).iter().all(|listed| !listed.get_flag().is_castle()));
    let blocked = gen_board("r3k2r/8/8/8/8/8/8/RN2KB1R w KQkq - 0 1");
    assert!(MoveGen::legal_moves(&blocked).iter().all(|listed| !listed.get_flag().is_castle()));
    let own_knight = gen_board("r3k2r/8/8/8/8/8/8/R3K1NR w KQkq - 0 1");
    let moves = MoveGen::legal_moves(&own_knight);
    assert!(!moves.contains(&mv(4, 6, MoveFlag::KingSideCastle)));
    assert!(moves.contains(&mv(4, 2, MoveFlag::QueenSideCastle)));
    let enemy_bishop = gen_board("r3k2r/8/8/8/8/8/8/R2bK2R w KQkq - 0 1");
    assert!(!MoveGen::legal_moves(&enemy_bishop).contains(&mv(4, 2, MoveFlag::QueenSideCastle)));
    let mut moved = gen_board("r3k2r/8/8/8/8/8/8/R3K2R w KQkq - 0 1");
    for step in [mv(7, 15, MoveFlag::QuietMove), mv(56, 57, MoveFlag::QuietMove), mv(15, 7, MoveFlag::QuietMove), mv(57, 56, MoveFlag::QuietMove)] {
        moved.make_move(step);
    }
    let moves = MoveGen::legal_moves(&moved);
    assert!(!moves.contains(&mv(4, 6, MoveFlag::KingSideCastle)));
    assert!(moves.contains(&mv(4, 2, MoveFlag::QueenSideCastle)));
    assert_eq!(moved.castle_rights().to_string(), "Qk");
}

#[test]
fn pinned_men_stay_on_the_line_of_their_pin() {
    let board = gen_board("4k3/4r3/8/8/8/8/4R3/4K3 w - - 0 1");
    let pins = MoveGen::get_pins::<true, false>(&board, false);
    assert_eq!(pins.get_raw(), 0x0010_1010_1010_1000);
    assert_eq!(MoveGen::get_pins::<true, false>(&board, true), Bitboard::empty());
    let rook_moves: Vec<Move> =
        MoveGen::legal_moves(&board).into_iter().filter(|listed| listed.get_from_square().get_raw() == 12).collect();
    assert_eq!(
        rook_moves,
        vec![
            mv(12, 20, MoveFlag::QuietMove),
            mv(12, 28, MoveFlag::QuietMove),
            mv(12, 36, MoveFlag::QuietMove),
            mv(12, 44, MoveFlag::QuietMove),
            mv(12, 52, MoveFlag::Capture),
        ]
    );
    let knight = gen_board("4k3/4r3/8/8/8/8/4N3/4K3 w - - 0 1");
    assert!(MoveGen::legal_moves(&knight).iter().all(|listed| listed.get_from_square().get_raw() == 4));
    let bishop = gen_board("4k3/8/8/8/7b/8/5B2/4K3 w - - 0 1");
    assert_eq!(MoveGen::get_pins::<true, false>(&bishop, true).get_raw(), (1u64 << 13) | (1u64 << 22) | (1u64 << 31));
    let bishop_moves: Vec<Move> =
        MoveGen::legal_moves(&bishop).into_iter().filter(|listed| listed.get_from_square().get_raw() == 13).collect();
    assert_eq!(bishop_moves, vec![mv(13, 22, MoveFlag::QuietMove), mv(13, 31, MoveFlag::Capture)]);
    let two_between = gen_board("4k3/4r3/8/8/4N3/8/4R3/4K3 w - - 0 1");
    assert_eq!(MoveGen::get_pins::<true, false>(&two_between, false), Bitboard::empty());
    let queen = gen_board("4k3/8/8/8/7b/8/5Q2/4K3 w - - 0 1");
    let queen_moves: Vec<Move> =
        MoveGen::legal_moves(&queen).into_iter().filter(|listed| listed.get_from_square().get_raw() == 13).collect();
    assert_eq!(queen_moves, vec![mv(13, 22, MoveFlag::QuietMove), mv(13, 31, MoveFlag::Capture)]);
}

#[test]
fn pinned_pawns_move_along_the_pin_only() {
    let file_pin = gen_board("4k3/4r3/8/8/8/3p1p2/4P3/4K3 w - - 0 1");
    let pawn_moves: Vec<Move> =
        MoveGen::legal_moves(&file_pin).into_iter().filter(|listed| listed.get_from_square().get_raw() == 12).collect();
    assert_eq!(pawn_moves, vec![mv(12, 20, MoveFlag::QuietMove), mv(12, 28, MoveFlag::DoublePush)]);
    let rank_pin = gen_board("4k3/8/8/8/8/8/r3P2K/8 w - - 0 1");
    assert!(MoveGen::legal_moves(&rank_pin).iter().all(|listed| listed.get_from_square().get_raw() != 12));
    let diagonal_pin = gen_board("4k3/8/8/8/8/6b1/5P2/4K3 w - - 0 1");
    let pawn_moves: Vec<Move> = MoveGen::legal_moves(&diagonal_pin)
        .into_iter()
        .filter(|listed| listed.get_from_square().get_raw() == 13)
        .collect();
    assert_eq!(pawn_moves, vec![mv(13, 22, MoveFlag::Capture)]);
    let other_diagonal = gen_board("4k3/8/8/8/7b/4p3/5P2/4K3 w - - 0 1");
    assert!(MoveGen::legal_moves(&other_diagonal).iter().all(|listed| listed.get_from_square().get_raw() != 13));
    let far_pinner = gen_board("4k3/8/8/8/7b/4p1p1/5P2/4K3 w - - 0 1");
    let pawn_moves: Vec<Move> = MoveGen::legal_moves(&far_pinner)
        .into_iter()
        .filter(|listed| listed.get_from_square().get_raw() == 13)
        .collect();
    assert_eq!(
        pawn_moves,
        vec![
            mv(13, 20, MoveFlag::Capture),
            mv(13, 22, MoveFlag::Capture),
            mv(13, 21, MoveFlag::QuietMove),
            mv(13, 29, MoveFlag::DoublePush),
        ]
    );
}

#[test]
fn pawn_moves_from_the_start_position() {
    let board = gen_board(START);
    let mut moves: Vec<Move> = Vec::new();
    MoveGen::generate_pawn_moves::<true, false, false>(
        &board,
        board.get_occupancy().inverse(),
        Bitboard::empty(),
        Bitboard::empty(),
        Bitboard::empty(),
        &mut moves,
    );
    let mut expected: Vec<Move> = (8..16).map(|from| mv(from, from + 8, MoveFlag::QuietMove)).collect();
    expected.extend((8..16).map(|from| mv(from, from + 16, MoveFlag::DoublePush)));
    assert_eq!(moves, expected);
    let mut kept: Vec<Move> = vec![mv(1, 18, MoveFlag::QuietMove)];
    MoveGen::generate_pawn_moves::<true, false, true>(
        &board,
        board.get_occupancy().inverse(),
        Bitboard::empty(),
        Bitboard::empty(),
        Bitboard::empty(),
        &mut kept,
    );
    assert_eq!(kept, vec![mv(1, 18, MoveFlag::QuietMove)]);
}

#[test]
fn pawn_moves_under_maps_of_the_whole_board() {
    let board = gen_board(START);
    let mut moves: Vec<Move> = Vec::new();
    MoveGen::generate_pawn_moves::<true, false, false>(
        &board,
        Bitboard::full(),
        Bitboard::full(),
        MoveGen::get_pins::<true, false>(&board, true),
        MoveGen::get_pins::<true, false>(&board, false),
        &mut moves,
    );
    let mut expected: Vec<Move> = (8..16).map(|from| mv(from, from + 8, MoveFlag::QuietMove)).collect();
    expected.extend((8..16).map(|from| mv(from, from + 16, MoveFlag::DoublePush)));
    assert_eq!(moves.len(), 16);
    assert_eq!(moves, expected);
    let mut captures: Vec<Move> = Vec::new();
    MoveGen::generate_pawn_moves::<true, false, true>(
        &board,
        Bitboard::full(),
        Bitboard::full(),
        Bitboard::empty(),
        Bitboard::empty(),
        &mut captures,
    );
    assert_eq!(captures, Vec::<Move>::new());
}

#[test]
fn pawns_take_neither_empty_squares_nor_own_men_nor_kings() {
    let lone = gen_board("4k3/8/8/8/8/8/1P6/4K3 w - - 0 1");
    let mut moves: Vec<Move> = Vec::new();
    MoveGen::generate_pawn_moves::<true, false, false>(
        &lone,
        Bitboard::full(),
        Bitboard::full(),
        MoveGen::get_pins::<true, false>(&lone, true),
        MoveGen::get_pins::<true, false>(&lone, false),
        &mut moves,
    );
    assert_eq!(moves, vec![mv(9, 17, MoveFlag::QuietMove), mv(9, 25, MoveFlag::DoublePush)]);
    let crowded = gen_board("8/8/8/8/8/K1k5/1P6/8 w - - 0 1");
    let mut moves: Vec<Move> = Vec::new();
    MoveGen::generate_pawn_moves::<true, false, false>(
        &crowded,
        Bitboard::full(),
        Bitboard::full(),
        Bitboard::empty(),
        Bitboard::empty(),
        &mut moves,
    );
    assert_eq!(moves, vec![mv(9, 17, MoveFlag::QuietMove), mv(9, 25, MoveFlag::DoublePush)]);
    let blocked = gen_board("4k3/8/8/8/8/1n6/1P6/4K3 w - - 0 1");
    let mut moves: Vec<Move> = Vec::new();
    MoveGen::generate_pawn_moves::<true, false, false>(
        &blocked,
        Bitboard::full(),
        Bitboard::full(),
        Bitboard::empty(),
        Bitboard::empty(),
        &mut moves,
    );
    assert_eq!(moves, Vec::<Move>::new());
    let black = gen_board("4k3/1p6/N1R5/8/8/8/8/4K3 b - - 0 1");
    let mut moves: Vec<Move> = Vec::new();
    MoveGen::generate_pawn_moves::<false, true, false>(
        &black,
        Bitboard::full(),
        Bitboard::full(),
        Bitboard::empty(),
        Bitboard::empty(),
        &mut moves,
    );
    assert_eq!(
        moves,
        vec![
            mv(49, 40, MoveFlag::Capture),
            mv(49, 42, MoveFlag::Capture),
            mv(49, 41, MoveFlag::QuietMove),
            mv(49, 33, MoveFlag::DoublePush),
        ]
    );
}

#[test]
fn pawn_moves_under_the_masks_of_the_position_are_the_legal_pawn_moves() {
    for fen in [
        KIWIPETE,
        "r3k2r/Pppp1ppp/1b3nbN/nP6/BBP1P3/q4N2/Pp1P2PP/R2Q1RK1 w kq - 0 1",
        "7k/8/8/2PpP3/8/8/8/K7 w - d6 0 1",
        "4k3/4r3/8/8/8/3p1p2/4P3/4K3 w - - 0 1",
        "4k3/8/8/8/8/8/4P3/r3K3 w - - 0 1",
    ] {
        let board = gen_board(fen);
        walk_positions(&board, 1, &mut |reached| {
            let white = reached.side_to_move().is_white();
            let checkers = if white {
                MoveGen::get_checkers::<true, false>(reached)
            } else {
                MoveGen::get_checkers::<false, true>(reached)
            };
            let king = if white { reached.get_king_square::<true>() } else { reached.get_king_square::<false>() };
            let giver = checkers.squares();
            let mask = match giver.len() {
                0 => Bitboard::full(),
                1 => spear::Attacks::get_between(king, giver[0]).or(Bitboard::from_square(giver[0])),
                _ => Bitboard::empty(),
            };
            let mut listed: Vec<Move> = Vec::new();
            if white {
                MoveGen::generate_pawn_moves::<true, false, false>(
                    reached,
                    mask,
                    mask,
                    MoveGen::get_pins::<true, false>(reached, true),
                    MoveGen::get_pins::<true, false>(reached, false),
                    &mut listed,
                );
            } else {
                MoveGen::generate_pawn_moves::<false, true, false>(
                    reached,
                    mask,
                    mask,
                    MoveGen::get_pins::<false, true>(reached, true),
                    MoveGen::get_pins::<false, true>(reached, false),
                    &mut listed,
                );
            }
            let expected: Vec<Move> = MoveGen::legal_moves(reached)
                .into_iter()
                .filter(|m| reached.get_piece_on_square(m.get_from_square()).unwrap().piece == Piece::Pawn)
                .collect();
            assert_eq!(listed, expected);
        });
    }
}

#[test]
fn pawn_captures_do_not_wrap_around_the_board() {
    let board = gen_board("4k3/8/8/8/8/p6p/P6P/4K3 w - - 0 1");
    let mut moves: Vec<Move> = Vec::new();
    MoveGen::generate_pawn_moves::<true, false, false>(
        &board,
        board.get_occupancy().inverse(),
        board.get_occupancy_for_side::<false>(),
        Bitboard::empty(),
        Bitboard::empty(),
        &mut moves,
    );
    assert_eq!(moves, Vec::<Move>::new());
    let black = gen_board("4k3/p6p/P6P/8/8/8/8/4K3 b - - 0 1");
    let mut moves: Vec<Move> = Vec::new();
    MoveGen::generate_pawn_moves::<false, true, false>(
        &black,
        black.get_occupancy().inverse(),
        black.get_occupancy_for_side::<true>(),
        Bitboard::empty(),
        Bitboard::empty(),
        &mut moves,
    );
    assert_eq!(moves, Vec::<Move>::new());
}

#[test]
fn pawn_moves_come_in_the_order_of_their_kinds() {
    let board = gen_board("1nk3n1/P4P1P/8/3pP3/8/2p1p3/1P1P4/4K3 w - d6 0 1");
    let moves: Vec<Move> = MoveGen::legal_moves(&board)
        .into_iter()
        .filter(|listed| board.get_piece_on_square(listed.get_from_square()).unwrap().piece == Piece::Pawn)
        .collect();
    let expected = vec![
        mv(11, 18, MoveFlag::Capture),
        mv(9, 18, MoveFlag::Capture),
        mv(11, 20, MoveFlag::Capture),
        mv(55, 62, MoveFlag::KnightPromotionCapture),
        mv(55, 62, MoveFlag::BishopPromotionCapture),
        mv(55, 62, MoveFlag::RookPromotionCapture),
        mv(55, 62, MoveFlag::QueenPromotionCapture),
        mv(48, 57, MoveFlag::KnightPromotionCapture),
        mv(48, 57, MoveFlag::BishopPromotionCapture),
        mv(48, 57, MoveFlag::RookPromotionCapture),
        mv(48, 57, MoveFlag::QueenPromotionCapture),
        mv(53, 62, MoveFlag::KnightPromotionCapture),
        mv(53, 62, MoveFlag::BishopPromotionCapture),
        mv(53, 62, MoveFlag::RookPromotionCapture),
        mv(53, 62, MoveFlag::QueenPromotionCapture),
        mv(36, 43, MoveFlag::EnPassant),
        mv(9, 17, MoveFlag::QuietMove),
        mv(11, 19, MoveFlag::QuietMove),
        mv(36, 44, MoveFlag::QuietMove),
        mv(9, 25, MoveFlag::DoublePush),
        mv(11, 27, MoveFlag::DoublePush),
        mv(48, 56, MoveFlag::KnightPromotion),
        mv(48, 56, MoveFlag::BishopPromotion),
        mv(48, 56, MoveFlag::RookPromotion),
        mv(48, 56, MoveFlag::QueenPromotion),
        mv(53, 61, MoveFlag::KnightPromotion),
        mv(53, 61, MoveFlag::BishopPromotion),
        mv(53, 61, MoveFlag::RookPromotion),
        mv(53, 61, MoveFlag::QueenPromotion),
        mv(55, 63, MoveFlag::KnightPromotion),
        mv(55, 63, MoveFlag::BishopPromotion),
        mv(55, 63, MoveFlag::RookPromotion),
        mv(55, 63, MoveFlag::QueenPromotion),
    ];
    assert_eq!(moves, expected);
}

#[test]
fn double_push_needs_an_empty_square_in_front() {
    let board = gen_board("4k3/8/8/8/8/4n3/4P3/4K3 w - - 0 1");
    assert!(MoveGen::legal_moves(&board).iter().all(|listed| listed.get_from_square().get_raw() != 12));
    let far = gen_board("4k3/8/8/8/4n3/8/4P3/4K3 w - - 0 1");
    let pawn_moves: Vec<Move> =
        MoveGen::legal_moves(&far).into_iter().filter(|listed| listed.get_from_square().get_raw() == 12).collect();
    assert_eq!(pawn_moves, vec![mv(12, 20, MoveFlag::QuietMove)]);
}

#[test]
fn capture_only_lists_the_captures_of_the_full_list() {
    for fen in [
        KIWIPETE,
        "r3k2r/Pppp1ppp/1b3nbN/nP6/BBP1P3/q4N2/Pp1P2PP/R2Q1RK1 w kq - 0 1",
        "7k/8/8/2PpP3/8/8/8/K7 w - d6 0 1",
        "4k3/8/8/8/8/5n2/8/4K2r w - - 0 1",
    ] {
        let board = gen_board(fen);
        walk_positions(&board, 1, &mut |reached| {
            let all = MoveGen::legal_moves(reached);
            let captures = MoveGen::capture_moves(reached);
            let expected: Vec<Move> = all.into_iter().filter(|listed| listed.is_capture()).collect();
            assert_eq!(captures, expected);
        });
    }
    let start = gen_board(START);
    assert!(MoveGen::capture_moves(&start).is_empty());
}

#[test]
fn the_king_is_never_taken() {
    let board = gen_board("4k3/4Q3/8/8/8/8/8/4K3 w - - 0 1");
    for listed in MoveGen::legal_moves(&board) {
        assert_ne!(listed.get_to_square().get_raw(), 60);
    }
}

#[test]
fn the_king_does_not_step_along_the_line_of_a_checking_slider() {
    let board = gen_board("4k3/8/8/8/8/8/8/r3K3 w - - 0 1");
    let moves = MoveGen::legal_moves(&board);
    assert_eq!(
        moves,
        vec![mv(4, 11, MoveFlag::QuietMove), mv(4, 12, MoveFlag::QuietMove), mv(4, 13, MoveFlag::QuietMove)]
    );
}

#[test]
fn attacks_pass_through_the_square_of_the_defending_king() {
    let board = gen_board("4k3/8/8/8/8/8/8/r3K3 w - - 0 1");
    let behind = Square::from_raw(5);
    assert!(board.is_square_attacked::<true, false>(behind));
    assert!(!board.is_square_attacked_with_occupancy::<false>(behind, board.get_occupancy()));
    assert!(board.is_square_attacked::<true, false>(Square::from_raw(4)));
    assert!(board.is_square_attacked::<true, false>(Square::from_raw(3)));
    assert!(!board.is_square_attacked::<true, false>(Square::from_raw(12)));
    assert!(board.is_square_attacked::<false, true>(Square::from_raw(12)));
    assert!(!board.is_square_attacked::<false, true>(Square::from_raw(60)));
}

#[test]
fn stalemate_yields_no_move() {
    let board = gen_board("7k/5Q2/6K1/8/8/8/8/8 b - - 0 1");
    assert!(MoveGen::legal_moves(&board).is_empty());
    assert!(MoveGen::get_checkers::<false, true>(&board).is_empty());
}

#[test]
fn moves_are_appended_to_what_the_list_holds() {
    let board = gen_board(START);
    let mut moves: Vec<Move> = vec![mv(0, 1, MoveFlag::QuietMove)];
    MoveGen::generate_moves::<true, false, false>(&board, &mut moves);
    assert_eq!(moves.len(), 21);
    assert_eq!(moves[0], mv(0, 1, MoveFlag::QuietMove));
    assert_eq!(moves[1..].to_vec(), MoveGen::legal_moves(&board));
}
