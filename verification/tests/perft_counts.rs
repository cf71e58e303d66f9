use spear::{CastleRight, ChessBoard, Man, Perft, Piece, Side, Square};

fn perft_board(fen: &str) -> ChessBoard {
    let parts: Vec<&str> = fen.split(' ').collect();
    let mut placement: Vec<Option<Man>> = vec![None; 64];
    let mut rank: usize = 7;
    let mut file: usize = 0;
    for c in parts[0].chars() {
        if c == '/' {
            rank -= 1;
            file = 0;
        } else if let Some(skip) = c.to_digit(10) {
            file += skip as usize;
        } else {
            let piece = match c.to_ascii_lowercase() {
                'p' => Piece::Pawn,
                'n' => Piece::Knight,
                'b' => Piece::Bishop,
                'r' => Piece::Rook,
                'q' => Piece::Queen,
                _ => Piece::King,
            };
            placement[rank * 8 + file] = Some(Man { white: c.is_ascii_uppercase(), piece });
            file += 1;
        }
    }
    let side = if parts[1] == "w" { Side::White } else { Side::Black };
    let mut rights = CastleRight::null();
    for c in parts[2].chars() {
        match c {
            'K' => rights.set_right(CastleRight::white_king()),
            'Q' => rights.set_right(CastleRight::white_queen()),
            'k' => rights.set_right(CastleRight::black_king()),
            'q' => rights.set_right(CastleRight::black_queen()),
            _ => {}
        }
    }
    let en_passant = if parts[3] == "-" {
        Square::null()
    } else {
        let bytes = parts[3].as_bytes();
        Square::from_coords(bytes[1] - b'1', bytes[0] - b'a')
    };
    let half: u16 = parts[4].parse().unwrap();
    let full: u16 = parts[5].parse().unwrap();
    ChessBoard::from_parts(&placement, side, rights, en_passant, half, full).expect("a valid position")
}

const START: &str = "rnbqkbnr/pppppppp/8/8/8/8/PPPPPPPP/RNBQKBNR w KQkq - 0 1";
const KIWIPETE: &str = "r3k2r/p1ppqpb1/bn2pnp1/3PN3/1p2P3/2N2Q1p/PPPBBPPP/R3K2R w KQkq - 0 1";

#[test]
fn start_position_depth_one_to_four() {
    let board = perft_board(START);
    assert_eq!(Perft::perft::<false>(&board, 1), 20);
    assert_eq!(Perft::perft::<false>(&board, 2), 400);
    assert_eq!(Perft::perft::<false>(&board, 3), 8902);
    assert_eq!(Perft::perft::<false>(&board, 4), 197281);
}

#[test]
fn start_position_depth_five() {
    let board = perft_board(START);
    assert_eq!(Perft::perft::<true>(&board, 5), 4865609);
}

#[test]
fn kiwipete_depth_one_to_three() {
    let board = perft_board(KIWIPETE);
    assert_eq!(Perft::perft::<false>(&board, 1), 48);
    assert_eq!(Perft::perft::<false>(&board, 2), 2039);
    assert_eq!(Perft::perft::<false>(&board, 3), 97862);
}

#[test]
fn depth_zero_counts_the_position_itself() {
    let board = perft_board(KIWIPETE);
    assert_eq!(Perft::perft::<false>(&board, 0), 1);
    assert_eq!(Perft::perft::<true>(&board, 0), 1);
}

#[test]
fn bulk_counting_changes_no_count() {
    let fens = [
        START,
        KIWIPETE,
        "8/2p5/3p4/KP5r/1R3p1k/8/4P1P1/8 w - - 0 1",
        "r3k2r/Pppp1ppp/1b3nbN/nP6/BBP1P3/q4N2/Pp1P2PP/R2Q1RK1 w kq - 0 1",
        "rnbq1k1r/pp1Pbppp/2p5/8/2B5/8/PPP1NnPP/RNBQK2R w KQ - 1 8",
    ];
    for fen in fens {
        let board = perft_board(fen);
        for depth in 0..4u8 {
            assert_eq!(Perft::perft::<true>(&board, depth), Perft::perft::<false>(&board, depth));
        }
    }
}

#[test]
fn endgame_position_counts() {
    let board = perft_board("8/2p5/3p4/KP5r/1R3p1k/8/4P1P1/8 w - - 0 1");
    assert_eq!(Perft::perft::<true>(&board, 1), 14);
    assert_eq!(Perft::perft::<true>(&board, 2), 191);
    assert_eq!(Perft::perft::<true>(&board, 3), 2812);
    assert_eq!(Perft::perft::<true>(&board, 4), 43238);
    assert_eq!(Perft::perft::<true>(&board, 5), 674624);
}

#[test]
fn promotion_position_counts() {
    let board = perft_board("r3k2r/Pppp1ppp/1b3nbN/nP6/BBP1P3/q4N2/Pp1P2PP/R2Q1RK1 w kq - 0 1");
    assert_eq!(Perft::perft::<true>(&board, 1), 6);
    assert_eq!(Perft::perft::<true>(&board, 2), 264);
    assert_eq!(Perft::perft::<true>(&board, 3), 9467);
    assert_eq!(Perft::perft::<true>(&board, 4), 422333);
}

#[test]
fn black_to_move_mirror_counts() {
    let board = perft_board("r2q1rk1/pP1p2pp/Q4n2/bbp1p3/Np6/1B3NBn/pPPP1PPP/R3K2R b KQ - 0 1");
    assert_eq!(Perft::perft::<true>(&board, 1), 6);
    assert_eq!(Perft::perft::<true>(&board, 2), 264);
    assert_eq!(Perft::perft::<true>(&board, 3), 9467);
}

#[test]
fn middlegame_position_counts() {
    let board = perft_board("rnbq1k1r/pp1Pbppp/2p5/8/2B5/8/PPP1NnPP/RNBQK2R w KQ - 1 8");
    assert_eq!(Perft::perft::<true>(&board, 1), 44);
    assert_eq!(Perft::perft::<true>(&board, 2), 1486);
    assert_eq!(Perft::perft::<true>(&board, 3), 62379);
}

#[test]
fn split_gives_one_count_per_move() {
    let board = perft_board(START);
    let counts = Perft::split::<true>(&board, 3);
    assert_eq!(counts.len(), 20);
    let mut total: u128 = 0;
    for (_, count) in counts.iter() {
        total += *count;
    }
    assert_eq!(total, 8902);
    let kiwipete = perft_board(KIWIPETE);
    let counts = Perft::split::<false>(&kiwipete, 2);
    assert_eq!(counts.len(), 48);
    let mut total: u128 = 0;
    for (mv, count) in counts.iter() {
        let mut next = kiwipete;
        next.make_move(*mv);
        assert_eq!(*count, Perft::perft::<false>(&next, 1));
        total += *count;
    }
    assert_eq!(total, 2039);
}
