use w_chess::board::MoveError;
use w_chess::square::square_name;
use w_chess::Chessboard;

#[test]
fn test_generate_moves() {
    let board = Chessboard::from_fen("8/4PnK1/4P3/2p3p1/1p2BPk1/P7/2pR2PB/5n2 w - - 0 1").unwrap();

    for i in 0..64u64 {
        let square = 1u64 << i;
        let color = board.get_color(true) & square != 0;
        if color != board.side_to_move() {
            continue;
        }
        println!("{} on {}", board.get_piece(square).name(), square_name(i));
        for valid_move in Chessboard::get_squares(board.legal_mask(i)) {
            println!("valid_move: {}", square_name(valid_move.trailing_zeros() as u64));
        }
    }
}

#[test]
fn test_mate() {
    let board =
        Chessboard::from_fen("r1bqkbnr/pppp1Qpp/8/4p3/1nB1P3/8/PPPP1PPP/RNB1K1NR b KQkq - 0 4")
            .unwrap();

    assert_eq!(board.is_mate(), true);
}

#[test]
fn mate_empties_the_legal_table() {
    let board =
        Chessboard::from_fen("r1bqkbnr/pppp1Qpp/8/4p3/1nB1P3/8/PPPP1PPP/RNB1K1NR b KQkq - 0 4")
            .unwrap();

    assert!(board.is_mate());
    for i in 0..64u64 {
        assert_eq!(board.legal_mask(i), 0);
    }
    assert!(board.legal_moves().is_empty());
}

#[test]
fn test_move_to() {
    let mut board = Chessboard::new();

    let _ = board.move_to("f4");
    let _ = board.move_to("f5");
    let _ = board.move_to("Nf3");
    let _ = board.move_to("Nc6");
    let _ = board.move_to("e4");
    let _ = board.move_to("e5");
    let _ = board.move_to("Qe2");
    let _ = board.move_to("Bb4");
    let _ = board.move_to("d4");
    let _ = board.move_to("c3");
    println!("{}", board.get_fen());
}

#[test]
fn test_random_board() {
    let mut board =
        Chessboard::from_fen("3B4/R2p1P2/3p2p1/5NP1/2K1n3/1Q6/1p3R1p/2n1k3 w - - 0 1").unwrap();

    println!("{}", board.ascii());

    board.move_to("Qe3").unwrap();
    board.move_to("Kd1").unwrap();
    board.move_to("Rf1").unwrap();
    board.move_to("Kc2").unwrap();
    board.move_to("Qe4").unwrap();
    board.move_to("Kd2").unwrap();
    board.move_to("Ba5").unwrap();

    println!("{}", board.get_fen());
    println!("{}", board.ascii());

    assert!(board.is_mate());
}

#[test]
fn castle_white_queen_side() {
    let fen = "rnb1kbnr/pp2pppp/8/1q6/8/8/P3PPPP/R3K1NR w KQkq - 0 1";
    let mut board = Chessboard::from_fen(fen).unwrap();

    board.move_to("O-O-O").unwrap();

    assert_eq!(
        board.get_fen(),
        "rnb1kbnr/pp2pppp/8/1q6/8/8/P3PPPP/2KR2NR b kq - 1 1"
    );
}

#[test]
fn castle_white_king_side() {
    let fen = "rnbqkbnr/pppppppp/8/8/8/8/PPPPP2P/RNBQK2R w KQkq - 0 1";
    let mut board = Chessboard::from_fen(fen).unwrap();

    board.move_to("O-O").unwrap();

    assert_eq!(
        board.get_fen(),
        "rnbqkbnr/pppppppp/8/8/8/8/PPPPP2P/RNBQ1RK1 b kq - 1 1"
    );
}

#[test]
fn castle_black_queen_side() {
    let fen = "r3kbnr/p3pppp/8/8/1Q6/8/PPPPPPPP/RNBQKBNR b KQkq - 0 1";
    let mut board = Chessboard::from_fen(fen).unwrap();

    board.move_to("O-O-O").unwrap();

    assert_eq!(
        board.get_fen(),
        "2kr1bnr/p3pppp/8/8/1Q6/8/PPPPPPPP/RNBQKBNR w KQ - 1 2"
    );
}

#[test]
fn castle_black_king_side() {
    let fen = "rnbqk2r/pppppppp/8/8/8/8/PPPPPPPP/RNBQKBNR b KQkq - 0 1";
    let mut board = Chessboard::from_fen(fen).unwrap();

    board.move_to("O-O").unwrap();

    assert_eq!(
        board.get_fen(),
        "rnbq1rk1/pppppppp/8/8/8/8/PPPPPPPP/RNBQKBNR w KQ - 1 2"
    );
}

#[test]
fn test_en_passant() {
    let fen = "rnbqkbnr/pppp1ppp/8/8/4p3/8/PPPPPPPP/RNBQKBNR w KQkq - 0 1";

    let mut board = Chessboard::from_fen(fen).unwrap();

    board.move_to("d4").unwrap();
    board.move_to("d3").unwrap();

    println!("{}", board.ascii());
    println!("{:?}", board.history);

    assert_eq!(
        board.get_fen(),
        "rnbqkbnr/pppp1ppp/8/8/8/3p4/PPP1PPPP/RNBQKBNR w KQkq - 0 2"
    );
}

#[test]
fn test_threefold() {
    let mut board = Chessboard::new();

    board.move_to("Nf3").unwrap();
    board.move_to("Nf6").unwrap();

    board.move_to("Ng1").unwrap();
    board.move_to("Ng8").unwrap();

    board.move_to("Nf3").unwrap();
    board.move_to("Nf6").unwrap();

    board.move_to("Ng1").unwrap();
    board.move_to("Ng8").unwrap();

    assert!(board.is_threefold_repetition());
    assert_eq!(
        board.get_fen(),
        "rnbqkbnr/pppppppp/8/8/8/8/PPPPPPPP/RNBQKBNR w KQkq - 8 5"
    );
}

#[test]
fn threefold_not_before_third_occurrence() {
    let mut board = Chessboard::new();

    board.move_to("Nf3").unwrap();
    board.move_to("Nf6").unwrap();
    board.move_to("Ng1").unwrap();
    board.move_to("Ng8").unwrap();
    board.move_to("Nf3").unwrap();
    board.move_to("Nf6").unwrap();
    board.move_to("Ng1").unwrap();
    assert!(!board.is_threefold_repetition());

    board.move_to("Ng8").unwrap();
    assert!(board.is_threefold_repetition());
}

#[test]
fn test_promotion() {
    let fen = "2b3k1/3PR3/8/8/8/8/8/6K1 w - - 0 1";
    let mut board = Chessboard::from_fen(fen).unwrap();

    println!("{}", board.ascii());

    board.move_to("dxc8=Q#").unwrap();

    println!("{}", board.ascii());

    assert_eq!(board.get_fen(), "2Q3k1/4R3/8/8/8/8/8/6K1 b - - 0 1");

    assert!(board.is_mate());
}

#[test]
fn test_legal_moves() {
    let board = Chessboard::new();

    let legal_moves = board.legal_moves();
    println!("{:?}", legal_moves);
}

#[test]
fn starting_position_has_twenty_moves() {
    let board = Chessboard::new();
    let moves = board.legal_moves();
    assert_eq!(moves.len(), 20);

    let pawn_moves = moves.iter().filter(|m| !m.starts_with('N')).count();
    let knight_moves = moves.iter().filter(|m| m.starts_with('N')).count();
    assert_eq!(pawn_moves, 16);
    assert_eq!(knight_moves, 4);
}

#[test]
fn opening_pawn_push() {
    let mut board =
        Chessboard::from_fen("rnbqkbnr/pppppppp/8/8/8/8/PPPPPPPP/RNBQKBNR w KQkq - 0 1").unwrap();

    board.move_to("e4").unwrap();

    // no enemy pawn stands beside e4, so no en-passant target is set
    assert_eq!(
        board.get_fen(),
        "rnbqkbnr/pppppppp/8/8/4P3/8/PPPP1PPP/RNBQKBNR b KQkq - 0 1"
    );
}

#[test]
fn double_push_sets_target_only_beside_enemy_pawn() {
    // the black pawn on e4 stands beside d4 after the double push
    let mut board =
        Chessboard::from_fen("rnbqkbnr/pppp1ppp/8/8/4p3/8/PPPPPPPP/RNBQKBNR w KQkq - 0 1").unwrap();
    board.move_to("d4").unwrap();
    let fen = board.get_fen();
    assert!(fen.contains(" d3 "), "fen was {}", fen);
}

#[test]
fn illegal_moves_are_rejected_and_change_nothing() {
    let mut board = Chessboard::new();
    let before = board.get_fen();

    assert_eq!(board.move_to("e5"), Err(MoveError::Illegal));
    assert_eq!(board.move_to("Ke2"), Err(MoveError::Illegal));
    assert_eq!(board.move_to("O-O"), Err(MoveError::Illegal));
    assert!(matches!(board.move_to("z9"), Err(MoveError::Parse(_))));

    assert_eq!(board.get_fen(), before);
    assert_eq!(board.legal_moves().len(), 20);
}

#[test]
fn fifty_move_rule_threshold() {
    let below = Chessboard::from_fen("8/8/8/4k3/8/4P3/8/4K3 w - - 99 60").unwrap();
    assert!(!below.is_fifty_moves());

    let at = Chessboard::from_fen("8/8/8/4k3/8/4P3/8/4K3 w - - 100 60").unwrap();
    assert!(at.is_fifty_moves());

    let above = Chessboard::from_fen("8/8/8/4k3/8/4P3/8/4K3 w - - 130 75").unwrap();
    assert!(above.is_fifty_moves());
}

#[test]
fn pawn_move_and_capture_reset_the_clock() {
    let mut board = Chessboard::from_fen("8/8/8/4k3/8/4P3/8/4K3 w - - 99 60").unwrap();
    board.move_to("e4").unwrap();
    assert!(!board.is_fifty_moves());
    assert!(board.get_fen().contains(" 0 "), "fen was {}", board.get_fen());

    let mut board = Chessboard::from_fen("4k3/8/8/8/8/2n5/8/R3K3 w - - 99 60").unwrap();
    board.move_to("Ra3").unwrap();
    assert!(board.get_fen().ends_with(" 100 60"), "fen was {}", board.get_fen());
    board.move_to("Nb1").unwrap();
    board.move_to("Rb3").unwrap();
    board.move_to("Nd2").unwrap();
    board.move_to("Rb2").unwrap();
    assert!(board.get_fen().ends_with(" 104 62"), "fen was {}", board.get_fen());
    board.move_to("Ke7").unwrap();
    board.move_to("Rxd2").unwrap();
    assert!(board.get_fen().contains(" 0 "), "fen was {}", board.get_fen());
}

#[test]
fn legal_moves_query_is_repeatable() {
    let board = Chessboard::from_fen("r1bqkbnr/pppp1ppp/2n5/4p3/4P3/5N2/PPPP1PPP/RNBQKB1R w KQkq - 2 3")
        .unwrap();
    let first = board.legal_moves();
    let second = board.legal_moves();
    assert_eq!(first, second);
}

#[test]
fn history_records_the_applied_move() {
    let mut board = Chessboard::new();
    board.move_to("e4").unwrap();

    assert_eq!(board.history.len(), 1);
    let record = &board.history[0];
    assert_eq!(record.san, "e4");
    assert_eq!(record.color, true);
    assert_eq!(record.piece, w_chess::Piece::PAWN);
    assert_eq!(record.from, 1u64 << 12);
    assert_eq!(record.to, 1u64 << 28);
    assert_eq!(record.captured, None);
    assert_eq!(
        record.before,
        "rnbqkbnr/pppppppp/8/8/8/8/PPPPPPPP/RNBQKBNR w KQkq - 0 1"
    );
}

#[test]
fn en_passant_capture_removes_the_pawn_behind() {
    // white d5 pawn, black plays e5, white captures en passant on e6
    let mut board =
        Chessboard::from_fen("rnbqkbnr/pppp1ppp/8/3Pp3/8/8/PPP1PPPP/RNBQKBNR w KQkq e6 0 3")
            .unwrap();
    board.move_to("dxe6 e.p.").unwrap();
    assert_eq!(
        board.get_fen(),
        "rnbqkbnr/pppp1ppp/4P3/8/8/8/PPP1PPPP/RNBQKBNR b KQkq - 0 3"
    );
}

#[test]
fn stalemate_is_not_mate() {
    let board = Chessboard::from_fen("7k/5Q2/6K1/8/8/8/8/8 b - - 0 1").unwrap();
    assert!(board.is_stalemate());
    assert!(!board.is_mate());
    assert!(!board.is_checked());
}

#[test]
fn check_is_detected() {
    let board = Chessboard::from_fen("4k3/8/8/8/8/8/4R3/4K3 b - - 0 1").unwrap();
    assert!(board.is_checked());
    assert!(!board.is_mate());
}

#[test]
fn ascii_draws_the_start_position() {
    let board = Chessboard::new();
    let expected = "rnbqkbnr\npppppppp\n........\n........\n........\n........\nPPPPPPPP\nRNBQKBNR\n";
    assert_eq!(board.ascii(), expected);
}
