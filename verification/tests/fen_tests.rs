use w_chess::square::square_name;
use w_chess::Chessboard;
use w_chess::FenParseError;
use w_chess::Piece;

#[test]
fn get_fen_works() {
    let fen = "8/PK4N1/P1p2rn1/7p/1P1B3P/2P5/p1NR4/5k2 w - - 0 1";
    let board = Chessboard::from_fen(fen).unwrap();

    assert_eq!(board.get_fen(), fen);
}

#[test]
fn fen_round_trips_through_a_board() {
    let samples = [
        "rnbqkbnr/pppppppp/8/8/8/8/PPPPPPPP/RNBQKBNR w KQkq - 0 1",
        "rnbqkbnr/pppp1ppp/8/8/4p3/8/PPPPPPPP/RNBQKBNR w KQkq e3 0 1",
        "r3k2r/8/8/8/8/8/8/R3K2R b Kq - 17 42",
        "8/8/8/8/8/8/8/K6k w - - 0 1",
        "4k3/8/8/3pP3/8/8/8/4K3 w - d6 0 2",
    ];
    for fen in samples {
        let board = Chessboard::from_fen(fen).unwrap();
        assert_eq!(board.get_fen(), fen);
    }
}

#[test]
fn new_board_encodes_the_start_position() {
    let board = Chessboard::new();
    assert_eq!(
        board.get_fen(),
        "rnbqkbnr/pppppppp/8/8/8/8/PPPPPPPP/RNBQKBNR w KQkq - 0 1"
    );
}

#[test]
fn fen_error_reasons() {
    // seven ranks only
    assert_eq!(
        Chessboard::from_fen("8/8/8/8/8/8/K6k w - - 0 1").unwrap_err(),
        FenParseError::WrongFieldCount
    );
    // a rank spanning nine files
    assert_eq!(
        Chessboard::from_fen("9/8/8/8/8/8/8/K6k w - - 0 1").unwrap_err(),
        FenParseError::InvalidPlacement
    );
    // an invalid piece letter
    assert_eq!(
        Chessboard::from_fen("7x/8/8/8/8/8/8/K6k w - - 0 1").unwrap_err(),
        FenParseError::InvalidPlacement
    );
    // an unparseable half-move clock
    assert_eq!(
        Chessboard::from_fen("8/8/8/8/8/8/8/K6k w - - x 1").unwrap_err(),
        FenParseError::InvalidNumber
    );
    // a clock too large for its counter
    assert_eq!(
        Chessboard::from_fen("8/8/8/8/8/8/8/K6k w - - 99999999999 1").unwrap_err(),
        FenParseError::InvalidNumber
    );
    // an en-passant square that is not a square name
    assert_eq!(
        Chessboard::from_fen("8/8/8/8/8/8/8/K6k w - e9 0 1").unwrap_err(),
        FenParseError::InvalidEnPassant
    );
    // a missing field
    assert_eq!(
        Chessboard::from_fen("8/8/8/8/8/8/8/K6k w - - 0").unwrap_err(),
        FenParseError::WrongFieldCount
    );
    // trailing text after the six fields
    assert_eq!(
        Chessboard::from_fen("8/8/8/8/8/8/8/K6k w - - 0 1 extra").unwrap_err(),
        FenParseError::WrongFieldCount
    );
}

#[test]
fn castling_field_reads_each_letter() {
    let board = Chessboard::from_fen("r3k2r/8/8/8/8/8/8/R3K2R w Kq - 0 1").unwrap();
    assert_eq!(board.get_fen(), "r3k2r/8/8/8/8/8/8/R3K2R w Kq - 0 1");

    let board = Chessboard::from_fen("r3k2r/8/8/8/8/8/8/R3K2R b - - 0 1").unwrap();
    assert_eq!(board.get_fen(), "r3k2r/8/8/8/8/8/8/R3K2R b - - 0 1");
}

#[test]
fn piece_names_are_spelled_out() {
    assert_eq!(Piece::PAWN.name(), "Pawn");
    assert_eq!(Piece::KNIGHT.name(), "Knight");
    assert_eq!(Piece::BISHOP.name(), "Bishop");
    assert_eq!(Piece::ROOK.name(), "Rook");
    assert_eq!(Piece::QUEEN.name(), "Queen");
    assert_eq!(Piece::KING.name(), "King");
    assert_eq!(Piece::UNKNOWN.name(), "?");
}

#[test]
fn square_names_are_file_then_rank() {
    assert_eq!(square_name(0), "a1");
    assert_eq!(square_name(4), "e1");
    assert_eq!(square_name(28), "e4");
    assert_eq!(square_name(63), "h8");
}
