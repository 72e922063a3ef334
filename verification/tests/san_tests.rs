use w_chess::san::SanParseError;
use w_chess::CastlingType;
use w_chess::Piece;
use w_chess::SanMove;
use w_chess::FILE_A;
use w_chess::FILE_E;
use w_chess::RANK_3;

#[test]
fn test_san_move_parse() {
    let san = "Rae1";
    let san_move = SanMove::parse(san).unwrap();
    assert_eq!(san_move.san, "Rae1");
    assert_eq!(san_move.piece, Piece::ROOK);
    assert_eq!(san_move.to, 1u64 << 4);
    assert_eq!(san_move.from, FILE_A);
    assert_eq!(san_move.promotion, None);

    let san = "e4";
    let san_move = SanMove::parse(san).unwrap();
    assert_eq!(san_move.san, "e4");
    assert_eq!(san_move.piece, Piece::PAWN);
    assert_eq!(san_move.to, 1u64 << 28);
    assert_eq!(san_move.from, 0);
    assert_eq!(san_move.promotion, None);

    let san = "Nf3";
    let san_move = SanMove::parse(san).unwrap();
    assert_eq!(san_move.san, "Nf3");
    assert_eq!(san_move.piece, Piece::KNIGHT);
    assert_eq!(san_move.to, 1u64 << 21);
    assert_eq!(san_move.from, 0);
    assert_eq!(san_move.promotion, None);

    let san = "Nf3+";
    let san_move = SanMove::parse(san).unwrap();
    assert_eq!(san_move.san, "Nf3+");
    assert_eq!(san_move.piece, Piece::KNIGHT);
    assert_eq!(san_move.to, 1u64 << 21);
    assert_eq!(san_move.from, 0);
    assert_eq!(san_move.promotion, None);

    let san = "e8=Q";
    let san_move = SanMove::parse(san).unwrap();
    assert_eq!(san_move.san, "e8=Q");
    assert_eq!(san_move.piece, Piece::PAWN);
    assert_eq!(san_move.to, 1u64 << 60);
    assert_eq!(san_move.from, 0);
    assert_eq!(san_move.promotion, Some(Piece::QUEEN));

    let san = "O-O";
    let san_move = SanMove::parse(san).unwrap();
    assert_eq!(san_move.san, "O-O");
    assert_eq!(san_move.piece, Piece::KING);
    assert_eq!(san_move.to, 0);
    assert_eq!(san_move.from, 0);
    assert_eq!(san_move.promotion, None);
    assert_eq!(san_move.castling, Some(CastlingType::KingSide));

    let san = "O-O-O";
    let san_move = SanMove::parse(san).unwrap();
    assert_eq!(san_move.san, "O-O-O");
    assert_eq!(san_move.piece, Piece::KING);
    assert_eq!(san_move.to, 0);
    assert_eq!(san_move.from, 0);
    assert_eq!(san_move.promotion, None);
    assert_eq!(san_move.castling, Some(CastlingType::QueenSide));

    let invalid_castle = "O-O-O-O";
    assert!(SanMove::parse(invalid_castle).is_err());

    let san = "N3d2";
    let san_move = SanMove::parse(san).unwrap();
    assert_eq!(san_move.san, "N3d2");
    assert_eq!(san_move.piece, Piece::KNIGHT);
    assert_eq!(san_move.to, 1u64 << 11);
    assert_eq!(san_move.from, RANK_3);
    assert_eq!(san_move.promotion, None);

    let san = "exd6 e.p.";
    let san_move = SanMove::parse(san).unwrap();
    assert_eq!(san_move.san, "exd6 e.p.");
    assert_eq!(san_move.piece, Piece::PAWN);
    assert_eq!(san_move.to, 1u64 << 43);
    assert_eq!(san_move.from, FILE_E);
    assert_eq!(san_move.promotion, None);

    let san = "e8";
    let san_move = SanMove::parse(san).unwrap();
    assert_eq!(san_move.san, "e8");
    assert_eq!(san_move.piece, Piece::PAWN);
    assert_eq!(san_move.to, 1u64 << 60);
    assert_eq!(san_move.from, 0);
    assert_eq!(san_move.promotion, Some(Piece::QUEEN));
}

#[test]
fn san_error_reasons() {
    assert_eq!(
        SanMove::parse("O-O-O-O").unwrap_err(),
        SanParseError::InvalidCastling
    );
    assert_eq!(SanMove::parse("O").unwrap_err(), SanParseError::InvalidCastling);
    assert_eq!(SanMove::parse("=Q").unwrap_err(), SanParseError::InvalidPromotion);
    assert_eq!(
        SanMove::parse("e8=J").unwrap_err(),
        SanParseError::InvalidPromotion
    );
    assert_eq!(SanMove::parse("e9").unwrap_err(), SanParseError::InvalidRank);
    assert_eq!(SanMove::parse("e0").unwrap_err(), SanParseError::InvalidRank);
    assert_eq!(SanMove::parse("z4").unwrap_err(), SanParseError::InvalidCharacter);
}

#[test]
fn san_decorations_are_ignored() {
    let with = SanMove::parse("Nxf3+!?").unwrap();
    let without = SanMove::parse("Nf3").unwrap();
    assert_eq!(with.piece, without.piece);
    assert_eq!(with.to, without.to);
    assert_eq!(with.from, without.from);
    assert_eq!(with.promotion, without.promotion);
    assert_eq!(with.castling, without.castling);
}

#[test]
fn san_zero_castling_notation() {
    let san_move = SanMove::parse("0-0").unwrap();
    assert_eq!(san_move.castling, Some(CastlingType::KingSide));
    assert!(SanMove::parse("0-O").is_err());
}
