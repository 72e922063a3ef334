//! A chess rules engine on 64-bit bitboards: pseudo-legal move generation,
//! legality filtering through recomputed attack masks, SAN parsing, FEN
//! encoding and decoding, and the state updates (castling rights, en-passant
//! target, move clocks, repetition bookkeeping) that keep a position
//! consistent after every applied move.

pub mod board;
pub mod fen;
pub mod piece;
pub mod san;
pub mod square;

pub use board::Chessboard;
pub use board::MoveError;
pub use board::Placement;
pub use board::Pos;
pub use fen::FenParseError;
pub use piece::Piece;
pub use san::CastlingType;
pub use san::ChessMove;
pub use san::SanMove;
pub use san::SanParseError;
pub use square::FILE_A;
pub use square::FILE_B;
pub use square::FILE_C;
pub use square::FILE_D;
pub use square::FILE_E;
pub use square::FILE_F;
pub use square::FILE_G;
pub use square::FILE_H;
pub use square::RANK_1;
pub use square::RANK_2;
pub use square::RANK_3;
pub use square::RANK_4;
pub use square::RANK_5;
pub use square::RANK_6;
pub use square::RANK_7;
pub use square::RANK_8;
