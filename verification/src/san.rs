//! Standard Algebraic Notation.
//!
//! A SAN token string such as `Nf3`, `exd6 e.p.`, `e8=Q` or `O-O` is scanned
//! left to right into a move descriptor: piece kind, destination square,
//! origin disambiguation mask, promotion piece and castling kind.  The scan is
//! specified by [`scan`], a recursive state machine over the character
//! sequence, and [`parse_san`], which normalizes the final state; the
//! executable parser is proved to return exactly that.

use vstd::prelude::*;

use crate::piece::Piece;
use crate::square::{FILE_A, FILE_B, FILE_C, FILE_D, FILE_E, FILE_F, FILE_G, FILE_H};
use crate::square::{RANK_1, RANK_2, RANK_3, RANK_4, RANK_5, RANK_6, RANK_7, RANK_8};

verus! {

/// Which side a castling move goes to.
#[derive(Debug, Clone, Copy, PartialEq, Eq, Structural)]
pub enum CastlingType {
    KingSide,
    QueenSide,
}

/// Why a SAN token string was rejected, each reason tied to the offending
/// token class.
#[derive(Debug, Clone, Copy, PartialEq, Eq, Structural)]
pub enum SanParseError {
    /// A castling group started with `O` or `0` does not continue with
    /// `-O`/`-0` groups, or a third group follows a queen-side castle.
    InvalidCastling,
    /// `=` appears before a pawn destination is known, or is followed by a
    /// letter other than `N`, `B`, `R` or `Q`.
    InvalidPromotion,
    /// A destination rank digit lies outside `1`..`8`.
    InvalidRank,
    /// A character outside the SAN alphabet.
    InvalidCharacter,
}

/// Characters that decorate a SAN token without affecting resolution.
pub open spec fn is_decoration(c: char) -> bool {
    c == 'x' || c == '+' || c == '#' || c == '!' || c == '?' || c == ' '
}

/// File letters `a`..`h`.
pub open spec fn is_file_letter(c: char) -> bool {
    c == 'a' || c == 'b' || c == 'c' || c == 'd' || c == 'e' || c == 'f' || c == 'g' || c == 'h'
}

/// The file index, 0 for `a` up to 7 for `h`.
pub open spec fn file_index(c: char) -> u64 {
    if c == 'a' {
        0
    } else if c == 'b' {
        1
    } else if c == 'c' {
        2
    } else if c == 'd' {
        3
    } else if c == 'e' {
        4
    } else if c == 'f' {
        5
    } else if c == 'g' {
        6
    } else {
        7
    }
}

/// The whole-file mask named by a file letter.
pub open spec fn file_letter_mask(c: char) -> u64 {
    if c == 'a' {
        FILE_A
    } else if c == 'b' {
        FILE_B
    } else if c == 'c' {
        FILE_C
    } else if c == 'd' {
        FILE_D
    } else if c == 'e' {
        FILE_E
    } else if c == 'f' {
        FILE_F
    } else if c == 'g' {
        FILE_G
    } else {
        FILE_H
    }
}

/// Rank digits `1`..`8`.
pub open spec fn is_rank_digit(c: char) -> bool {
    c == '1' || c == '2' || c == '3' || c == '4' || c == '5' || c == '6' || c == '7' || c == '8'
}

/// The rank index, 0 for `1` up to 7 for `8`.
pub open spec fn rank_index(c: char) -> u64 {
    if c == '1' {
        0
    } else if c == '2' {
        1
    } else if c == '3' {
        2
    } else if c == '4' {
        3
    } else if c == '5' {
        4
    } else if c == '6' {
        5
    } else if c == '7' {
        6
    } else {
        7
    }
}

/// The whole-rank mask named by a rank digit.
pub open spec fn rank_digit_mask(c: char) -> u64 {
    if c == '1' {
        RANK_1
    } else if c == '2' {
        RANK_2
    } else if c == '3' {
        RANK_3
    } else if c == '4' {
        RANK_4
    } else if c == '5' {
        RANK_5
    } else if c == '6' {
        RANK_6
    } else if c == '7' {
        RANK_7
    } else {
        RANK_8
    }
}

/// Decimal digits `0`..`9`.
pub open spec fn is_dec_digit(c: char) -> bool {
    c == '0' || c == '1' || c == '2' || c == '3' || c == '4' || c == '5' || c == '6' || c == '7'
        || c == '8' || c == '9'
}

/// The running state of the SAN scan: the fields gathered so far, and
/// `group`, which holds the opening character (`O` or `0`) while a castling
/// token's `-O`/`-0` groups are being consumed.
pub struct ScanState {
    pub to: u64,
    pub from: u64,
    pub piece: Piece,
    pub promotion: Option<Piece>,
    pub castling: Option<CastlingType>,
    pub group: Option<char>,
}

/// The scan state before any character is read.
pub open spec fn init_state() -> ScanState {
    ScanState {
        to: 0,
        from: 0,
        piece: Piece::UNKNOWN,
        promotion: None,
        castling: None,
        group: None,
    }
}

/// How many characters are still to scan.
pub open spec fn remaining(s: Seq<char>, i: int) -> nat {
    if 0 <= i <= s.len() {
        (s.len() - i) as nat
    } else {
        0
    }
}

/// 1 while a castling group is being consumed, 0 otherwise.
pub open spec fn group_rank(g: Option<char>) -> nat {
    if g is Some {
        1
    } else {
        0
    }
}

/// Where the scan resumes after a file letter at `i`: the letter `e`
/// immediately followed by `.` has an `e.p.` annotation consumed silently.
pub open spec fn after_ep(s: Seq<char>, i: int, c: char) -> int {
    if c == 'e' && i + 1 < s.len() && s[i + 1] == '.' {
        if i + 2 < s.len() && s[i + 2] == 'p' {
            if i + 3 < s.len() && s[i + 3] == '.' {
                i + 4
            } else {
                i + 3
            }
        } else {
            i + 2
        }
    } else {
        i + 1
    }
}

/// One left-to-right scan of a SAN token from position `i` in state `st`,
/// ending in the final state or the first error.
pub open spec fn scan(s: Seq<char>, i: int, st: ScanState) -> Result<ScanState, SanParseError>
    decreases remaining(s, i), group_rank(st.group),
{
    match st.group {
        Some(t) => {
            if i >= s.len() || i < 0 {
                if st.castling is None {
                    Err(SanParseError::InvalidCastling)
                } else {
                    scan(s, i, ScanState { group: None, ..st })
                }
            } else if s[i] == '-' {
                if i + 1 >= s.len() {
                    scan(s, i + 1, st)
                } else if s[i + 1] == t {
                    match st.castling {
                        None => scan(
                            s,
                            i + 2,
                            ScanState { castling: Some(CastlingType::KingSide), ..st },
                        ),
                        Some(CastlingType::KingSide) => scan(
                            s,
                            i + 2,
                            ScanState { castling: Some(CastlingType::QueenSide), ..st },
                        ),
                        Some(CastlingType::QueenSide) => Err(SanParseError::InvalidCastling),
                    }
                } else {
                    Err(SanParseError::InvalidCastling)
                }
            } else {
                if st.castling is None {
                    Err(SanParseError::InvalidCastling)
                } else {
                    scan(s, i, ScanState { group: None, ..st })
                }
            }
        },
        None => {
            if i >= s.len() || i < 0 {
                Ok(st)
            } else {
                let c = s[i];
                if is_decoration(c) {
                    scan(s, i + 1, st)
                } else if c == 'O' || c == '0' {
                    let p = if st.piece == Piece::UNKNOWN {
                        Piece::KING
                    } else {
                        st.piece
                    };
                    scan(s, i + 1, ScanState { piece: p, group: Some(c), ..st })
                } else if c == '=' {
                    if st.piece != Piece::PAWN || st.to == 0 {
                        Err(SanParseError::InvalidPromotion)
                    } else if i + 1 >= s.len() {
                        scan(s, i + 1, st)
                    } else if s[i + 1] == 'N' {
                        scan(s, i + 2, ScanState { promotion: Some(Piece::KNIGHT), ..st })
                    } else if s[i + 1] == 'B' {
                        scan(s, i + 2, ScanState { promotion: Some(Piece::BISHOP), ..st })
                    } else if s[i + 1] == 'R' {
                        scan(s, i + 2, ScanState { promotion: Some(Piece::ROOK), ..st })
                    } else if s[i + 1] == 'Q' {
                        scan(s, i + 2, ScanState { promotion: Some(Piece::QUEEN), ..st })
                    } else {
                        Err(SanParseError::InvalidPromotion)
                    }
                } else if is_file_letter(c) {
                    let j = after_ep(s, i, c);
                    let p = if st.piece == Piece::UNKNOWN {
                        Piece::PAWN
                    } else {
                        st.piece
                    };
                    if j >= s.len() {
                        scan(s, j, ScanState { piece: p, ..st })
                    } else if is_dec_digit(s[j]) {
                        if is_rank_digit(s[j]) {
                            scan(
                                s,
                                j + 1,
                                ScanState {
                                    piece: p,
                                    to: 1u64 << (file_index(c) + rank_index(s[j]) * 8),
                                    ..st
                                },
                            )
                        } else {
                            Err(SanParseError::InvalidRank)
                        }
                    } else {
                        scan(s, j, ScanState { piece: p, from: file_letter_mask(c), ..st })
                    }
                } else if is_rank_digit(c) {
                    scan(s, i + 1, ScanState { from: rank_digit_mask(c), ..st })
                } else if c == 'N' {
                    scan(s, i + 1, ScanState { piece: Piece::KNIGHT, ..st })
                } else if c == 'B' {
                    scan(s, i + 1, ScanState { piece: Piece::BISHOP, ..st })
                } else if c == 'R' {
                    scan(s, i + 1, ScanState { piece: Piece::ROOK, ..st })
                } else if c == 'Q' {
                    scan(s, i + 1, ScanState { piece: Piece::QUEEN, ..st })
                } else if c == 'K' {
                    scan(s, i + 1, ScanState { piece: Piece::KING, ..st })
                } else {
                    Err(SanParseError::InvalidCharacter)
                }
            }
        },
    }
}

/// A parsed move descriptor.  `to` is the destination square's mask, 0 when
/// the token named no square; `from` is the origin disambiguation mask, 0
/// when unconstrained, else a file, a rank or a single square.
pub struct SanDesc {
    pub piece: Piece,
    pub to: u64,
    pub from: u64,
    pub promotion: Option<Piece>,
    pub castling: Option<CastlingType>,
}

/// The normalization after the scan: a lone disambiguation mask becomes the
/// destination, and a pawn reaching the first or last rank promotes to a
/// queen when no promotion letter was given.
pub open spec fn normalize(st: ScanState) -> SanDesc {
    let to1 = if st.to == 0 {
        st.from
    } else {
        st.to
    };
    let from1 = if st.to == 0 {
        0u64
    } else {
        st.from
    };
    let promo = if st.piece == Piece::PAWN && (to1 & RANK_8 != 0 || to1 & RANK_1 != 0)
        && st.promotion is None {
        Some(Piece::QUEEN)
    } else {
        st.promotion
    };
    SanDesc { piece: st.piece, to: to1, from: from1, promotion: promo, castling: st.castling }
}

/// What parsing a SAN character sequence yields: a move descriptor, or the
/// first error of the scan.
pub open spec fn parse_san(s: Seq<char>) -> Result<SanDesc, SanParseError> {
    match scan(s, 0, init_state()) {
        Ok(st) => Ok(normalize(st)),
        Err(e) => Err(e),
    }
}

/// A parsed SAN move: the token text as given, and the descriptor fields.
#[derive(Debug, Clone, PartialEq, Eq)]
pub struct SanMove {
    pub san: String,
    pub piece: Piece,
    pub to: u64,
    pub from: u64,
    pub promotion: Option<Piece>,
    pub castling: Option<CastlingType>,
}

impl SanMove {
    /// True when this move carries exactly the fields of descriptor `d` and
    /// the token text `s`.
    pub open spec fn matches_desc(self, s: Seq<char>, d: SanDesc) -> bool {
        self.san@ == s && self.piece == d.piece && self.to == d.to && self.from == d.from
            && self.promotion == d.promotion && self.castling == d.castling
    }

    /// Scans a SAN token string into a move descriptor, exactly as
    /// [`parse_san`] describes.
    pub fn parse(san: &str) -> (r: Result<SanMove, SanParseError>)
        ensures
            (match parse_san(san@) {
                Ok(d) => r is Ok && r->Ok_0.matches_desc(san@, d),
                Err(e) => r == Err::<SanMove, SanParseError>(e),
            }),
    {
        let n = san.unicode_len();
        let mut i: usize = 0;
        let mut to: u64 = 0;
        let mut from: u64 = 0;
        let mut piece = Piece::UNKNOWN;
        let mut promotion: Option<Piece> = None;
        let mut castling: Option<CastlingType> = None;
        let mut group: Option<char> = None;

        loop
            invariant
                n == san@.len(),
                i <= n,
                scan(
                    san@,
                    i as int,
                    ScanState { to, from, piece, promotion, castling, group },
                ) == scan(san@, 0, init_state()),
            ensures
                scan(san@, 0, init_state()) == Ok::<ScanState, SanParseError>(
                    ScanState { to, from, piece, promotion, castling, group },
                ),
            decreases remaining(san@, i as int), group_rank(group),
        {
            match group {
                Some(t) => {
                    if i >= n {
                        match castling {
                            None => {
                                return Err(SanParseError::InvalidCastling);
                            },
                            Some(_) => {
                                group = None;
                            },
                        }
                    } else {
                        let c = san.get_char(i);
                        if c == '-' {
                            if i + 1 >= n {
                                i = i + 1;
                            } else {
                                let c2 = san.get_char(i + 1);
                                if c2 == t {
                                    match castling {
                                        None => {
                                            castling = Some(CastlingType::KingSide);
                                        },
                                        Some(CastlingType::KingSide) => {
                                            castling = Some(CastlingType::QueenSide);
                                        },
                                        Some(CastlingType::QueenSide) => {
                                            return Err(SanParseError::InvalidCastling);
                                        },
                                    }
                                    i = i + 2;
                                } else {
                                    return Err(SanParseError::InvalidCastling);
                                }
                            }
                        } else {
                            match castling {
                                None => {
                                    return Err(SanParseError::InvalidCastling);
                                },
                                Some(_) => {
                                    group = None;
                                },
                            }
                        }
                    }
                },
                None => {
                    if i >= n {
                        break;
                    }
                    let c = san.get_char(i);
                    match c {
                        'x' | '+' | '#' | '!' | '?' | ' ' => {
                            i = i + 1;
                        },
                        'O' | '0' => {
                            if piece == Piece::UNKNOWN {
                                piece = Piece::KING;
                            }
                            group = Some(c);
                            i = i + 1;
                        },
                        '=' => {
                            if piece != Piece::PAWN || to == 0 {
                                return Err(SanParseError::InvalidPromotion);
                            }
                            if i + 1 >= n {
                                i = i + 1;
                            } else {
                                let c2 = san.get_char(i + 1);
                                match c2 {
                                    'N' => {
                                        promotion = Some(Piece::KNIGHT);
                                        i = i + 2;
                                    },
                                    'B' => {
                                        promotion = Some(Piece::BISHOP);
                                        i = i + 2;
                                    },
                                    'R' => {
                                        promotion = Some(Piece::ROOK);
                                        i = i + 2;
                                    },
                                    'Q' => {
                                        promotion = Some(Piece::QUEEN);
                                        i = i + 2;
                                    },
                                    _ => {
                                        return Err(SanParseError::InvalidPromotion);
                                    },
                                }
                            }
                        },
                        'a' | 'b' | 'c' | 'd' | 'e' | 'f' | 'g' | 'h' => {
                            let mut j = i + 1;
                            if c == 'e' && j < n && san.get_char(j) == '.' {
                                j = j + 1;
                                if j < n && san.get_char(j) == 'p' {
                                    j = j + 1;
                                    if j < n && san.get_char(j) == '.' {
                                        j = j + 1;
                                    }
                                }
                            }
                            assert(j == after_ep(san@, i as int, c));
                            if piece == Piece::UNKNOWN {
                                piece = Piece::PAWN;
                            }
                            if j < n {
                                let d = san.get_char(j);
                                match d {
                                    '1' | '2' | '3' | '4' | '5' | '6' | '7' | '8' => {
                                        let file: u64 = match c {
                                            'a' => 0,
                                            'b' => 1,
                                            'c' => 2,
                                            'd' => 3,
                                            'e' => 4,
                                            'f' => 5,
                                            'g' => 6,
                                            _ => 7,
                                        };
                                        let rank: u64 = match d {
                                            '1' => 0,
                                            '2' => 1,
                                            '3' => 2,
                                            '4' => 3,
                                            '5' => 4,
                                            '6' => 5,
                                            '7' => 6,
                                            _ => 7,
                                        };
                                        to = 1u64 << (file + rank * 8);
                                        i = j + 1;
                                    },
                                    '0' | '9' => {
                                        return Err(SanParseError::InvalidRank);
                                    },
                                    _ => {
                                        from = match c {
                                            'a' => FILE_A,
                                            'b' => FILE_B,
                                            'c' => FILE_C,
                                            'd' => FILE_D,
                                            'e' => FILE_E,
                                            'f' => FILE_F,
                                            'g' => FILE_G,
                                            _ => FILE_H,
                                        };
                                        i = j;
                                    },
                                }
                            } else {
                                i = j;
                            }
                        },
                        '1' | '2' | '3' | '4' | '5' | '6' | '7' | '8' => {
                            from = match c {
                                '1' => RANK_1,
                                '2' => RANK_2,
                                '3' => RANK_3,
                                '4' => RANK_4,
                                '5' => RANK_5,
                                '6' => RANK_6,
                                '7' => RANK_7,
                                _ => RANK_8,
                            };
                            i = i + 1;
                        },
                        'N' => {
                            piece = Piece::KNIGHT;
                            i = i + 1;
                        },
                        'B' => {
                            piece = Piece::BISHOP;
                            i = i + 1;
                        },
                        'R' => {
                            piece = Piece::ROOK;
                            i = i + 1;
                        },
                        'Q' => {
                            piece = Piece::QUEEN;
                            i = i + 1;
                        },
                        'K' => {
                            piece = Piece::KING;
                            i = i + 1;
                        },
                        _ => {
                            return Err(SanParseError::InvalidCharacter);
                        },
                    }
                },
            }
        }

        if to == 0 {
            to = from;
            from = 0;
        }
        if piece == Piece::PAWN && (to & RANK_8 != 0 || to & RANK_1 != 0) && promotion.is_none() {
            promotion = Some(Piece::QUEEN);
        }

        Ok(SanMove { san: String::from_str(san), piece, to, from, promotion, castling })
    }
}

/// One applied move, as it is recorded in a board's history.
#[derive(Debug, Clone, PartialEq, Eq)]
pub struct ChessMove {
    pub color: bool,
    pub before: String,
    pub after: String,
    pub from: u64,
    pub to: u64,
    pub piece: Piece,
    pub captured: Option<Piece>,
    pub promotion: Option<Piece>,
    pub san: String,
    pub castling: Option<CastlingType>,
}

impl ChessMove {
    /// Builds the history record of an applied move: the side that moved, the
    /// positions before and after as FEN, the origin mask, and what the
    /// descriptor carried.
    pub fn new(
        san: &SanMove,
        color: bool,
        before: String,
        after: String,
        from: u64,
        captured: Option<Piece>,
    ) -> (m: ChessMove)
        ensures
            m.color == color,
            m.before == before,
            m.after == after,
            m.from == from,
            m.to == san.to,
            m.piece == san.piece,
            m.captured == captured,
            m.promotion == san.promotion,
            m.san == san.san,
            m.castling == san.castling,
    {
        ChessMove {
            color,
            before,
            after,
            from,
            to: san.to,
            piece: san.piece,
            captured,
            promotion: san.promotion,
            san: san.san.clone(),
            castling: san.castling,
        }
    }
}

} // verus!
