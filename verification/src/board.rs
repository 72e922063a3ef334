//! The board: position state, move generation, legality filtering, move
//! application and the game-state queries.
//!
//! The position is held as bitboards: one occupancy mask per color and one
//! mask per piece kind.  Move generation first computes, square by square, a
//! pseudo-legal destination mask obeying movement geometry and blocking
//! ([`Chessboard::pseudo_mask`]); the legality filter then keeps only the
//! destinations that do not leave the mover's own king attacked, recomputing
//! the opponent's sliding attacks over the hypothetical occupancy of each
//! candidate move ([`Chessboard::dest_legal`]).  The table of legal masks is
//! stored and fully regenerated after every applied move; the well-formedness
//! predicate [`Chessboard::wf`] ties the stored table to the specification.

use vstd::prelude::*;

use crate::fen::{decode_fen, encode_fen, FenParseError};
use crate::piece::Piece;
use crate::san::{parse_san, CastlingType, ChessMove, SanDesc, SanMove, SanParseError};
use crate::square::{bb_has, sq_bb};
use crate::square::{FILE_A, FILE_H, RANK_2, RANK_4, RANK_5, RANK_7};

verus! {

/// Squares f1 and g1, empty between White's king and the h1 rook.
pub const WKS_EMPTY: u64 = 0x60;

/// Squares b1, c1 and d1, empty between White's king and the a1 rook.
pub const WQS_EMPTY: u64 = 0x0E;

/// Squares f8 and g8, empty between Black's king and the h8 rook.
pub const BKS_EMPTY: u64 = 0x6000000000000000;

/// Squares b8, c8 and d8, empty between Black's king and the a8 rook.
pub const BQS_EMPTY: u64 = 0x0E00000000000000;

/// Squares e1, f1 and g1: origin, pass-through and destination of White's
/// king-side castle, none of which may be attacked.
pub const WKS_SAFE: u64 = 0x70;

/// Squares c1, d1 and e1: destination, pass-through and origin of White's
/// queen-side castle, none of which may be attacked.
pub const WQS_SAFE: u64 = 0x1C;

/// Squares e8, f8 and g8, the Black king-side counterpart of [`WKS_SAFE`].
pub const BKS_SAFE: u64 = 0x7000000000000000;

/// Squares c8, d8 and e8, the Black queen-side counterpart of [`WQS_SAFE`].
pub const BQS_SAFE: u64 = 0x1C00000000000000;

/// The piece placement alone: both color masks and the six piece-kind masks.
/// Two positions repeat each other exactly when their placements are equal,
/// which is what the threefold-repetition count is keyed by.
#[derive(Debug, Clone, Copy, PartialEq, Eq, Structural)]
pub struct Placement {
    pub white: u64,
    pub black: u64,
    pub pawns: u64,
    pub knights: u64,
    pub bishops: u64,
    pub rooks: u64,
    pub queens: u64,
    pub kings: u64,
}

/// Destinations of a knight on the square of mask `m`: the eight offsets,
/// each masked out where it would wrap around a board edge.
pub open spec fn knight_targets(m: u64) -> u64 {
    (if m & FILE_A == 0 && m & (crate::square::RANK_8 | RANK_7) == 0 {
        m << 15
    } else {
        0
    }) | (if m & FILE_H == 0 && m & (crate::square::RANK_8 | RANK_7) == 0 {
        m << 17
    } else {
        0
    }) | (if m & FILE_A == 0 && m & (crate::square::RANK_1 | RANK_2) == 0 {
        m >> 17
    } else {
        0
    }) | (if m & FILE_H == 0 && m & (crate::square::RANK_1 | RANK_2) == 0 {
        m >> 15
    } else {
        0
    }) | (if m & (FILE_A | crate::square::FILE_B) == 0 && m & crate::square::RANK_8 == 0 {
        m << 6
    } else {
        0
    }) | (if m & (FILE_A | crate::square::FILE_B) == 0 && m & crate::square::RANK_1 == 0 {
        m >> 10
    } else {
        0
    }) | (if m & (FILE_H | crate::square::FILE_G) == 0 && m & crate::square::RANK_8 == 0 {
        m << 10
    } else {
        0
    }) | (if m & (FILE_H | crate::square::FILE_G) == 0 && m & crate::square::RANK_1 == 0 {
        m >> 6
    } else {
        0
    })
}

/// Destinations of a king on the square of mask `m`: the eight adjacent
/// squares, edge-bounded, castling not included.
pub open spec fn king_targets(m: u64) -> u64 {
    (if m & crate::square::RANK_8 == 0 {
        m << 8
    } else {
        0
    }) | (if m & crate::square::RANK_1 == 0 {
        m >> 8
    } else {
        0
    }) | (if m & FILE_H == 0 {
        m << 1
    } else {
        0
    }) | (if m & FILE_A == 0 {
        m >> 1
    } else {
        0
    }) | (if m & (crate::square::RANK_8 | FILE_H) == 0 {
        m << 9
    } else {
        0
    }) | (if m & (crate::square::RANK_8 | FILE_A) == 0 {
        m << 7
    } else {
        0
    }) | (if m & (crate::square::RANK_1 | FILE_H) == 0 {
        m >> 7
    } else {
        0
    }) | (if m & (crate::square::RANK_1 | FILE_A) == 0 {
        m >> 9
    } else {
        0
    })
}

/// The ray from square `j` toward rank 8: each next square up to and
/// including the first one occupied in `board`.
pub open spec fn ray_north(board: u64, j: u64) -> u64
    decreases 64 - j,
{
    if j >= 56 {
        0u64
    } else {
        let n = sq_bb((j + 8) as u64);
        if n & board != 0 {
            n
        } else {
            n | ray_north(board, (j + 8) as u64)
        }
    }
}

/// The ray from square `j` toward rank 1.
pub open spec fn ray_south(board: u64, j: u64) -> u64
    decreases j,
{
    if j < 8 {
        0u64
    } else {
        let n = sq_bb((j - 8) as u64);
        if n & board != 0 {
            n
        } else {
            n | ray_south(board, (j - 8) as u64)
        }
    }
}

/// The ray from square `j` toward file h.
pub open spec fn ray_east(board: u64, j: u64) -> u64
    decreases 64 - j,
{
    if j % 8 == 7 || j >= 64 {
        0u64
    } else {
        let n = sq_bb((j + 1) as u64);
        if n & board != 0 {
            n
        } else {
            n | ray_east(board, (j + 1) as u64)
        }
    }
}

/// The ray from square `j` toward file a.
pub open spec fn ray_west(board: u64, j: u64) -> u64
    decreases j,
{
    if j % 8 == 0 {
        0u64
    } else {
        let n = sq_bb((j - 1) as u64);
        if n & board != 0 {
            n
        } else {
            n | ray_west(board, (j - 1) as u64)
        }
    }
}

/// The diagonal ray from square `j` toward rank 8 and file h.
pub open spec fn ray_north_east(board: u64, j: u64) -> u64
    decreases 64 - j,
{
    if j >= 56 || j % 8 == 7 {
        0u64
    } else {
        let n = sq_bb((j + 9) as u64);
        if n & board != 0 {
            n
        } else {
            n | ray_north_east(board, (j + 9) as u64)
        }
    }
}

/// The diagonal ray from square `j` toward rank 8 and file a.
pub open spec fn ray_north_west(board: u64, j: u64) -> u64
    decreases 64 - j,
{
    if j >= 56 || j % 8 == 0 {
        0u64
    } else {
        let n = sq_bb((j + 7) as u64);
        if n & board != 0 {
            n
        } else {
            n | ray_north_west(board, (j + 7) as u64)
        }
    }
}

/// The diagonal ray from square `j` toward rank 1 and file h.
pub open spec fn ray_south_east(board: u64, j: u64) -> u64
    decreases j,
{
    if j < 8 || j % 8 == 7 {
        0u64
    } else {
        let n = sq_bb((j - 7) as u64);
        if n & board != 0 {
            n
        } else {
            n | ray_south_east(board, (j - 7) as u64)
        }
    }
}

/// The diagonal ray from square `j` toward rank 1 and file a.
pub open spec fn ray_south_west(board: u64, j: u64) -> u64
    decreases j,
{
    if j < 8 || j % 8 == 0 {
        0u64
    } else {
        let n = sq_bb((j - 9) as u64);
        if n & board != 0 {
            n
        } else {
            n | ray_south_west(board, (j - 9) as u64)
        }
    }
}

/// Rook destinations from square `j` over occupancy `board`: the four
/// straight rays, each stopping at and including its first occupied square.
pub open spec fn rook_rays(board: u64, j: u64) -> u64 {
    ray_north(board, j) | ray_south(board, j) | ray_west(board, j) | ray_east(board, j)
}

/// Bishop destinations from square `j` over occupancy `board`: the four
/// diagonal rays, each stopping at and including its first occupied square.
pub open spec fn bishop_rays(board: u64, j: u64) -> u64 {
    ray_north_west(board, j) | ray_north_east(board, j) | ray_south_west(board, j)
        | ray_south_east(board, j)
}

/// The position core: the piece placement, the side to move, the castling
/// rights, the en-passant target and the move clocks — everything a FEN
/// string carries.  The specification functions of move generation and
/// legality are stated over this core, so that they are untouched by changes
/// to a board's derived state.
#[derive(Debug, Clone, Copy, PartialEq, Eq)]
pub struct Pos {
    pub white: u64,
    pub black: u64,
    pub pawns: u64,
    pub knights: u64,
    pub bishops: u64,
    pub rooks: u64,
    pub queens: u64,
    pub kings: u64,
    pub turn: bool,
    pub castle_wk: bool,
    pub castle_wq: bool,
    pub castle_bk: bool,
    pub castle_bq: bool,
    pub en_passant: Option<u64>,
    pub half_move: u32,
    pub full_move: u32,
}

impl Pos {
    /// The occupancy of both colors together.
    pub open spec fn occ(self) -> u64 {
        self.white | self.black
    }

    /// The occupancy of one color, White when `color` is true.
    pub open spec fn color_bb(self, color: bool) -> u64 {
        if color {
            self.white
        } else {
            self.black
        }
    }

    /// The mask of one piece kind over both colors.
    pub open spec fn kind_bb(self, p: Piece) -> u64 {
        match p {
            Piece::PAWN => self.pawns,
            Piece::KNIGHT => self.knights,
            Piece::BISHOP => self.bishops,
            Piece::ROOK => self.rooks,
            Piece::QUEEN => self.queens,
            Piece::KING => self.kings,
            Piece::UNKNOWN => 0,
        }
    }

    /// The piece kind on the square of mask `m`, `UNKNOWN` when empty.
    pub open spec fn piece_at(self, m: u64) -> Piece {
        if self.pawns & m != 0 {
            Piece::PAWN
        } else if self.knights & m != 0 {
            Piece::KNIGHT
        } else if self.bishops & m != 0 {
            Piece::BISHOP
        } else if self.rooks & m != 0 {
            Piece::ROOK
        } else if self.queens & m != 0 {
            Piece::QUEEN
        } else if self.kings & m != 0 {
            Piece::KING
        } else {
            Piece::UNKNOWN
        }
    }

    /// How many piece-kind masks hold square `i`; a consistent position has
    /// at most one.
    pub open spec fn piece_count(self, i: u64) -> int {
        (if bb_has(self.pawns, i) {
            1int
        } else {
            0
        }) + (if bb_has(self.knights, i) {
            1int
        } else {
            0
        }) + (if bb_has(self.bishops, i) {
            1int
        } else {
            0
        }) + (if bb_has(self.rooks, i) {
            1int
        } else {
            0
        }) + (if bb_has(self.queens, i) {
            1int
        } else {
            0
        }) + (if bb_has(self.kings, i) {
            1int
        } else {
            0
        })
    }

    /// Square `i` is consistent: not of both colors, and occupied by exactly
    /// one piece kind when occupied by a color, by none otherwise.
    pub open spec fn sq_ok(self, i: u64) -> bool {
        &&& !(bb_has(self.white, i) && bb_has(self.black, i))
        &&& self.piece_count(i) <= 1
        &&& ((bb_has(self.white, i) || bb_has(self.black, i)) <==> self.piece_count(i) == 1)
    }

    /// Every square is consistent: the color masks are disjoint, each square
    /// carries at most one piece kind, and the piece masks cover exactly the
    /// occupied squares.
    pub open spec fn boards_ok(self) -> bool {
        forall|i: u64| i < 64 ==> self.sq_ok(i)
    }

    /// The en-passant target, when set, is a square index.
    pub open spec fn ep_ok(self) -> bool {
        match self.en_passant {
            Some(e) => e < 64,
            None => true,
        }
    }

    /// The placement part of the position: what the repetition count is
    /// keyed by.
    pub open spec fn placement(self) -> Placement {
        Placement {
            white: self.white,
            black: self.black,
            pawns: self.pawns,
            knights: self.knights,
            bishops: self.bishops,
            rooks: self.rooks,
            queens: self.queens,
            kings: self.kings,
        }
    }

    /// Pawn destinations from the square of mask `m`: one square forward
    /// onto an empty square, two from the starting rank through empty
    /// squares, diagonal steps onto enemy-occupied squares or the en-passant
    /// target.  The pawn's color is read from the white mask, as moves are
    /// generated only for occupied squares.
    pub open spec fn pawn_targets(self, m: u64) -> u64 {
        if self.white & m != 0 {
            (if m & FILE_A == 0 && (m << 7) & self.black != 0 {
                m << 7
            } else {
                0
            }) | (if m & FILE_H == 0 && (m << 9) & self.black != 0 {
                m << 9
            } else {
                0
            }) | (if (m << 8) & self.occ() == 0 {
                (m << 8) | (if m & RANK_2 != 0 && (m << 16) & self.occ() == 0 {
                    m << 16
                } else {
                    0
                })
            } else {
                0
            }) | (match self.en_passant {
                Some(e) => {
                    if (m & FILE_A == 0 && m << 7 == sq_bb(e)) || (m & FILE_H == 0 && m << 9
                        == sq_bb(e)) {
                        sq_bb(e)
                    } else {
                        0
                    }
                },
                None => 0,
            })
        } else {
            (if m & FILE_H == 0 && (m >> 7) & self.white != 0 {
                m >> 7
            } else {
                0
            }) | (if m & FILE_A == 0 && (m >> 9) & self.white != 0 {
                m >> 9
            } else {
                0
            }) | (if (m >> 8) & self.occ() == 0 {
                (m >> 8) | (if m & RANK_7 != 0 && (m >> 16) & self.occ() == 0 {
                    m >> 16
                } else {
                    0
                })
            } else {
                0
            }) | (match self.en_passant {
                Some(e) => {
                    if (m & FILE_H == 0 && m >> 7 == sq_bb(e)) || (m & FILE_A == 0 && m >> 9
                        == sq_bb(e)) {
                        sq_bb(e)
                    } else {
                        0
                    }
                },
                None => 0,
            })
        }
    }

    /// The castling destination squares a king of `color` may additionally
    /// step to: offered only on that side's turn, for each right still held
    /// whose squares between king and rook are empty.  Check safety is the
    /// legality filter's business.
    pub open spec fn castle_targets(self, color: bool) -> u64 {
        if color {
            if self.turn {
                (if self.castle_wk && self.occ() & WKS_EMPTY == 0 {
                    1u64 << 6
                } else {
                    0
                }) | (if self.castle_wq && self.occ() & WQS_EMPTY == 0 {
                    1u64 << 2
                } else {
                    0
                })
            } else {
                0
            }
        } else {
            if !self.turn {
                (if self.castle_bk && self.occ() & BKS_EMPTY == 0 {
                    1u64 << 62
                } else {
                    0
                }) | (if self.castle_bq && self.occ() & BQS_EMPTY == 0 {
                    1u64 << 58
                } else {
                    0
                })
            } else {
                0
            }
        }
    }

    /// The pseudo-legal destination mask of square `i`: movement geometry
    /// and blocking only, king safety not yet applied; empty for an empty
    /// square.
    pub open spec fn pseudo_mask(self, i: u64) -> u64 {
        let m = sq_bb(i);
        if self.occ() & m == 0 {
            0
        } else {
            let color = self.white & m != 0;
            match self.piece_at(m) {
                Piece::PAWN => self.pawn_targets(m),
                Piece::KNIGHT => knight_targets(m) & !self.color_bb(color),
                Piece::BISHOP => bishop_rays(self.occ(), i) & !self.color_bb(color),
                Piece::ROOK => rook_rays(self.occ(), i) & !self.color_bb(color),
                Piece::QUEEN => (rook_rays(self.occ(), i) | bishop_rays(self.occ(), i))
                    & !self.color_bb(color),
                Piece::KING => (king_targets(m) | self.castle_targets(color)) & !self.color_bb(
                    color,
                ),
                Piece::UNKNOWN => 0,
            }
        }
    }

    /// The squares attacked by the piece of the attacking color on square
    /// `i`: pawn, knight and king reaches are taken from where the pieces
    /// stand now, while sliding attacks are recomputed over `board`, and a
    /// slider on a square of `exclude` — one captured by the candidate move
    /// under test — attacks nothing.
    pub open spec fn attack_of_square(self, attacker: bool, board: u64, exclude: u64, i: u64) -> u64 {
        let m = sq_bb(i);
        if self.color_bb(attacker) & m == 0 {
            0
        } else {
            match self.piece_at(m) {
                Piece::PAWN => {
                    if attacker {
                        (if m & FILE_A == 0 {
                            m << 7
                        } else {
                            0
                        }) | (if m & FILE_H == 0 {
                            m << 9
                        } else {
                            0
                        })
                    } else {
                        (if m & FILE_H == 0 {
                            m >> 7
                        } else {
                            0
                        }) | (if m & FILE_A == 0 {
                            m >> 9
                        } else {
                            0
                        })
                    }
                },
                Piece::KNIGHT => knight_targets(m),
                Piece::KING => king_targets(m),
                Piece::BISHOP => {
                    if m & exclude != 0 {
                        0
                    } else {
                        bishop_rays(board, i)
                    }
                },
                Piece::ROOK => {
                    if m & exclude != 0 {
                        0
                    } else {
                        rook_rays(board, i)
                    }
                },
                Piece::QUEEN => {
                    if m & exclude != 0 {
                        0
                    } else {
                        rook_rays(board, i) | bishop_rays(board, i)
                    }
                },
                Piece::UNKNOWN => 0,
            }
        }
    }

    /// The union of [`Pos::attack_of_square`] over the first `n` squares.
    pub open spec fn attack_upto(self, attacker: bool, board: u64, exclude: u64, n: u64) -> u64
        decreases n,
    {
        if n == 0 {
            0u64
        } else {
            self.attack_upto(attacker, board, exclude, (n - 1) as u64) | self.attack_of_square(
                attacker,
                board,
                exclude,
                (n - 1) as u64,
            )
        }
    }

    /// Every square the attacking color reaches: the attack surface used for
    /// king-safety tests.
    pub open spec fn attack_mask(self, attacker: bool, board: u64, exclude: u64) -> u64 {
        self.attack_upto(attacker, board, exclude, 64)
    }

    /// The hypothetical occupancy after the piece on square `i` steps to
    /// square `j`.
    pub open spec fn hypo_board(self, i: u64, j: u64) -> u64 {
        (self.occ() & !sq_bb(i)) | sq_bb(j)
    }

    /// Whether the pseudo-legal step from `i` to `j` survives the legality
    /// filter: over the hypothetical occupancy, with a captured enemy piece
    /// removed from the attackers, the opponent must not attack the mover's
    /// king — for a king move, not the destination, and for a castling
    /// destination none of origin, pass-through and destination.
    pub open spec fn dest_legal(self, i: u64, j: u64) -> bool {
        bb_has(self.pseudo_mask(i), j) && {
            let board2 = self.hypo_board(i, j);
            let exclude = sq_bb(j) & self.color_bb(!self.turn);
            let atk = self.attack_mask(!self.turn, board2, exclude);
            if self.piece_at(sq_bb(i)) == Piece::KING {
                if self.turn {
                    if j == 6 {
                        atk & WKS_SAFE == 0
                    } else if j == 2 {
                        atk & WQS_SAFE == 0
                    } else {
                        atk & sq_bb(j) == 0
                    }
                } else {
                    if j == 62 {
                        atk & BKS_SAFE == 0
                    } else if j == 58 {
                        atk & BQS_SAFE == 0
                    } else {
                        atk & sq_bb(j) == 0
                    }
                }
            } else {
                atk & (self.kings & self.color_bb(self.turn)) == 0
            }
        }
    }

    /// The legal destinations of square `i` among the first `n` squares.
    pub open spec fn legal_upto(self, i: u64, n: u64) -> u64
        decreases n,
    {
        if n == 0 {
            0u64
        } else {
            self.legal_upto(i, (n - 1) as u64) | (if self.dest_legal(i, (n - 1) as u64) {
                sq_bb((n - 1) as u64)
            } else {
                0u64
            })
        }
    }

    /// The legal-move mask of square `i`: empty unless the square holds a
    /// piece of the side to move, else every pseudo-legal destination that
    /// leaves the mover's king safe.
    pub open spec fn legal_mask(self, i: u64) -> u64 {
        if self.color_bb(self.turn) & sq_bb(i) == 0 {
            0u64
        } else {
            self.legal_upto(i, 64)
        }
    }

    /// Whether the side to move stands in check.
    pub open spec fn checked(self) -> bool {
        self.attack_mask(!self.turn, self.occ(), 0) & (self.kings & self.color_bb(self.turn)) != 0
    }

    /// Whether the side to move has any legal move at all.
    pub open spec fn any_legal(self) -> bool {
        exists|i: u64| i < 64 && self.legal_mask(i) != 0
    }
}

/// How many of the first `n` entries of `s` equal `v`.
pub open spec fn count_matches(s: Seq<Placement>, v: Placement, n: int) -> int
    decreases n,
{
    if n <= 0 {
        0
    } else {
        count_matches(s, v, n - 1) + (if s[n - 1] == v {
            1int
        } else {
            0
        })
    }
}

/// Some placement occurs at least three times in `s`.
pub open spec fn has_threefold(s: Seq<Placement>) -> bool {
    exists|k: int| 0 <= k < s.len() && count_matches(s, s[k], s.len() as int) >= 3
}


/// The position of the standard starting array: White to move, all four
/// castling rights, clocks at zero and one.
pub open spec fn start_pos() -> Pos {
    Pos {
        white: 0xFFFF,
        black: 0xFFFF000000000000,
        pawns: 0x00FF00000000FF00,
        knights: 0x4200000000000042,
        bishops: 0x2400000000000024,
        rooks: 0x8100000000000081,
        queens: 0x0800000000000008,
        kings: 0x1000000000000010,
        turn: true,
        castle_wk: true,
        castle_wq: true,
        castle_bk: true,
        castle_bq: true,
        en_passant: None,
        half_move: 0,
        full_move: 1,
    }
}

/// Which squares each mask of the starting array holds.
proof fn lemma_start_bits(i: u64)
    by (bit_vector)
    requires
        i < 64,
    ensures
        (0xFFFFu64 & (1u64 << i) != 0) <==> i < 16,
        (0xFFFF000000000000u64 & (1u64 << i) != 0) <==> i >= 48,
        (0x00FF00000000FF00u64 & (1u64 << i) != 0) <==> (8 <= i < 16 || 48 <= i < 56),
        (0x4200000000000042u64 & (1u64 << i) != 0) <==> (i == 1 || i == 6 || i == 57 || i == 62),
        (0x2400000000000024u64 & (1u64 << i) != 0) <==> (i == 2 || i == 5 || i == 58 || i == 61),
        (0x8100000000000081u64 & (1u64 << i) != 0) <==> (i == 0 || i == 7 || i == 56 || i == 63),
        (0x0800000000000008u64 & (1u64 << i) != 0) <==> (i == 3 || i == 59),
        (0x1000000000000010u64 & (1u64 << i) != 0) <==> (i == 4 || i == 60),
{
}

/// The starting array is a consistent board.
proof fn lemma_start_ok()
    ensures
        start_pos().boards_ok(),
{
    assert forall|i: u64| i < 64 implies start_pos().sq_ok(i) by {
        lemma_start_bits(i);
    }
}


/// How a SAN descriptor resolved against a position: a castle of one side,
/// or a move of the piece on one square to another.
pub enum Resolution {
    Castle(CastlingType),
    Normal(u64, u64),
}

impl Pos {
    /// Whether a descriptor asks for castling: either explicitly, or as a
    /// king move onto a castling destination whose right is still held.
    pub open spec fn castle_trigger(self, d: SanDesc) -> bool {
        d.castling is Some || (d.piece == Piece::KING && ((self.turn && ((self.castle_wk && d.to
            & sq_bb(6) != 0) || (self.castle_wq && d.to & sq_bb(2) != 0))) || (!self.turn && ((
        self.castle_bk && d.to & sq_bb(62) != 0) || (self.castle_bq && d.to & sq_bb(58) != 0)))))
    }

    /// Which side the castling descriptor goes to: as written, or read off
    /// the destination square.
    pub open spec fn castle_kind(d: SanDesc) -> CastlingType {
        match d.castling {
            Some(k) => k,
            None => if d.to & (sq_bb(6) | sq_bb(62)) != 0 {
                CastlingType::KingSide
            } else {
                CastlingType::QueenSide
            },
        }
    }

    /// Whether the legality filter admitted the castle: the king's legal
    /// mask holds the castling destination.
    pub open spec fn castle_legal(self, kind: CastlingType) -> bool {
        if self.turn {
            match kind {
                CastlingType::KingSide => bb_has(self.legal_mask(4), 6),
                CastlingType::QueenSide => bb_has(self.legal_mask(4), 2),
            }
        } else {
            match kind {
                CastlingType::KingSide => bb_has(self.legal_mask(60), 62),
                CastlingType::QueenSide => bb_has(self.legal_mask(60), 58),
            }
        }
    }

    /// Whether square `i` can be the descriptor's origin: a piece of the
    /// side to move, of the descriptor's kind, within its disambiguation
    /// mask.
    pub open spec fn origin_matches(self, d: SanDesc, i: u64) -> bool {
        bb_has(self.color_bb(self.turn), i) && self.piece_at(sq_bb(i)) == d.piece && (d.from == 0
            || sq_bb(i) & d.from != 0)
    }

    /// The first legal destination of origin `i` that lies in the
    /// descriptor's target mask, searched upward from `j`.
    pub open spec fn find_dest(self, d: SanDesc, i: u64, j: u64) -> Option<u64>
        decreases 64 - j,
    {
        if j >= 64 {
            None
        } else if bb_has(self.legal_mask(i), j) && sq_bb(j) & d.to != 0 {
            Some(j)
        } else {
            self.find_dest(d, i, (j + 1) as u64)
        }
    }

    /// The first matching origin, in ascending square order, together with
    /// its first matching destination.
    pub open spec fn find_origin(self, d: SanDesc, i: u64) -> Option<(u64, u64)>
        decreases 64 - i,
    {
        if i >= 64 {
            None
        } else if self.origin_matches(d, i) && self.find_dest(d, i, 0) is Some {
            Some((i, self.find_dest(d, i, 0)->0))
        } else {
            self.find_origin(d, (i + 1) as u64)
        }
    }

    /// How a descriptor resolves: a vetted castle, the first matching
    /// origin-destination pair, or nothing.
    pub open spec fn resolve(self, d: SanDesc) -> Option<Resolution> {
        if self.castle_trigger(d) {
            if self.castle_legal(Self::castle_kind(d)) {
                Some(Resolution::Castle(Self::castle_kind(d)))
            } else {
                None
            }
        } else {
            match self.find_origin(d, 0) {
                Some(ij) => Some(Resolution::Normal(ij.0, ij.1)),
                None => None,
            }
        }
    }

    /// The position with every piece taken off the squares of `m`.
    pub open spec fn remove_sq(self, m: u64) -> Pos {
        Pos {
            white: self.white & !m,
            black: self.black & !m,
            pawns: self.pawns & !m,
            knights: self.knights & !m,
            bishops: self.bishops & !m,
            rooks: self.rooks & !m,
            queens: self.queens & !m,
            kings: self.kings & !m,
            ..self
        }
    }

    /// The position with piece `pc` of the given color put onto the squares
    /// of `m`; an `UNKNOWN` piece puts nothing anywhere.
    pub open spec fn add_piece(self, pc: Piece, white: bool, m: u64) -> Pos {
        if pc == Piece::UNKNOWN {
            self
        } else {
            let p1 = match pc {
                Piece::PAWN => Pos { pawns: self.pawns | m, ..self },
                Piece::KNIGHT => Pos { knights: self.knights | m, ..self },
                Piece::BISHOP => Pos { bishops: self.bishops | m, ..self },
                Piece::ROOK => Pos { rooks: self.rooks | m, ..self },
                Piece::QUEEN => Pos { queens: self.queens | m, ..self },
                Piece::KING => Pos { kings: self.kings | m, ..self },
                Piece::UNKNOWN => self,
            };
            if white {
                Pos { white: p1.white | m, ..p1 }
            } else {
                Pos { black: p1.black | m, ..p1 }
            }
        }
    }

    /// The castle squares of one side: king origin and destination, rook
    /// origin and destination.
    pub open spec fn castle_squares(turn: bool, kind: CastlingType) -> (u64, u64, u64, u64) {
        if turn {
            match kind {
                CastlingType::KingSide => (4u64, 6u64, 7u64, 5u64),
                CastlingType::QueenSide => (4u64, 2u64, 0u64, 3u64),
            }
        } else {
            match kind {
                CastlingType::KingSide => (60u64, 62u64, 63u64, 61u64),
                CastlingType::QueenSide => (60u64, 58u64, 56u64, 59u64),
            }
        }
    }

    /// The position after castling: king and rook moved in one step, both
    /// of the mover's rights revoked, the en-passant target cleared, the
    /// clocks advanced, the turn passed.
    pub open spec fn apply_castle(self, kind: CastlingType) -> Pos {
        let (ki, kd, ri, rd) = Self::castle_squares(self.turn, kind);
        let p1 = self.remove_sq(sq_bb(ki)).remove_sq(sq_bb(kd)).remove_sq(sq_bb(ri)).remove_sq(
            sq_bb(rd),
        );
        let p2 = p1.add_piece(Piece::KING, self.turn, sq_bb(kd)).add_piece(
            Piece::ROOK,
            self.turn,
            sq_bb(rd),
        );
        Pos {
            turn: !self.turn,
            castle_wk: self.castle_wk && !self.turn,
            castle_wq: self.castle_wq && !self.turn,
            castle_bk: self.castle_bk && self.turn,
            castle_bq: self.castle_bq && self.turn,
            en_passant: None,
            half_move: ((self.half_move + 1) as u32),
            full_move: if !self.turn {
                ((self.full_move + 1) as u32)
            } else {
                self.full_move
            },
            ..p2
        }
    }

    /// Whether the step from `i` to `j` is an en-passant capture: a pawn
    /// arriving exactly on the current target.
    pub open spec fn is_ep_capture(self, d: SanDesc, i: u64, j: u64) -> bool {
        d.promotion is None && self.piece_at(sq_bb(i)) == Piece::PAWN && (match self.en_passant {
            Some(e) => j == e,
            None => false,
        })
    }

    /// The piece the move captures outright: what stands on the
    /// destination, when the opponent holds it.  An en-passant capture
    /// takes its pawn from behind the target instead and reports nothing
    /// here.
    pub open spec fn captured_at(self, j: u64) -> Option<Piece> {
        if self.color_bb(!self.turn) & sq_bb(j) != 0 {
            Some(self.piece_at(sq_bb(j)))
        } else {
            None
        }
    }

    /// The en-passant target the move leaves behind: set only by a double
    /// pawn advance with an enemy pawn standing beside the landing square.
    pub open spec fn new_ep_target(self, i: u64, j: u64) -> Option<u64> {
        let mi = sq_bb(i);
        let mj = sq_bb(j);
        if self.piece_at(mi) == Piece::PAWN {
            if self.turn {
                if mi & RANK_2 != 0 && mj & RANK_4 != 0 && j >= 8 && ((mj & FILE_A == 0 && (
                self.pawns & self.black) & (mj >> 1) != 0) || (mj & FILE_H == 0 && (self.pawns
                    & self.black) & (mj << 1) != 0)) {
                    Some((j - 8) as u64)
                } else {
                    None
                }
            } else {
                if mi & RANK_7 != 0 && mj & RANK_5 != 0 && j < 56 && ((mj & FILE_A == 0 && (
                self.pawns & self.white) & (mj >> 1) != 0) || (mj & FILE_H == 0 && (self.pawns
                    & self.white) & (mj << 1) != 0)) {
                    Some((j + 8) as u64)
                } else {
                    None
                }
            }
        } else {
            None
        }
    }

    /// The castling rights after the move from `i` to `j`: a king move
    /// revokes both of its side's rights, a rook moving off its home corner
    /// revokes that right, and a rook captured on its home corner revokes
    /// the opponent's.
    pub open spec fn rights_after(self, i: u64, j: u64) -> (bool, bool, bool, bool) {
        let mover = self.piece_at(sq_bb(i));
        let rook_gone = self.captured_at(j) == Some(Piece::ROOK);
        let wk = self.castle_wk && !(self.turn && (mover == Piece::KING || (mover == Piece::ROOK
            && i == 7))) && !(!self.turn && rook_gone && j == 7);
        let wq = self.castle_wq && !(self.turn && (mover == Piece::KING || (mover == Piece::ROOK
            && i == 0))) && !(!self.turn && rook_gone && j == 0);
        let bk = self.castle_bk && !(!self.turn && (mover == Piece::KING || (mover == Piece::ROOK
            && i == 63))) && !(self.turn && rook_gone && j == 63);
        let bq = self.castle_bq && !(!self.turn && (mover == Piece::KING || (mover == Piece::ROOK
            && i == 56))) && !(self.turn && rook_gone && j == 56);
        (wk, wq, bk, bq)
    }

    /// The position after an ordinary move, capture, en-passant capture or
    /// promotion from `i` to `j`: the boards, the rights, the en-passant
    /// target, the clocks and the turn all updated in one step.
    pub open spec fn apply_normal(self, d: SanDesc, i: u64, j: u64) -> Pos {
        let mi = sq_bb(i);
        let mj = sq_bb(j);
        let mover = self.piece_at(mi);
        let arriving = match d.promotion {
            Some(pp) => if mover == Piece::PAWN {
                pp
            } else {
                mover
            },
            None => mover,
        };
        let capture = self.color_bb(!self.turn) & mj != 0;
        let behind = if self.turn {
            mj >> 8
        } else {
            mj << 8
        };
        let p1 = self.remove_sq(mi).remove_sq(mj);
        let p2 = if self.is_ep_capture(d, i, j) {
            p1.remove_sq(behind)
        } else {
            p1
        };
        let p3 = p2.add_piece(arriving, self.turn, mj);
        let rights = self.rights_after(i, j);
        Pos {
            turn: !self.turn,
            castle_wk: rights.0,
            castle_wq: rights.1,
            castle_bk: rights.2,
            castle_bq: rights.3,
            en_passant: self.new_ep_target(i, j),
            half_move: if capture || mover == Piece::PAWN {
                0
            } else {
                ((self.half_move + 1) as u32)
            },
            full_move: if !self.turn {
                ((self.full_move + 1) as u32)
            } else {
                self.full_move
            },
            ..p3
        }
    }

    /// The position a resolved move leads to.
    pub open spec fn apply_move(self, d: SanDesc, r: Resolution) -> Pos {
        match r {
            Resolution::Castle(kind) => self.apply_castle(kind),
            Resolution::Normal(i, j) => self.apply_normal(d, i, j),
        }
    }

    /// The origin mask a resolved move is recorded with: the king's square
    /// for a castle, the origin square otherwise.
    pub open spec fn from_mask_of(self, r: Resolution) -> u64 {
        match r {
            Resolution::Castle(_) => if self.turn {
                sq_bb(4)
            } else {
                sq_bb(60)
            },
            Resolution::Normal(i, _) => sq_bb(i),
        }
    }

    /// The capture a resolved move is recorded with.
    pub open spec fn captured_of(self, r: Resolution) -> Option<Piece> {
        match r {
            Resolution::Castle(_) => None,
            Resolution::Normal(_, j) => self.captured_at(j),
        }
    }

    /// The SAN-like prefix of a piece kind: its letter, nothing for a pawn.
    pub open spec fn piece_prefix(p: Piece) -> Seq<char> {
        match p {
            Piece::KING => seq!['K'],
            Piece::QUEEN => seq!['Q'],
            Piece::ROOK => seq!['R'],
            Piece::BISHOP => seq!['B'],
            Piece::KNIGHT => seq!['N'],
            _ => seq![],
        }
    }

    /// The SAN-like text of one legal step: the mover's letter and the
    /// destination's name.
    pub open spec fn move_str(self, i: u64, j: u64) -> Seq<char> {
        Self::piece_prefix(self.piece_at(sq_bb(i))) + crate::square::square_name_seq(j)
    }

    /// The texts of origin `i`'s legal steps onto squares `j` and above, in
    /// ascending destination order.
    pub open spec fn dest_strs(self, i: u64, j: u64) -> Seq<Seq<char>>
        decreases 64 - j,
    {
        if j >= 64 {
            seq![]
        } else {
            (if bb_has(self.legal_mask(i), j) {
                seq![self.move_str(i, j)]
            } else {
                seq![]
            }) + self.dest_strs(i, (j + 1) as u64)
        }
    }

    /// The texts of every legal move from origins `i` and above: ascending
    /// origin order, then ascending destination order.
    pub open spec fn all_move_strs(self, i: u64) -> Seq<Seq<char>>
        decreases 64 - i,
    {
        if i >= 64 {
            seq![]
        } else {
            self.dest_strs(i, 0) + self.all_move_strs((i + 1) as u64)
        }
    }

    /// One printed square: the piece's letter, a dot when empty.
    pub open spec fn ascii_char(self, i: u64) -> char {
        if bb_has(self.occ(), i) {
            crate::fen::placement_char(self, i)
        } else {
            '.'
        }
    }

    /// One printed rank from file `file` on, closed by a newline.
    pub open spec fn ascii_rank(self, base: u64, file: u64) -> Seq<char>
        decreases 8 - file,
    {
        if file >= 8 {
            seq!['\n']
        } else {
            seq![self.ascii_char((base + file) as u64)] + self.ascii_rank(base, (file + 1) as u64)
        }
    }

    /// The printed board from rank counter `r` on, top rank first, one line
    /// per rank.
    pub open spec fn ascii_board(self, r: u64) -> Seq<char>
        decreases 8 - r,
    {
        if r >= 8 {
            seq![]
        } else {
            self.ascii_rank((56 - r * 8) as u64, 0) + self.ascii_board((r + 1) as u64)
        }
    }
}

/// What the history record of an applied move holds: the mover's color, the
/// positions before and after as FEN — the after-FEN written just before
/// the turn passes, as the applier does — the origin mask, and the
/// descriptor's destination, piece, promotion, castling kind and token
/// text, with the captured piece kind if any.
pub open spec fn record_ok(
    m: ChessMove,
    before: Pos,
    after_rec: Pos,
    d: SanDesc,
    san: Seq<char>,
    from_mask: u64,
    captured: Option<Piece>,
) -> bool {
    &&& m.color == before.turn
    &&& m.before@ == encode_fen(before)
    &&& m.after@ == encode_fen(after_rec)
    &&& m.from == from_mask
    &&& m.to == d.to
    &&& m.piece == d.piece
    &&& m.captured == captured
    &&& m.promotion == d.promotion
    &&& m.san@ == san
    &&& m.castling == d.castling
}


/// Why a SAN move was not applied.
#[derive(Debug, Clone, Copy, PartialEq, Eq, Structural)]
pub enum MoveError {
    /// The token string did not parse.
    Parse(SanParseError),
    /// The descriptor matches no legal origin-destination pair in the
    /// current position.
    Illegal,
}

/// The descriptor a parsed SAN move carries.
pub open spec fn desc_of(m: SanMove) -> SanDesc {
    SanDesc {
        piece: m.piece,
        to: m.to,
        from: m.from,
        promotion: m.promotion,
        castling: m.castling,
    }
}

/// What one square holds after pieces are taken off the squares of `m`:
/// nothing when the square was cleared, what it held before otherwise.
proof fn lemma_remove_sq_bits(p: Pos, m: u64, k: u64)
    requires
        k < 64,
    ensures
        bb_has(p.remove_sq(m).white, k) == (bb_has(p.white, k) && !bb_has(m, k)),
        bb_has(p.remove_sq(m).black, k) == (bb_has(p.black, k) && !bb_has(m, k)),
        p.remove_sq(m).piece_count(k) == (if bb_has(m, k) {
            0int
        } else {
            p.piece_count(k)
        }),
{
    crate::square::lemma_bb_and_not(p.white, m, k);
    crate::square::lemma_bb_and_not(p.black, m, k);
    crate::square::lemma_bb_and_not(p.pawns, m, k);
    crate::square::lemma_bb_and_not(p.knights, m, k);
    crate::square::lemma_bb_and_not(p.bishops, m, k);
    crate::square::lemma_bb_and_not(p.rooks, m, k);
    crate::square::lemma_bb_and_not(p.queens, m, k);
    crate::square::lemma_bb_and_not(p.kings, m, k);
}

/// Taking pieces off squares keeps a board consistent.
proof fn lemma_remove_sq_ok(p: Pos, m: u64)
    requires
        p.boards_ok(),
    ensures
        p.remove_sq(m).boards_ok(),
{
    let q = p.remove_sq(m);
    assert forall|k: u64| k < 64 implies q.sq_ok(k) by {
        assert(p.sq_ok(k));
        lemma_remove_sq_bits(p, m, k);
    }
}

/// What another square holds after one piece lands on square `j`: exactly
/// what it held before.
proof fn lemma_add_piece_bits(p: Pos, pc: Piece, white: bool, j: u64, k: u64)
    requires
        j < 64,
        k < 64,
        k != j,
    ensures
        bb_has(p.add_piece(pc, white, sq_bb(j)).white, k) == bb_has(p.white, k),
        bb_has(p.add_piece(pc, white, sq_bb(j)).black, k) == bb_has(p.black, k),
        p.add_piece(pc, white, sq_bb(j)).piece_count(k) == p.piece_count(k),
{
    crate::square::lemma_sq_bb_has(j, k);
    crate::square::lemma_bb_ops(p.white, sq_bb(j), k);
    crate::square::lemma_bb_ops(p.black, sq_bb(j), k);
    crate::square::lemma_bb_ops(p.pawns, sq_bb(j), k);
    crate::square::lemma_bb_ops(p.knights, sq_bb(j), k);
    crate::square::lemma_bb_ops(p.bishops, sq_bb(j), k);
    crate::square::lemma_bb_ops(p.rooks, sq_bb(j), k);
    crate::square::lemma_bb_ops(p.queens, sq_bb(j), k);
    crate::square::lemma_bb_ops(p.kings, sq_bb(j), k);
}

/// Putting one piece on one empty square keeps a board consistent.
proof fn lemma_add_piece_ok(p: Pos, pc: Piece, white: bool, j: u64)
    requires
        p.boards_ok(),
        j < 64,
        !bb_has(p.white, j),
        !bb_has(p.black, j),
    ensures
        p.add_piece(pc, white, sq_bb(j)).boards_ok(),
{
    let q = p.add_piece(pc, white, sq_bb(j));
    assert forall|k: u64| k < 64 implies q.sq_ok(k) by {
        assert(p.sq_ok(k));
        if k == j {
            crate::square::lemma_sq_bb_has(j, k);
            crate::square::lemma_bb_ops(p.white, sq_bb(j), k);
            crate::square::lemma_bb_ops(p.black, sq_bb(j), k);
            crate::square::lemma_bb_ops(p.pawns, sq_bb(j), k);
            crate::square::lemma_bb_ops(p.knights, sq_bb(j), k);
            crate::square::lemma_bb_ops(p.bishops, sq_bb(j), k);
            crate::square::lemma_bb_ops(p.rooks, sq_bb(j), k);
            crate::square::lemma_bb_ops(p.queens, sq_bb(j), k);
            crate::square::lemma_bb_ops(p.kings, sq_bb(j), k);
        } else {
            lemma_add_piece_bits(p, pc, white, j, k);
        }
    }
}


/// The single-square masks of a bitboard's squares from `i` on, ascending.
pub open spec fn squares_of(bb: u64, i: u64) -> Seq<u64>
    decreases 64 - i,
{
    if i >= 64 {
        seq![]
    } else {
        (if bb_has(bb, i) {
            seq![sq_bb(i)]
        } else {
            seq![]
        }) + squares_of(bb, (i + 1) as u64)
    }
}

/// A chess position together with its derived legal-move table, its
/// repetition bookkeeping and its move history.
#[derive(Debug)]
pub struct Chessboard {
    white: u64,
    black: u64,
    pawns: u64,
    knights: u64,
    bishops: u64,
    rooks: u64,
    queens: u64,
    kings: u64,
    /// True while it is White's turn.
    turn: bool,
    castle_wk: bool,
    castle_wq: bool,
    castle_bk: bool,
    castle_bq: bool,
    /// The en-passant target square index, set for one ply after a double
    /// pawn advance with an enemy pawn beside the landing square.
    en_passant: Option<u64>,
    half_move: u32,
    full_move: u32,
    /// The legal-move table: entry `i` is the mask of legal destinations of
    /// the piece on square `i`, regenerated in full after every move.
    legal: Vec<u64>,
    /// The placements seen so far, one per position since the start,
    /// including the current one; the threefold-repetition count reads it.
    reps: Vec<Placement>,
    /// The applied moves, in order.
    pub history: Vec<ChessMove>,
}

impl Chessboard {
    /// The position core this board holds.
    pub closed spec fn pos(self) -> Pos {
        Pos {
            white: self.white,
            black: self.black,
            pawns: self.pawns,
            knights: self.knights,
            bishops: self.bishops,
            rooks: self.rooks,
            queens: self.queens,
            kings: self.kings,
            turn: self.turn,
            castle_wk: self.castle_wk,
            castle_wq: self.castle_wq,
            castle_bk: self.castle_bk,
            castle_bq: self.castle_bq,
            en_passant: self.en_passant,
            half_move: self.half_move,
            full_move: self.full_move,
        }
    }

    /// The placements recorded for repetition counting.
    pub closed spec fn reps_seq(self) -> Seq<Placement> {
        self.reps@
    }

    /// The moves applied so far, oldest first.
    pub closed spec fn history_seq(self) -> Seq<ChessMove> {
        self.history@
    }

    /// Well-formed: the position core is consistent and the stored
    /// legal-move table is exactly what [`Pos::legal_mask`] prescribes.
    pub closed spec fn wf(self) -> bool {
        &&& self.pos().boards_ok()
        &&& self.pos().ep_ok()
        &&& self.legal@.len() == 64
        &&& forall|i: u64| i < 64 ==> self.legal@[i as int] == self.pos().legal_mask(i)
    }

    /// The occupancy mask of one color.
    pub fn get_color(&self, color: bool) -> (r: u64)
        ensures
            r == self.pos().color_bb(color),
    {
        if color {
            self.white
        } else {
            self.black
        }
    }

    /// The occupancy of both colors together.
    fn all(&self) -> (r: u64)
        ensures
            r == self.pos().occ(),
    {
        self.white | self.black
    }

    /// The piece kind on the square of mask `m`, `UNKNOWN` when empty.
    pub fn get_piece(&self, m: u64) -> (p: Piece)
        ensures
            p == self.pos().piece_at(m),
    {
        if self.pawns & m != 0 {
            Piece::PAWN
        } else if self.knights & m != 0 {
            Piece::KNIGHT
        } else if self.bishops & m != 0 {
            Piece::BISHOP
        } else if self.rooks & m != 0 {
            Piece::ROOK
        } else if self.queens & m != 0 {
            Piece::QUEEN
        } else if self.kings & m != 0 {
            Piece::KING
        } else {
            Piece::UNKNOWN
        }
    }

    /// Generates the pawn destination mask for the pawn on the square of
    /// mask `m`.
    pub fn generate_pawn_moves(&self, m: u64) -> (r: u64)
        requires
            self.pos().ep_ok(),
        ensures
            r == self.pos().pawn_targets(m),
    {
        let ep_mask: u64 = match self.en_passant {
            Some(e) => 1u64 << e,
            None => 0,
        };
        let all = self.white | self.black;
        if self.white & m != 0 {
            let c1: u64 = if m & FILE_A == 0 && (m << 7) & self.black != 0 {
                m << 7
            } else {
                0
            };
            let c2: u64 = if m & FILE_H == 0 && (m << 9) & self.black != 0 {
                m << 9
            } else {
                0
            };
            let fwd: u64 = if (m << 8) & all == 0 {
                (m << 8) | (if m & RANK_2 != 0 && (m << 16) & all == 0 {
                    m << 16
                } else {
                    0
                })
            } else {
                0
            };
            let ep: u64 = match self.en_passant {
                Some(_) => {
                    if (m & FILE_A == 0 && m << 7 == ep_mask) || (m & FILE_H == 0 && m << 9
                        == ep_mask) {
                        ep_mask
                    } else {
                        0
                    }
                },
                None => 0,
            };
            c1 | c2 | fwd | ep
        } else {
            let c1: u64 = if m & FILE_H == 0 && (m >> 7) & self.white != 0 {
                m >> 7
            } else {
                0
            };
            let c2: u64 = if m & FILE_A == 0 && (m >> 9) & self.white != 0 {
                m >> 9
            } else {
                0
            };
            let fwd: u64 = if (m >> 8) & all == 0 {
                (m >> 8) | (if m & RANK_7 != 0 && (m >> 16) & all == 0 {
                    m >> 16
                } else {
                    0
                })
            } else {
                0
            };
            let ep: u64 = match self.en_passant {
                Some(_) => {
                    if (m & FILE_H == 0 && m >> 7 == ep_mask) || (m & FILE_A == 0 && m >> 9
                        == ep_mask) {
                        ep_mask
                    } else {
                        0
                    }
                },
                None => 0,
            };
            c1 | c2 | fwd | ep
        }
    }

    /// Generates the knight destination mask for a knight on the square of
    /// mask `m`, own pieces not yet excluded.
    pub fn generate_knight_moves(&self, m: u64) -> (r: u64)
        ensures
            r == knight_targets(m),
    {
        let a: u64 = if m & FILE_A == 0 && m & (crate::square::RANK_8 | RANK_7) == 0 {
            m << 15
        } else {
            0
        };
        let b: u64 = if m & FILE_H == 0 && m & (crate::square::RANK_8 | RANK_7) == 0 {
            m << 17
        } else {
            0
        };
        let c: u64 = if m & FILE_A == 0 && m & (crate::square::RANK_1 | RANK_2) == 0 {
            m >> 17
        } else {
            0
        };
        let d: u64 = if m & FILE_H == 0 && m & (crate::square::RANK_1 | RANK_2) == 0 {
            m >> 15
        } else {
            0
        };
        let e: u64 = if m & (FILE_A | crate::square::FILE_B) == 0 && m & crate::square::RANK_8
            == 0 {
            m << 6
        } else {
            0
        };
        let f: u64 = if m & (FILE_A | crate::square::FILE_B) == 0 && m & crate::square::RANK_1
            == 0 {
            m >> 10
        } else {
            0
        };
        let g: u64 = if m & (FILE_H | crate::square::FILE_G) == 0 && m & crate::square::RANK_8
            == 0 {
            m << 10
        } else {
            0
        };
        let h: u64 = if m & (FILE_H | crate::square::FILE_G) == 0 && m & crate::square::RANK_1
            == 0 {
            m >> 6
        } else {
            0
        };
        a | b | c | d | e | f | g | h
    }

    /// Generates the king destination mask for a king on the square of mask
    /// `m`: the adjacent squares only, castling targets added separately.
    pub fn generate_king_moves(&self, m: u64) -> (r: u64)
        ensures
            r == king_targets(m),
    {
        let a: u64 = if m & crate::square::RANK_8 == 0 {
            m << 8
        } else {
            0
        };
        let b: u64 = if m & crate::square::RANK_1 == 0 {
            m >> 8
        } else {
            0
        };
        let c: u64 = if m & FILE_H == 0 {
            m << 1
        } else {
            0
        };
        let d: u64 = if m & FILE_A == 0 {
            m >> 1
        } else {
            0
        };
        let e: u64 = if m & (crate::square::RANK_8 | FILE_H) == 0 {
            m << 9
        } else {
            0
        };
        let f: u64 = if m & (crate::square::RANK_8 | FILE_A) == 0 {
            m << 7
        } else {
            0
        };
        let g: u64 = if m & (crate::square::RANK_1 | FILE_H) == 0 {
            m >> 7
        } else {
            0
        };
        let h: u64 = if m & (crate::square::RANK_1 | FILE_A) == 0 {
            m >> 9
        } else {
            0
        };
        a | b | c | d | e | f | g | h
    }

    /// Generates the rook destination mask for square `i` over occupancy
    /// `board`: the four straight rays, each walked outward to the first
    /// occupied square, included.
    pub fn generate_rook_moves(&self, i: u64, board: u64) -> (r: u64)
        requires
            i < 64,
        ensures
            r == rook_rays(board, i),
    {
        let mut north: u64 = 0;
        let mut j = i;
        let mut blocked = false;
        proof {
            crate::square::lemma_or_assoc_zero(ray_north(board, i), 0, 0);
        }
        while j < 56 && !blocked
            invariant
                j < 64,
                (!blocked && (j < 56)) ==> ray_north(board, i) == north | ray_north(board, j),
                (blocked || !(j < 56)) ==> ray_north(board, i) == north,
            decreases 64 - j,
        {
            j = j + 8;
            let n = 1u64 << j;
            proof {
                crate::square::lemma_or_assoc_zero(north, n, ray_north(board, j));
            }
            north = north | n;
            if n & board != 0 {
                blocked = true;
            }
        }

        let mut south: u64 = 0;
        let mut j = i;
        let mut blocked = false;
        proof {
            crate::square::lemma_or_assoc_zero(ray_south(board, i), 0, 0);
        }
        while j >= 8 && !blocked
            invariant
                j < 64,
                (!blocked && (j >= 8)) ==> ray_south(board, i) == south | ray_south(board, j),
                (blocked || !(j >= 8)) ==> ray_south(board, i) == south,
            decreases j,
        {
            j = j - 8;
            let n = 1u64 << j;
            proof {
                crate::square::lemma_or_assoc_zero(south, n, ray_south(board, j));
            }
            south = south | n;
            if n & board != 0 {
                blocked = true;
            }
        }

        let mut west: u64 = 0;
        let mut j = i;
        let mut blocked = false;
        proof {
            crate::square::lemma_or_assoc_zero(ray_west(board, i), 0, 0);
        }
        while j % 8 != 0 && !blocked
            invariant
                j < 64,
                (!blocked && (j % 8 != 0)) ==> ray_west(board, i) == west | ray_west(board, j),
                (blocked || !(j % 8 != 0)) ==> ray_west(board, i) == west,
            decreases j,
        {
            j = j - 1;
            let n = 1u64 << j;
            proof {
                crate::square::lemma_or_assoc_zero(west, n, ray_west(board, j));
            }
            west = west | n;
            if n & board != 0 {
                blocked = true;
            }
        }

        let mut east: u64 = 0;
        let mut j = i;
        let mut blocked = false;
        proof {
            crate::square::lemma_or_assoc_zero(ray_east(board, i), 0, 0);
        }
        while j % 8 != 7 && !blocked
            invariant
                j < 64,
                (!blocked && (j % 8 != 7)) ==> ray_east(board, i) == east | ray_east(board, j),
                (blocked || !(j % 8 != 7)) ==> ray_east(board, i) == east,
            decreases 64 - j,
        {
            j = j + 1;
            let n = 1u64 << j;
            proof {
                crate::square::lemma_or_assoc_zero(east, n, ray_east(board, j));
            }
            east = east | n;
            if n & board != 0 {
                blocked = true;
            }
        }

        north | south | west | east
    }

    /// Generates the bishop destination mask for square `i` over occupancy
    /// `board`: the four diagonal rays, each walked outward to the first
    /// occupied square, included.
    pub fn generate_bishop_moves(&self, i: u64, board: u64) -> (r: u64)
        requires
            i < 64,
        ensures
            r == bishop_rays(board, i),
    {
        let mut nw: u64 = 0;
        let mut j = i;
        let mut blocked = false;
        proof {
            crate::square::lemma_or_assoc_zero(ray_north_west(board, i), 0, 0);
        }
        while j < 56 && j % 8 != 0 && !blocked
            invariant
                j < 64,
                (!blocked && (j < 56 && j % 8 != 0)) ==> ray_north_west(board, i) == nw | ray_north_west(board, j),
                (blocked || !(j < 56 && j % 8 != 0)) ==> ray_north_west(board, i) == nw,
            decreases 64 - j,
        {
            j = j + 7;
            let n = 1u64 << j;
            proof {
                crate::square::lemma_or_assoc_zero(nw, n, ray_north_west(board, j));
            }
            nw = nw | n;
            if n & board != 0 {
                blocked = true;
            }
        }

        let mut ne: u64 = 0;
        let mut j = i;
        let mut blocked = false;
        proof {
            crate::square::lemma_or_assoc_zero(ray_north_east(board, i), 0, 0);
        }
        while j < 56 && j % 8 != 7 && !blocked
            invariant
                j < 64,
                (!blocked && (j < 56 && j % 8 != 7)) ==> ray_north_east(board, i) == ne | ray_north_east(board, j),
                (blocked || !(j < 56 && j % 8 != 7)) ==> ray_north_east(board, i) == ne,
            decreases 64 - j,
        {
            j = j + 9;
            let n = 1u64 << j;
            proof {
                crate::square::lemma_or_assoc_zero(ne, n, ray_north_east(board, j));
            }
            ne = ne | n;
            if n & board != 0 {
                blocked = true;
            }
        }

        let mut sw: u64 = 0;
        let mut j = i;
        let mut blocked = false;
        proof {
            crate::square::lemma_or_assoc_zero(ray_south_west(board, i), 0, 0);
        }
        while j >= 8 && j % 8 != 0 && !blocked
            invariant
                j < 64,
                (!blocked && (j >= 8 && j % 8 != 0)) ==> ray_south_west(board, i) == sw | ray_south_west(board, j),
                (blocked || !(j >= 8 && j % 8 != 0)) ==> ray_south_west(board, i) == sw,
            decreases j,
        {
            j = j - 9;
            let n = 1u64 << j;
            proof {
                crate::square::lemma_or_assoc_zero(sw, n, ray_south_west(board, j));
            }
            sw = sw | n;
            if n & board != 0 {
                blocked = true;
            }
        }

        let mut se: u64 = 0;
        let mut j = i;
        let mut blocked = false;
        proof {
            crate::square::lemma_or_assoc_zero(ray_south_east(board, i), 0, 0);
        }
        while j >= 8 && j % 8 != 7 && !blocked
            invariant
                j < 64,
                (!blocked && (j >= 8 && j % 8 != 7)) ==> ray_south_east(board, i) == se | ray_south_east(board, j),
                (blocked || !(j >= 8 && j % 8 != 7)) ==> ray_south_east(board, i) == se,
            decreases j,
        {
            j = j - 7;
            let n = 1u64 << j;
            proof {
                crate::square::lemma_or_assoc_zero(se, n, ray_south_east(board, j));
            }
            se = se | n;
            if n & board != 0 {
                blocked = true;
            }
        }

        nw | ne | sw | se
    }

    /// Generates the queen destination mask for square `i` over occupancy
    /// `board`: rook and bishop rays together.
    pub fn generate_queen_moves(&self, i: u64, board: u64) -> (r: u64)
        requires
            i < 64,
        ensures
            r == (rook_rays(board, i) | bishop_rays(board, i)),
    {
        self.generate_rook_moves(i, board) | self.generate_bishop_moves(i, board)
    }

    /// The squares attacked by the attacking color's piece on square `i`,
    /// sliding attacks recomputed over `board` and sliders on `exclude`
    /// silenced.
    fn attack_from(&self, attacker: bool, board: u64, exclude: u64, i: u64) -> (r: u64)
        requires
            i < 64,
        ensures
            r == self.pos().attack_of_square(attacker, board, exclude, i),
    {
        let m = 1u64 << i;
        let abb = if attacker {
            self.white
        } else {
            self.black
        };
        if abb & m == 0 {
            0
        } else {
            match self.get_piece(m) {
                Piece::PAWN => {
                    if attacker {
                        (if m & FILE_A == 0 {
                            m << 7
                        } else {
                            0
                        }) | (if m & FILE_H == 0 {
                            m << 9
                        } else {
                            0
                        })
                    } else {
                        (if m & FILE_H == 0 {
                            m >> 7
                        } else {
                            0
                        }) | (if m & FILE_A == 0 {
                            m >> 9
                        } else {
                            0
                        })
                    }
                },
                Piece::KNIGHT => self.generate_knight_moves(m),
                Piece::KING => self.generate_king_moves(m),
                Piece::BISHOP => {
                    if m & exclude != 0 {
                        0
                    } else {
                        self.generate_bishop_moves(i, board)
                    }
                },
                Piece::ROOK => {
                    if m & exclude != 0 {
                        0
                    } else {
                        self.generate_rook_moves(i, board)
                    }
                },
                Piece::QUEEN => {
                    if m & exclude != 0 {
                        0
                    } else {
                        self.generate_queen_moves(i, board)
                    }
                },
                Piece::UNKNOWN => 0,
            }
        }
    }

    /// The full attack surface of the side opposed to `color` over
    /// occupancy `board`, sliders on `exclude` silenced.
    pub fn get_attack_mask(&self, color: bool, board: u64, exclude: u64) -> (r: u64)
        ensures
            r == self.pos().attack_mask(!color, board, exclude),
    {
        let attacker = !color;
        let mut acc: u64 = 0;
        let mut i: u64 = 0;
        while i < 64
            invariant
                i <= 64,
                acc == self.pos().attack_upto(attacker, board, exclude, i),
            decreases 64 - i,
        {
            let a = self.attack_from(attacker, board, exclude, i);
            acc = acc | a;
            i = i + 1;
        }
        acc
    }

    /// The pseudo-legal destination mask of square `i`: movement geometry
    /// and blocking only, king safety not yet applied.
    pub fn generate_pseudo_legal_moves(&self, i: u64) -> (r: u64)
        requires
            i < 64,
            self.pos().ep_ok(),
        ensures
            r == self.pos().pseudo_mask(i),
    {
        let m = 1u64 << i;
        let all = self.white | self.black;
        if all & m == 0 {
            0
        } else {
            let color = self.white & m != 0;
            let own = self.get_color(color);
            match self.get_piece(m) {
                Piece::PAWN => self.generate_pawn_moves(m),
                Piece::KNIGHT => self.generate_knight_moves(m) & !own,
                Piece::BISHOP => self.generate_bishop_moves(i, all) & !own,
                Piece::ROOK => self.generate_rook_moves(i, all) & !own,
                Piece::QUEEN => self.generate_queen_moves(i, all) & !own,
                Piece::KING => {
                    let castle: u64 = if color {
                        if self.turn {
                            (if self.castle_wk && all & WKS_EMPTY == 0 {
                                1u64 << 6
                            } else {
                                0
                            }) | (if self.castle_wq && all & WQS_EMPTY == 0 {
                                1u64 << 2
                            } else {
                                0
                            })
                        } else {
                            0
                        }
                    } else {
                        if !self.turn {
                            (if self.castle_bk && all & BKS_EMPTY == 0 {
                                1u64 << 62
                            } else {
                                0
                            }) | (if self.castle_bq && all & BQS_EMPTY == 0 {
                                1u64 << 58
                            } else {
                                0
                            })
                        } else {
                            0
                        }
                    };
                    (self.generate_king_moves(m) | castle) & !own
                },
                Piece::UNKNOWN => 0,
            }
        }
    }

    /// Whether the pseudo-legal step from `i` to `j` survives the legality
    /// filter.
    fn square_legal(&self, i: u64, j: u64) -> (r: bool)
        requires
            i < 64,
            j < 64,
            self.pos().ep_ok(),
        ensures
            r == self.pos().dest_legal(i, j),
    {
        let pmask = self.generate_pseudo_legal_moves(i);
        if pmask & (1u64 << j) == 0 {
            false
        } else {
            let mi = 1u64 << i;
            let mj = 1u64 << j;
            let board2 = ((self.white | self.black) & !mi) | mj;
            let enemy = self.get_color(!self.turn);
            let exclude = mj & enemy;
            let atk = self.get_attack_mask(self.turn, board2, exclude);
            if self.get_piece(mi) == Piece::KING {
                if self.turn {
                    if j == 6 {
                        atk & WKS_SAFE == 0
                    } else if j == 2 {
                        atk & WQS_SAFE == 0
                    } else {
                        atk & mj == 0
                    }
                } else {
                    if j == 62 {
                        atk & BKS_SAFE == 0
                    } else if j == 58 {
                        atk & BQS_SAFE == 0
                    } else {
                        atk & mj == 0
                    }
                }
            } else {
                atk & (self.kings & self.get_color(self.turn)) == 0
            }
        }
    }

    /// Rebuilds the legal-move table: for each square of the side to move,
    /// the pseudo-legal destinations that leave its king safe.  The
    /// position core, repetition record and history are untouched.
    fn generate_legal_moves(&mut self)
        requires
            old(self).pos().ep_ok(),
        ensures
            final(self).pos() == old(self).pos(),
            final(self).reps@ == old(self).reps@,
            final(self).history@ == old(self).history@,
            final(self).legal@.len() == 64,
            forall|i: u64|
                i < 64 ==> final(self).legal@[i as int] == final(self).pos().legal_mask(i),
    {
        let mut table: Vec<u64> = Vec::new();
        let mut i: u64 = 0;
        while i < 64
            invariant
                i <= 64,
                self.pos().ep_ok(),
                table@.len() == i,
                forall|k: u64| k < i ==> table@[k as int] == self.pos().legal_mask(k),
            decreases 64 - i,
        {
            let own = self.get_color(self.turn);
            let row: u64 = if own & (1u64 << i) == 0 {
                0
            } else {
                let mut acc: u64 = 0;
                let mut j: u64 = 0;
                while j < 64
                    invariant
                        i < 64,
                        j <= 64,
                        self.pos().ep_ok(),
                        acc == self.pos().legal_upto(i, j),
                    decreases 64 - j,
                {
                    let add: u64 = if self.square_legal(i, j) {
                        1u64 << j
                    } else {
                        0
                    };
                    acc = acc | add;
                    j = j + 1;
                }
                acc
            };
            table.push(row);
            i = i + 1;
        }
        self.legal = table;
    }

    /// Whether the side to move stands in check: its king lies in the
    /// opponent's attack surface over the present occupancy.
    pub fn is_checked(&self) -> (r: bool)
        ensures
            r == self.pos().checked(),
    {
        let king = self.kings & self.get_color(self.turn);
        let atk = self.get_attack_mask(self.turn, self.white | self.black, 0);
        atk & king != 0
    }

    /// Checkmate: the side to move is in check and has no legal move.
    pub fn is_mate(&self) -> (r: bool)
        requires
            self.wf(),
        ensures
            r == (self.pos().checked() && !self.pos().any_legal()),
    {
        self.is_checked() && !self.has_moves()
    }

    /// Stalemate: the side to move is not in check yet has no legal move.
    pub fn is_stalemate(&self) -> (r: bool)
        requires
            self.wf(),
        ensures
            r == (!self.pos().checked() && !self.pos().any_legal()),
    {
        !self.is_checked() && !self.has_moves()
    }

    /// The fifty-move rule: one hundred or more plies since the last pawn
    /// move or capture.
    pub fn is_fifty_moves(&self) -> (r: bool)
        ensures
            r == (self.pos().half_move >= 100),
    {
        self.half_move >= 100
    }

    /// Threefold repetition: some placement has occurred at least three
    /// times among the positions seen.
    pub fn is_threefold_repetition(&self) -> (r: bool)
        ensures
            r == has_threefold(self.reps_seq()),
    {
        let n = self.reps.len();
        let mut a: usize = 0;
        while a < n
            invariant
                n == self.reps@.len(),
                a <= n,
                forall|k: int| 0 <= k < a ==> count_matches(self.reps@, self.reps@[k], n as int)
                    < 3,
            decreases n - a,
        {
            let v = self.reps[a];
            let mut count: usize = 0;
            let mut b: usize = 0;
            while b < n
                invariant
                    n == self.reps@.len(),
                    a < n,
                    b <= n,
                    v == self.reps@[a as int],
                    count == count_matches(self.reps@, v, b as int),
                    count <= b,
                decreases n - b,
            {
                if self.reps[b] == v {
                    count = count + 1;
                }
                b = b + 1;
            }
            if count >= 3 {
                return true;
            }
            a = a + 1;
        }
        false
    }

    /// Whether any entry of the legal-move table is non-empty.
    fn has_moves(&self) -> (r: bool)
        requires
            self.wf(),
        ensures
            r == self.pos().any_legal(),
    {
        let mut i: usize = 0;
        while i < 64
            invariant
                self.wf(),
                i <= 64,
                forall|k: u64| k < i ==> self.pos().legal_mask(k) == 0,
            decreases 64 - i,
        {
            if self.legal[i] != 0 {
                proof {
                    assert(self.pos().legal_mask(i as u64) == self.legal@[i as int]);
                    assert(self.pos().any_legal());
                }
                return true;
            }
            i = i + 1;
        }
        false
    }

    /// The position core, as a value.
    fn current_pos(&self) -> (p: Pos)
        ensures
            p == self.pos(),
    {
        Pos {
            white: self.white,
            black: self.black,
            pawns: self.pawns,
            knights: self.knights,
            bishops: self.bishops,
            rooks: self.rooks,
            queens: self.queens,
            kings: self.kings,
            turn: self.turn,
            castle_wk: self.castle_wk,
            castle_wq: self.castle_wq,
            castle_bk: self.castle_bk,
            castle_bq: self.castle_bq,
            en_passant: self.en_passant,
            half_move: self.half_move,
            full_move: self.full_move,
        }
    }

    /// Whether square `i` of position `p` is consistent.
    fn check_square(p: &Pos, i: u64) -> (r: bool)
        requires
            i < 64,
        ensures
            r == p.sq_ok(i),
    {
        let m = 1u64 << i;
        let w = p.white & m != 0;
        let bl = p.black & m != 0;
        let count: u32 = (if p.pawns & m != 0 {
            1u32
        } else {
            0
        }) + (if p.knights & m != 0 {
            1u32
        } else {
            0
        }) + (if p.bishops & m != 0 {
            1u32
        } else {
            0
        }) + (if p.rooks & m != 0 {
            1u32
        } else {
            0
        }) + (if p.queens & m != 0 {
            1u32
        } else {
            0
        }) + (if p.kings & m != 0 {
            1u32
        } else {
            0
        });
        !(w && bl) && count <= 1 && ((w || bl) == (count == 1))
    }

    /// Builds a board over a decoded position core: the derived table is
    /// generated and the placement is recorded once for repetition counting.
    fn from_pos(p: Pos) -> (b: Chessboard)
        requires
            p.boards_ok(),
            p.ep_ok(),
        ensures
            b.wf(),
            b.pos() == p,
            b.history@ == Seq::<ChessMove>::empty(),
            b.reps_seq() == seq![p.placement()],
    {
        let mut reps: Vec<Placement> = Vec::new();
        reps.push(
            Placement {
                white: p.white,
                black: p.black,
                pawns: p.pawns,
                knights: p.knights,
                bishops: p.bishops,
                rooks: p.rooks,
                queens: p.queens,
                kings: p.kings,
            },
        );
        let mut b = Chessboard {
            white: p.white,
            black: p.black,
            pawns: p.pawns,
            knights: p.knights,
            bishops: p.bishops,
            rooks: p.rooks,
            queens: p.queens,
            kings: p.kings,
            turn: p.turn,
            castle_wk: p.castle_wk,
            castle_wq: p.castle_wq,
            castle_bk: p.castle_bk,
            castle_bq: p.castle_bq,
            en_passant: p.en_passant,
            half_move: p.half_move,
            full_move: p.full_move,
            legal: Vec::new(),
            reps,
            history: Vec::new(),
        };
        b.generate_legal_moves();
        proof {
            assert(b.reps_seq() =~= seq![p.placement()]);
        }
        b
    }

    /// A board holding the standard starting position, its legal-move
    /// table ready.
    pub fn new() -> (b: Chessboard)
        ensures
            b.wf(),
            b.pos() == start_pos(),
            b.history_seq() == Seq::<ChessMove>::empty(),
            b.reps_seq() == seq![start_pos().placement()],
    {
        proof {
            lemma_start_ok();
        }
        Self::from_pos(
            Pos {
                white: 0xFFFF,
                black: 0xFFFF000000000000,
                pawns: 0x00FF00000000FF00,
                knights: 0x4200000000000042,
                bishops: 0x2400000000000024,
                rooks: 0x8100000000000081,
                queens: 0x0800000000000008,
                kings: 0x1000000000000010,
                turn: true,
                castle_wk: true,
                castle_wq: true,
                castle_bk: true,
                castle_bq: true,
                en_passant: None,
                half_move: 0,
                full_move: 1,
            },
        )
    }

    /// A board holding the position a FEN string describes, as
    /// [`decode_fen`] reads it; a decoded core whose masks are inconsistent
    /// or whose en-passant target is out of range is rejected rather than
    /// held.
    pub fn from_fen(fen: &str) -> (r: Result<Chessboard, FenParseError>)
        ensures
            (match decode_fen(fen@) {
                Err(e) => r == Err::<Chessboard, FenParseError>(e),
                Ok(p) => {
                    if !p.boards_ok() {
                        r == Err::<Chessboard, FenParseError>(FenParseError::InvalidPlacement)
                    } else if !p.ep_ok() {
                        r == Err::<Chessboard, FenParseError>(FenParseError::InvalidEnPassant)
                    } else {
                        r is Ok && r->Ok_0.wf() && r->Ok_0.pos() == p
                            && r->Ok_0.history_seq() == Seq::<ChessMove>::empty()
                            && r->Ok_0.reps_seq() == seq![p.placement()]
                    }
                },
            }),
    {
        let p = match crate::fen::decode(fen) {
            Ok(p) => p,
            Err(e) => {
                return Err(e);
            },
        };
        let mut i: u64 = 0;
        while i < 64
            invariant
                i <= 64,
                decode_fen(fen@) == Ok::<Pos, FenParseError>(p),
                forall|k: u64| k < i ==> p.sq_ok(k),
            decreases 64 - i,
        {
            if !Self::check_square(&p, i) {
                proof {
                    assert(!p.sq_ok(i));
                    assert(!p.boards_ok());
                }
                return Err(FenParseError::InvalidPlacement);
            }
            i = i + 1;
        }
        match p.en_passant {
            Some(e) => {
                if e >= 64 {
                    return Err(FenParseError::InvalidEnPassant);
                }
            },
            None => {},
        }
        Ok(Self::from_pos(p))
    }


    /// Takes every piece off the squares of `m`.
    fn remove_square(&mut self, m: u64)
        ensures
            final(self).pos() == old(self).pos().remove_sq(m),
            final(self).legal@ == old(self).legal@,
            final(self).reps@ == old(self).reps@,
            final(self).history@ == old(self).history@,
    {
        self.white = self.white & !m;
        self.black = self.black & !m;
        self.pawns = self.pawns & !m;
        self.knights = self.knights & !m;
        self.bishops = self.bishops & !m;
        self.rooks = self.rooks & !m;
        self.queens = self.queens & !m;
        self.kings = self.kings & !m;
    }

    /// Puts piece `pc` of the given color onto the squares of `m`.
    fn add_piece_at(&mut self, pc: Piece, white: bool, m: u64)
        ensures
            final(self).pos() == old(self).pos().add_piece(pc, white, m),
            final(self).legal@ == old(self).legal@,
            final(self).reps@ == old(self).reps@,
            final(self).history@ == old(self).history@,
    {
        if pc == Piece::UNKNOWN {
        } else {
            match pc {
                Piece::PAWN => {
                    self.pawns = self.pawns | m;
                },
                Piece::KNIGHT => {
                    self.knights = self.knights | m;
                },
                Piece::BISHOP => {
                    self.bishops = self.bishops | m;
                },
                Piece::ROOK => {
                    self.rooks = self.rooks | m;
                },
                Piece::QUEEN => {
                    self.queens = self.queens | m;
                },
                Piece::KING => {
                    self.kings = self.kings | m;
                },
                Piece::UNKNOWN => {},
            }
            if white {
                self.white = self.white | m;
            } else {
                self.black = self.black | m;
            }
        }
    }

    /// The current placement, as a value.
    fn current_placement(&self) -> (r: Placement)
        ensures
            r == self.pos().placement(),
    {
        Placement {
            white: self.white,
            black: self.black,
            pawns: self.pawns,
            knights: self.knights,
            bishops: self.bishops,
            rooks: self.rooks,
            queens: self.queens,
            kings: self.kings,
        }
    }

    /// Searches the legal-move table for the first origin square matching
    /// the parsed move — right side, right piece kind, within the
    /// disambiguation mask — whose legal destinations meet the target mask,
    /// and for that origin's first such destination.
    fn search_move(&self, parsed: &SanMove) -> (r: Option<(u64, u64)>)
        requires
            self.wf(),
        ensures
            (match self.pos().find_origin(desc_of(*parsed), 0) {
                Some(ij) => r == Some::<(u64, u64)>((ij.0, ij.1)) && ij.0 < 64 && ij.1 < 64,
                None => r is None,
            }),
    {
        let ghost d = desc_of(*parsed);
        let own = self.get_color(self.turn);
        let mut i: u64 = 0;
        while i < 64
            invariant
                self.wf(),
                own == self.pos().color_bb(self.pos().turn),
                d == desc_of(*parsed),
                i <= 64,
                self.pos().find_origin(d, i) == self.pos().find_origin(d, 0),
            decreases 64 - i,
        {
            let mi = 1u64 << i;
            let matches = own & mi != 0 && self.get_piece(mi) == parsed.piece && (parsed.from == 0
                || mi & parsed.from != 0);
            proof {
                assert(matches == self.pos().origin_matches(d, i));
            }
            if matches {
                let row = self.legal[i as usize];
                proof {
                    assert(row == self.pos().legal_mask(i));
                }
                let mut j: u64 = 0;
                while j < 64
                    invariant
                        self.wf(),
                        d == desc_of(*parsed),
                        i < 64,
                        j <= 64,
                        row == self.pos().legal_mask(i),
                        self.pos().origin_matches(d, i),
                        self.pos().find_origin(d, i) == self.pos().find_origin(d, 0),
                        self.pos().find_dest(d, i, j) == self.pos().find_dest(d, i, 0),
                    decreases 64 - j,
                {
                    if row & (1u64 << j) != 0 && (1u64 << j) & parsed.to != 0 {
                        proof {
                            assert(self.pos().find_dest(d, i, j) == Some(j));
                            assert(self.pos().find_origin(d, i) == Some((i, j)));
                        }
                        return Some((i, j));
                    }
                    j = j + 1;
                }
                proof {
                    assert(self.pos().find_dest(d, i, 0) is None);
                    assert(self.pos().find_origin(d, i) == self.pos().find_origin(
                        d,
                        (i + 1) as u64,
                    ));
                }
            }
            i = i + 1;
        }
        None
    }


    /// Records the applied move and hands the turn over: the post-move FEN
    /// is written down, the placement joins the repetition record, the move
    /// joins the history, the side to move flips, and the legal-move table
    /// is regenerated.
    fn finish_move(&mut self, parsed: &SanMove, before: String, from_mask: u64, captured: Option<
        Piece,
    >)
        requires
            old(self).pos().ep_ok(),
            old(self).pos().boards_ok(),
        ensures
            final(self).wf(),
            final(self).pos() == (Pos { turn: !old(self).pos().turn, ..old(self).pos() }),
            final(self).reps_seq() == old(self).reps_seq().push(old(self).pos().placement()),
            final(self).history_seq().len() == old(self).history_seq().len() + 1,
            final(self).history_seq().subrange(0, old(self).history_seq().len() as int) == old(
                self,
            ).history_seq(),
            ({
                let m = final(self).history_seq().last();
                m.color == old(self).pos().turn && m.before == before && m.after@ == encode_fen(
                    old(self).pos(),
                ) && m.from == from_mask && m.to == parsed.to && m.piece == parsed.piece
                    && m.captured == captured && m.promotion == parsed.promotion && m.san
                    == parsed.san && m.castling == parsed.castling
            }),
    {
        let after = self.get_fen();
        let pl = self.current_placement();
        self.reps.push(pl);
        let t = self.turn;
        let record = ChessMove::new(parsed, t, before, after, from_mask, captured);
        self.history.push(record);
        self.turn = !t;
        proof {
            let q = self.pos();
            assert forall|k: u64| k < 64 implies q.sq_ok(k) by {
                assert(old(self).pos().sq_ok(k));
            }
        }
        self.generate_legal_moves();
        proof {
            assert(self.history@.subrange(0, old(self).history@.len() as int) =~= old(
                self,
            ).history@);
            assert(self.reps@ =~= old(self).reps@.push(old(self).pos().placement()));
            assert forall|k: u64| k < 64 implies self.pos().sq_ok(k) by {
                assert(old(self).pos().sq_ok(k));
            }
        }
    }

    /// Carries out a vetted castle: king and rook move in one step, the
    /// mover's rights go, the clocks advance, and the move is recorded.
    fn castle_transition(&mut self, parsed: &SanMove, kind: CastlingType, before: String)
        requires
            old(self).pos().boards_ok(),
            old(self).pos().half_move < u32::MAX,
            old(self).pos().full_move < u32::MAX,
        ensures
            final(self).wf(),
            final(self).pos() == old(self).pos().apply_castle(kind),
            final(self).reps_seq() == old(self).reps_seq().push(
                old(self).pos().apply_castle(kind).placement(),
            ),
            final(self).history_seq().len() == old(self).history_seq().len() + 1,
            final(self).history_seq().subrange(0, old(self).history_seq().len() as int) == old(
                self,
            ).history_seq(),
            ({
                let m = final(self).history_seq().last();
                m.color == old(self).pos().turn && m.before == before && m.after@ == encode_fen(
                    (Pos { turn: old(self).pos().turn, ..old(self).pos().apply_castle(kind) }),
                ) && m.from == (if old(self).pos().turn {
                    sq_bb(4)
                } else {
                    sq_bb(60)
                }) && m.to == parsed.to && m.piece == parsed.piece && m.captured
                    == None::<Piece> && m.promotion == parsed.promotion && m.san == parsed.san
                    && m.castling == parsed.castling
            }),
    {
        let ghost p0 = self.pos();
        let t = self.turn;
        let (ki, kd, ri, rd): (u64, u64, u64, u64) = if t {
            match kind {
                CastlingType::KingSide => (4, 6, 7, 5),
                CastlingType::QueenSide => (4, 2, 0, 3),
            }
        } else {
            match kind {
                CastlingType::KingSide => (60, 62, 63, 61),
                CastlingType::QueenSide => (60, 58, 56, 59),
            }
        };
        proof {
            assert((ki, kd, ri, rd) == Pos::castle_squares(p0.turn, kind));
        }
        self.remove_square(1u64 << ki);
        self.remove_square(1u64 << kd);
        self.remove_square(1u64 << ri);
        self.remove_square(1u64 << rd);
        self.add_piece_at(Piece::KING, t, 1u64 << kd);
        self.add_piece_at(Piece::ROOK, t, 1u64 << rd);
        proof {
            let q1 = p0.remove_sq(sq_bb(ki));
            let q2 = q1.remove_sq(sq_bb(kd));
            let q3 = q2.remove_sq(sq_bb(ri));
            let q4 = q3.remove_sq(sq_bb(rd));
            lemma_remove_sq_ok(p0, sq_bb(ki));
            lemma_remove_sq_ok(q1, sq_bb(kd));
            lemma_remove_sq_ok(q2, sq_bb(ri));
            lemma_remove_sq_ok(q3, sq_bb(rd));
            lemma_remove_sq_bits(p0, sq_bb(ki), kd);
            lemma_remove_sq_bits(q1, sq_bb(kd), kd);
            crate::square::lemma_sq_bb_has(kd, kd);
            lemma_remove_sq_bits(q2, sq_bb(ri), kd);
            lemma_remove_sq_bits(q3, sq_bb(rd), kd);
            assert(!bb_has(q4.white, kd) && !bb_has(q4.black, kd));
            lemma_add_piece_ok(q4, Piece::KING, t, kd);
            let q5 = q4.add_piece(Piece::KING, t, sq_bb(kd));
            lemma_remove_sq_bits(p0, sq_bb(ki), rd);
            lemma_remove_sq_bits(q1, sq_bb(kd), rd);
            lemma_remove_sq_bits(q2, sq_bb(ri), rd);
            lemma_remove_sq_bits(q3, sq_bb(rd), rd);
            crate::square::lemma_sq_bb_has(rd, rd);
            assert(!bb_has(q4.white, rd) && !bb_has(q4.black, rd));
            lemma_add_piece_bits(q4, Piece::KING, t, kd, rd);
            assert(!bb_has(q5.white, rd) && !bb_has(q5.black, rd));
            lemma_add_piece_ok(q5, Piece::ROOK, t, rd);
        }
        self.en_passant = None;
        self.half_move = self.half_move + 1;
        if !t {
            self.full_move = self.full_move + 1;
        }
        if t {
            self.castle_wk = false;
            self.castle_wq = false;
        } else {
            self.castle_bk = false;
            self.castle_bq = false;
        }
        proof {
            let q6 = p0.remove_sq(sq_bb(ki)).remove_sq(sq_bb(kd)).remove_sq(sq_bb(ri)).remove_sq(
                sq_bb(rd),
            ).add_piece(Piece::KING, t, sq_bb(kd)).add_piece(Piece::ROOK, t, sq_bb(rd));
            assert(self.pos() == (Pos { turn: t, ..p0.apply_castle(kind) }));
            assert forall|k: u64| k < 64 implies self.pos().sq_ok(k) by {
                assert(q6.sq_ok(k));
            }
            assert(self.pos().boards_ok());
        }
        self.finish_move(parsed, before, if t {
            1u64 << 4
        } else {
            1u64 << 60
        }, None);
        proof {
            assert(self.pos() == p0.apply_castle(kind));
            assert(self.reps_seq() =~= old(self).reps_seq().push(
                p0.apply_castle(kind).placement(),
            ));
        }
    }

    /// Carries out a resolved ordinary move, capture, en-passant capture or
    /// promotion from square `i` to square `j`, and records it.
    #[verifier::rlimit(100)]
    fn normal_transition(&mut self, parsed: &SanMove, i: u64, j: u64, before: String)
        requires
            old(self).pos().boards_ok(),
            old(self).pos().ep_ok(),
            old(self).pos().half_move < u32::MAX,
            old(self).pos().full_move < u32::MAX,
            i < 64,
            j < 64,
        ensures
            final(self).wf(),
            final(self).pos() == old(self).pos().apply_normal(desc_of(*parsed), i, j),
            final(self).reps_seq() == old(self).reps_seq().push(
                old(self).pos().apply_normal(desc_of(*parsed), i, j).placement(),
            ),
            final(self).history_seq().len() == old(self).history_seq().len() + 1,
            final(self).history_seq().subrange(0, old(self).history_seq().len() as int) == old(
                self,
            ).history_seq(),
            ({
                let m = final(self).history_seq().last();
                m.color == old(self).pos().turn && m.before == before && m.after@ == encode_fen(
                    (Pos {
                        turn: old(self).pos().turn,
                        ..old(self).pos().apply_normal(desc_of(*parsed), i, j)
                    }),
                ) && m.from == sq_bb(i) && m.to == parsed.to && m.piece == parsed.piece
                    && m.captured == old(self).pos().captured_at(j) && m.promotion
                    == parsed.promotion && m.san == parsed.san && m.castling == parsed.castling
            }),
    {
        let ghost p0 = self.pos();
        let ghost d = desc_of(*parsed);
        let mi = 1u64 << i;
        let mj = 1u64 << j;
        let mover = self.get_piece(mi);
        let t = self.turn;
        let enemy = self.get_color(!t);
        let capture = enemy & mj != 0;
        let captured: Option<Piece> = if capture {
            Some(self.get_piece(mj))
        } else {
            None
        };
        proof {
            assert(captured == p0.captured_at(j));
        }
        let is_ep = parsed.promotion.is_none() && mover == Piece::PAWN && (match self.en_passant {
            Some(e) => j == e,
            None => false,
        });
        proof {
            assert(is_ep == p0.is_ep_capture(d, i, j));
        }
        let bp = self.pawns & self.black;
        let wp = self.pawns & self.white;
        let new_ep: Option<u64> = if mover == Piece::PAWN {
            if t {
                if mi & RANK_2 != 0 && mj & RANK_4 != 0 && j >= 8 && ((mj & FILE_A == 0 && bp & (
                mj >> 1) != 0) || (mj & FILE_H == 0 && bp & (mj << 1) != 0)) {
                    Some(j - 8)
                } else {
                    None
                }
            } else {
                if mi & RANK_7 != 0 && mj & RANK_5 != 0 && j < 56 && ((mj & FILE_A == 0 && wp & (
                mj >> 1) != 0) || (mj & FILE_H == 0 && wp & (mj << 1) != 0)) {
                    Some(j + 8)
                } else {
                    None
                }
            }
        } else {
            None
        };
        proof {
            assert(new_ep == p0.new_ep_target(i, j));
        }
        let rook_gone = match captured {
            Some(Piece::ROOK) => true,
            _ => false,
        };
        let wk2 = self.castle_wk && !(t && (mover == Piece::KING || (mover == Piece::ROOK && i
            == 7))) && !(!t && rook_gone && j == 7);
        let wq2 = self.castle_wq && !(t && (mover == Piece::KING || (mover == Piece::ROOK && i
            == 0))) && !(!t && rook_gone && j == 0);
        let bk2 = self.castle_bk && !(!t && (mover == Piece::KING || (mover == Piece::ROOK && i
            == 63))) && !(t && rook_gone && j == 63);
        let bq2 = self.castle_bq && !(!t && (mover == Piece::KING || (mover == Piece::ROOK && i
            == 56))) && !(t && rook_gone && j == 56);
        proof {
            assert((wk2, wq2, bk2, bq2) == p0.rights_after(i, j));
        }
        let arriving = match parsed.promotion {
            Some(pp) => {
                if mover == Piece::PAWN {
                    pp
                } else {
                    mover
                }
            },
            None => mover,
        };
        let new_half: u32 = if capture || mover == Piece::PAWN {
            0
        } else {
            self.half_move + 1
        };
        let new_full: u32 = if !t {
            self.full_move + 1
        } else {
            self.full_move
        };
        self.remove_square(mi);
        self.remove_square(mj);
        if is_ep {
            let behind = if t {
                mj >> 8
            } else {
                mj << 8
            };
            self.remove_square(behind);
        }
        self.add_piece_at(arriving, t, mj);
        self.en_passant = new_ep;
        self.half_move = new_half;
        self.full_move = new_full;
        self.castle_wk = wk2;
        self.castle_wq = wq2;
        self.castle_bk = bk2;
        self.castle_bq = bq2;
        proof {
            let q1 = p0.remove_sq(sq_bb(i));
            let q2 = q1.remove_sq(sq_bb(j));
            let behind = if p0.turn {
                sq_bb(j) >> 8
            } else {
                sq_bb(j) << 8
            };
            let q3 = if p0.is_ep_capture(d, i, j) {
                q2.remove_sq(behind)
            } else {
                q2
            };
            lemma_remove_sq_ok(p0, sq_bb(i));
            lemma_remove_sq_ok(q1, sq_bb(j));
            lemma_remove_sq_ok(q2, behind);
            lemma_remove_sq_bits(p0, sq_bb(i), j);
            lemma_remove_sq_bits(q1, sq_bb(j), j);
            crate::square::lemma_sq_bb_has(j, j);
            lemma_remove_sq_bits(q2, behind, j);
            assert(!bb_has(q3.white, j) && !bb_has(q3.black, j));
            lemma_add_piece_ok(q3, arriving, p0.turn, j);
            let q4 = q3.add_piece(arriving, p0.turn, sq_bb(j));
            assert(self.pos() == (Pos { turn: t, ..p0.apply_normal(d, i, j) }));
            assert forall|k: u64| k < 64 implies self.pos().sq_ok(k) by {
                assert(q4.sq_ok(k));
            }
            assert(self.pos().boards_ok());
            assert(self.pos().ep_ok());
        }
        self.finish_move(parsed, before, mi, captured);
        proof {
            assert(self.pos() == p0.apply_normal(d, i, j));
            assert(self.reps_seq() =~= old(self).reps_seq().push(
                p0.apply_normal(d, i, j).placement(),
            ));
        }
    }

    /// Applies one move given in SAN.  The token is parsed, resolved
    /// against the position — castling first, then the first matching
    /// origin and destination in ascending square order — and either the
    /// whole update happens and the table is regenerated, or an error comes
    /// back and nothing changes.
    pub fn move_to(&mut self, san: &str) -> (r: Result<(), MoveError>)
        requires
            old(self).wf(),
            old(self).pos().half_move < u32::MAX,
            old(self).pos().full_move < u32::MAX,
        ensures
            (match parse_san(san@) {
                Err(e) => r == Err::<(), MoveError>(MoveError::Parse(e)) && *final(self) == *old(
                    self,
                ),
                Ok(d) => (match old(self).pos().resolve(d) {
                    None => r == Err::<(), MoveError>(MoveError::Illegal) && *final(self) == *old(
                        self,
                    ),
                    Some(res) => ({
                        let newp = old(self).pos().apply_move(d, res);
                        r == Ok::<(), MoveError>(()) && final(self).wf() && final(self).pos()
                            == newp && final(self).reps_seq() == old(self).reps_seq().push(
                            newp.placement(),
                        ) && final(self).history_seq().len() == old(self).history_seq().len() + 1
                            && final(self).history_seq().subrange(
                            0,
                            old(self).history_seq().len() as int,
                        ) == old(self).history_seq() && record_ok(
                            final(self).history_seq().last(),
                            old(self).pos(),
                            (Pos { turn: old(self).pos().turn, ..newp }),
                            d,
                            san@,
                            old(self).pos().from_mask_of(res),
                            old(self).pos().captured_of(res),
                        )
                    }),
                }),
            }),
    {
        let parsed = match SanMove::parse(san) {
            Ok(v) => v,
            Err(e) => {
                return Err(MoveError::Parse(e));
            },
        };
        let ghost d = parse_san(san@)->Ok_0;
        proof {
            assert(desc_of(parsed) == d);
        }
        let ghost p0 = self.pos();
        let before = self.get_fen();

        let trigger = parsed.castling.is_some() || (parsed.piece == Piece::KING && ((self.turn
            && ((self.castle_wk && parsed.to & (1u64 << 6) != 0) || (self.castle_wq && parsed.to
            & (1u64 << 2) != 0))) || (!self.turn && ((self.castle_bk && parsed.to & (1u64 << 62)
            != 0) || (self.castle_bq && parsed.to & (1u64 << 58) != 0)))));
        proof {
            assert(trigger == p0.castle_trigger(d));
        }
        if trigger {
            let kind = match parsed.castling {
                Some(k) => k,
                None => {
                    if parsed.to & ((1u64 << 6) | (1u64 << 62)) != 0 {
                        CastlingType::KingSide
                    } else {
                        CastlingType::QueenSide
                    }
                },
            };
            proof {
                assert(kind == Pos::castle_kind(d));
            }
            let ki: u64 = if self.turn {
                4
            } else {
                60
            };
            let kd: u64 = if self.turn {
                match kind {
                    CastlingType::KingSide => 6,
                    CastlingType::QueenSide => 2,
                }
            } else {
                match kind {
                    CastlingType::KingSide => 62,
                    CastlingType::QueenSide => 58,
                }
            };
            let row = self.legal[ki as usize];
            proof {
                assert(row == p0.legal_mask(ki));
            }
            if row & (1u64 << kd) == 0 {
                proof {
                    assert(!p0.castle_legal(kind));
                    assert(p0.resolve(d) is None);
                }
                return Err(MoveError::Illegal);
            }
            proof {
                assert(p0.castle_legal(kind));
                assert(p0.resolve(d) == Some(Resolution::Castle(kind)));
            }
            self.castle_transition(&parsed, kind, before);
            Ok(())
        } else {
            match self.search_move(&parsed) {
                None => {
                    proof {
                        assert(p0.resolve(d) is None);
                    }
                    Err(MoveError::Illegal)
                },
                Some(ij) => {
                    let (i, j) = ij;
                    proof {
                        assert(p0.resolve(d) == Some(Resolution::Normal(i, j)));
                    }
                    self.normal_transition(&parsed, i, j, before);
                    Ok(())
                },
            }
        }
    }


    /// The one-character prefix string of a piece kind.
    fn prefix_str(p: Piece) -> (r: &'static str)
        ensures
            r@ == Pos::piece_prefix(p),
    {
        proof {
            reveal_strlit("K");
            reveal_strlit("Q");
            reveal_strlit("R");
            reveal_strlit("B");
            reveal_strlit("N");
            reveal_strlit("");
            assert("K"@ =~= seq!['K']);
            assert("Q"@ =~= seq!['Q']);
            assert("R"@ =~= seq!['R']);
            assert("B"@ =~= seq!['B']);
            assert("N"@ =~= seq!['N']);
            assert(""@ =~= Seq::<char>::empty());
        }
        match p {
            Piece::KING => "K",
            Piece::QUEEN => "Q",
            Piece::ROOK => "R",
            Piece::BISHOP => "B",
            Piece::KNIGHT => "N",
            _ => "",
        }
    }

    /// The legal moves of the current position as SAN-like strings — the
    /// mover's letter and the destination square — listed by ascending
    /// origin square, then ascending destination square.  The listing is a
    /// pure function of the position: asked twice without an intervening
    /// move, it returns the same sequence.
    pub fn legal_moves(&self) -> (r: Vec<String>)
        requires
            self.wf(),
        ensures
            r@.len() == self.pos().all_move_strs(0).len(),
            forall|k: int| 0 <= k < r@.len() ==> #[trigger] r@[k]@ == self.pos().all_move_strs(0)[k],
    {
        let ghost p = self.pos();
        let mut out: Vec<String> = Vec::new();
        let ghost mut built: Seq<Seq<char>> = Seq::empty();
        let mut i: u64 = 0;
        proof {
            assert(Seq::<Seq<char>>::empty() + p.all_move_strs(0) =~= p.all_move_strs(0));
        }
        while i < 64
            invariant
                self.wf(),
                p == self.pos(),
                i <= 64,
                built.len() == out@.len(),
                forall|k: int| 0 <= k < out@.len() ==> #[trigger] out@[k]@ == built[k],
                p.all_move_strs(0) == built + p.all_move_strs(i),
            decreases 64 - i,
        {
            let row = self.legal[i as usize];
            proof {
                assert(row == p.legal_mask(i));
                assert(p.all_move_strs(i) == p.dest_strs(i, 0) + p.all_move_strs((i + 1) as u64));
                assert(built + (p.dest_strs(i, 0) + p.all_move_strs((i + 1) as u64)) =~= (built
                    + p.dest_strs(i, 0)) + p.all_move_strs((i + 1) as u64));
            }
            let pc = self.get_piece(1u64 << i);
            let prefix = Self::prefix_str(pc);
            let mut j: u64 = 0;
            while j < 64
                invariant
                    self.wf(),
                    p == self.pos(),
                    i < 64,
                    j <= 64,
                    row == p.legal_mask(i),
                    prefix@ == Pos::piece_prefix(p.piece_at(sq_bb(i))),
                    built.len() == out@.len(),
                    forall|k: int|
                        0 <= k < out@.len() ==> #[trigger] out@[k]@ == built[k],
                    p.all_move_strs(0) == (built + p.dest_strs(i, j)) + p.all_move_strs(
                        (i + 1) as u64,
                    ),
                decreases 64 - j,
            {
                proof {
                    assert(p.dest_strs(i, j) == (if bb_has(p.legal_mask(i), j) {
                        seq![p.move_str(i, j)]
                    } else {
                        Seq::<Seq<char>>::empty()
                    }) + p.dest_strs(i, (j + 1) as u64));
                }
                if row & (1u64 << j) != 0 {
                    let name = crate::square::square_name(j);
                    let text = String::from_str(prefix).concat(name.as_str());
                    proof {
                        assert(text@ == p.move_str(i, j));
                        assert((built + (seq![p.move_str(i, j)] + p.dest_strs(i, (j + 1) as u64)))
                            =~= (built.push(text@) + p.dest_strs(i, (j + 1) as u64)));
                    }
                    out.push(text);
                    proof {
                        built = built.push(out@[out@.len() - 1]@);
                    }
                } else {
                    proof {
                        assert(built + (Seq::<Seq<char>>::empty() + p.dest_strs(
                            i,
                            (j + 1) as u64,
                        )) =~= built + p.dest_strs(i, (j + 1) as u64));
                    }
                }
                j = j + 1;
            }
            proof {
                assert(p.dest_strs(i, 64) =~= Seq::<Seq<char>>::empty());
                assert((built + Seq::<Seq<char>>::empty()) + p.all_move_strs((i + 1) as u64)
                    =~= built + p.all_move_strs((i + 1) as u64));
            }
            i = i + 1;
        }
        proof {
            assert(p.all_move_strs(64) =~= Seq::<Seq<char>>::empty());
            assert(built + Seq::<Seq<char>>::empty() =~= built);
        }
        out
    }

    /// The board drawn as text: eight lines, the top rank first, a piece
    /// letter or a dot per square.
    pub fn ascii(&self) -> (r: String)
        ensures
            r@ == self.pos().ascii_board(0),
    {
        let ghost p = self.pos();
        let mut out = String::new();
        let mut rk: u64 = 0;
        proof {
            assert(Seq::<char>::empty() + p.ascii_board(0) =~= p.ascii_board(0));
        }
        while rk < 8
            invariant
                p == self.pos(),
                rk <= 8,
                p.ascii_board(0) == out@ + p.ascii_board(rk),
            decreases 8 - rk,
        {
            let base: u64 = 56 - rk * 8;
            proof {
                assert(p.ascii_board(rk) == p.ascii_rank(base, 0) + p.ascii_board((rk + 1) as u64));
            }
            let mut file: u64 = 0;
            while file < 8
                invariant
                    p == self.pos(),
                    rk < 8,
                    base == 56 - rk * 8,
                    file <= 8,
                    p.ascii_board(0) == (out@ + p.ascii_rank(base, file)) + p.ascii_board(
                        (rk + 1) as u64,
                    ),
                decreases 8 - file,
            {
                let m = 1u64 << (base + file);
                let piece_here = self.get_piece(m);
                let s: &'static str = if (self.white | self.black) & m == 0 {
                    proof {
                        reveal_strlit(".");
                        assert("."@ =~= seq!['.']);
                    }
                    "."
                } else {
                    let white_here = self.white & m != 0;
                    crate::fen::piece_letter_str(piece_here, white_here)
                };
                proof {
                    assert(s@ =~= seq![p.ascii_char((base + file) as u64)]);
                    assert(p.ascii_rank(base, file) == seq![p.ascii_char((base + file) as u64)]
                        + p.ascii_rank(base, (file + 1) as u64));
                    assert((out@ + (seq![p.ascii_char((base + file) as u64)] + p.ascii_rank(
                        base,
                        (file + 1) as u64,
                    ))) =~= ((out@ + s@) + p.ascii_rank(base, (file + 1) as u64)));
                }
                out.append(s);
                file = file + 1;
            }
            proof {
                reveal_strlit("\n");
                assert("\n"@ =~= seq!['\n']);
                assert(p.ascii_rank(base, 8) == seq!['\n']);
                assert((out@ + seq!['\n']) + p.ascii_board((rk + 1) as u64) =~= (out@ + "\n"@)
                    + p.ascii_board((rk + 1) as u64));
            }
            out.append("\n");
            rk = rk + 1;
        }
        proof {
            assert(p.ascii_board(8) =~= Seq::<char>::empty());
            assert(out@ + Seq::<char>::empty() =~= out@);
        }
        out
    }



    /// True while it is White's turn.
    pub fn side_to_move(&self) -> (r: bool)
        ensures
            r == self.pos().turn,
    {
        self.turn
    }

    /// The legal-move table's entry for square `i`: the mask of that
    /// square's legal destinations.
    pub fn legal_mask(&self, i: u64) -> (r: u64)
        requires
            self.wf(),
            i < 64,
        ensures
            r == self.pos().legal_mask(i),
    {
        self.legal[i as usize]
    }

    /// The single-square masks of a bitboard's squares, in ascending order.
    pub fn get_squares(bitboard: u64) -> (r: Vec<u64>)
        ensures
            r@ == squares_of(bitboard, 0),
    {
        let mut out: Vec<u64> = Vec::new();
        let mut i: u64 = 0;
        proof {
            assert(Seq::<u64>::empty() + squares_of(bitboard, 0) =~= squares_of(bitboard, 0));
        }
        while i < 64
            invariant
                i <= 64,
                squares_of(bitboard, 0) == out@ + squares_of(bitboard, i),
            decreases 64 - i,
        {
            proof {
                assert(squares_of(bitboard, i) == (if bb_has(bitboard, i) {
                    seq![sq_bb(i)]
                } else {
                    Seq::<u64>::empty()
                }) + squares_of(bitboard, (i + 1) as u64));
            }
            if bitboard & (1u64 << i) != 0 {
                proof {
                    assert(out@ + (seq![sq_bb(i)] + squares_of(bitboard, (i + 1) as u64))
                        =~= out@.push(sq_bb(i)) + squares_of(bitboard, (i + 1) as u64));
                }
                out.push(1u64 << i);
            } else {
                proof {
                    assert(out@ + (Seq::<u64>::empty() + squares_of(bitboard, (i + 1) as u64))
                        =~= out@ + squares_of(bitboard, (i + 1) as u64));
                }
            }
            i = i + 1;
        }
        proof {
            assert(squares_of(bitboard, 64) =~= Seq::<u64>::empty());
            assert(out@ + Seq::<u64>::empty() =~= out@);
        }
        out
    }

    /// The FEN string of the position now held, exactly as [`encode_fen`]
    /// writes it.
    pub fn get_fen(&self) -> (r: String)
        requires
            self.pos().ep_ok(),
        ensures
            r@ == encode_fen(self.pos()),
    {
        let p = self.current_pos();
        crate::fen::encode(&p)
    }
}

/// The half-move clock law: applying a pawn move or a capture resets the
/// clock to zero, and any other move advances it by one.
pub proof fn lemma_half_move_clock(p: Pos, d: SanDesc, i: u64, j: u64)
    ensures
        (p.captured_at(j) is Some || p.piece_at(sq_bb(i)) == Piece::PAWN) ==> p.apply_normal(
            d,
            i,
            j,
        ).half_move == 0,
        !(p.captured_at(j) is Some || p.piece_at(sq_bb(i)) == Piece::PAWN) ==> p.apply_normal(
            d,
            i,
            j,
        ).half_move == ((p.half_move + 1) as u32),
{
}

/// The legal-move listing is a pure function of the position: two boards
/// holding the same position core list exactly the same move texts, so
/// querying the listing twice without an intervening move returns the same
/// sequence.
pub proof fn lemma_legal_moves_repeatable(a: Chessboard, b: Chessboard)
    requires
        a.pos() == b.pos(),
    ensures
        a.pos().all_move_strs(0) == b.pos().all_move_strs(0),
{
}


} // verus!
