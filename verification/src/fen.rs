//! Forsyth-Edwards Notation.
//!
//! A FEN string carries six space-separated fields: the piece placement
//! (eight `/`-separated ranks, digits standing for runs of empty files), the
//! side to move, the castling rights, the en-passant target, the half-move
//! clock and the full-move number.  [`decode_fen`] and [`encode_fen`] state
//! both directions over character sequences; the executable codec is proved
//! to match them, and [`lemma_fen_round_trip`] shows that decoding what a
//! consistent position encodes gives that position back.

use vstd::prelude::*;

use crate::board::{Placement, Pos};
use crate::piece::Piece;
use crate::san::{file_index, is_file_letter, is_rank_digit, rank_index};
use crate::square::{bb_has, file_char, rank_char, sq_bb, square_name_seq};

verus! {

/// Why a FEN string was rejected.
#[derive(Debug, Clone, Copy, PartialEq, Eq, Structural)]
pub enum FenParseError {
    /// Not eight ranks, or not exactly five fields after them.
    WrongFieldCount,
    /// A rank that does not span eight files, or a character that is neither
    /// a piece letter nor an empty-file digit.
    InvalidPlacement,
    /// A clock or move-number field that is not a plain decimal number that
    /// fits the counter.
    InvalidNumber,
    /// An en-passant field that is neither `-` nor a square name.
    InvalidEnPassant,
}

/// The placement with no piece on any square.
pub open spec fn empty_placement() -> Placement {
    Placement {
        white: 0,
        black: 0,
        pawns: 0,
        knights: 0,
        bishops: 0,
        rooks: 0,
        queens: 0,
        kings: 0,
    }
}

/// The piece kind and color a placement letter names.
pub open spec fn piece_of_char(c: char) -> Option<(Piece, bool)> {
    if c == 'P' {
        Some((Piece::PAWN, true))
    } else if c == 'p' {
        Some((Piece::PAWN, false))
    } else if c == 'N' {
        Some((Piece::KNIGHT, true))
    } else if c == 'n' {
        Some((Piece::KNIGHT, false))
    } else if c == 'B' {
        Some((Piece::BISHOP, true))
    } else if c == 'b' {
        Some((Piece::BISHOP, false))
    } else if c == 'R' {
        Some((Piece::ROOK, true))
    } else if c == 'r' {
        Some((Piece::ROOK, false))
    } else if c == 'Q' {
        Some((Piece::QUEEN, true))
    } else if c == 'q' {
        Some((Piece::QUEEN, false))
    } else if c == 'K' {
        Some((Piece::KING, true))
    } else if c == 'k' {
        Some((Piece::KING, false))
    } else {
        None
    }
}

/// The placement with piece `p` of the given color added on square `i`.
pub open spec fn place(b: Placement, p: Piece, white: bool, i: u64) -> Placement {
    let m = sq_bb(i);
    let b1 = match p {
        Piece::PAWN => Placement { pawns: b.pawns | m, ..b },
        Piece::KNIGHT => Placement { knights: b.knights | m, ..b },
        Piece::BISHOP => Placement { bishops: b.bishops | m, ..b },
        Piece::ROOK => Placement { rooks: b.rooks | m, ..b },
        Piece::QUEEN => Placement { queens: b.queens | m, ..b },
        Piece::KING => Placement { kings: b.kings | m, ..b },
        Piece::UNKNOWN => b,
    };
    if white {
        Placement { white: b1.white | m, ..b1 }
    } else {
        Placement { black: b1.black | m, ..b1 }
    }
}

/// One rank of the placement field, read left to right from file counter
/// `file`: digits skip empty files, letters place pieces at `base + file`,
/// and the rank ends at `/`, at a space or at the end of the text, where the
/// files crossed must total exactly eight.  Returns the grown placement and
/// the unconsumed remainder.
pub open spec fn parse_rank(s: Seq<char>, base: u64, file: u64, b: Placement) -> Result<
    (Placement, Seq<char>),
    FenParseError,
>
    decreases s.len(),
{
    if s.len() == 0 || s[0] == '/' || s[0] == ' ' {
        if file == 8 {
            Ok((b, s))
        } else {
            Err(FenParseError::InvalidPlacement)
        }
    } else {
        let c = s[0];
        if is_rank_digit(c) {
            let file2 = file + rank_index(c) + 1;
            if file2 > 8 {
                Err(FenParseError::InvalidPlacement)
            } else {
                parse_rank(s.subrange(1, s.len() as int), base, (file2) as u64, b)
            }
        } else {
            match piece_of_char(c) {
                Some((p, white)) => {
                    if file >= 8 {
                        Err(FenParseError::InvalidPlacement)
                    } else {
                        parse_rank(
                            s.subrange(1, s.len() as int),
                            base,
                            (file + 1) as u64,
                            place(b, p, white, (base + file) as u64),
                        )
                    }
                },
                None => Err(FenParseError::InvalidPlacement),
            }
        }
    }
}

/// The eight ranks of the placement field, top rank first, separated by `/`.
pub open spec fn parse_ranks(s: Seq<char>, r: u64, b: Placement) -> Result<
    (Placement, Seq<char>),
    FenParseError,
>
    decreases 8 - r,
{
    if r >= 8 {
        Ok((b, s))
    } else {
        match parse_rank(s, (56 - r * 8) as u64, 0, b) {
            Err(e) => Err(e),
            Ok((b2, s2)) => {
                if r == 7 {
                    Ok((b2, s2))
                } else {
                    if s2.len() > 0 && s2[0] == '/' {
                        parse_ranks(s2.subrange(1, s2.len() as int), (r + 1) as u64, b2)
                    } else {
                        Err(FenParseError::WrongFieldCount)
                    }
                }
            },
        }
    }
}

/// The text up to the first space, and the remainder from that space on.
pub open spec fn take_token(s: Seq<char>) -> (Seq<char>, Seq<char>)
    decreases s.len(),
{
    if s.len() == 0 || s[0] == ' ' {
        (Seq::empty(), s)
    } else {
        let (t, r) = take_token(s.subrange(1, s.len() as int));
        (seq![s[0]] + t, r)
    }
}

/// The remainder after one mandatory space.
pub open spec fn expect_space(s: Seq<char>) -> Result<Seq<char>, FenParseError> {
    if s.len() > 0 && s[0] == ' ' {
        Ok(s.subrange(1, s.len() as int))
    } else {
        Err(FenParseError::WrongFieldCount)
    }
}

/// Whether `c` occurs in `t`.
pub open spec fn has_char(t: Seq<char>, c: char) -> bool {
    exists|m: int| 0 <= m < t.len() && t[m] == c
}

/// A decimal digit's value.
pub open spec fn digit_val(c: char) -> int {
    if c == '0' {
        0
    } else if c == '1' {
        1
    } else if c == '2' {
        2
    } else if c == '3' {
        3
    } else if c == '4' {
        4
    } else if c == '5' {
        5
    } else if c == '6' {
        6
    } else if c == '7' {
        7
    } else if c == '8' {
        8
    } else {
        9
    }
}

/// Decimal digits `0`..`9`.
pub open spec fn is_digit(c: char) -> bool {
    c == '0' || c == '1' || c == '2' || c == '3' || c == '4' || c == '5' || c == '6' || c == '7'
        || c == '8' || c == '9'
}

/// The number the digit string `t` denotes, most significant digit first.
pub open spec fn dec_val(t: Seq<char>) -> int
    decreases t.len(),
{
    if t.len() == 0 {
        0
    } else {
        dec_val(t.subrange(0, t.len() - 1)) * 10 + digit_val(t[t.len() - 1])
    }
}

/// Whether every character of `t` is a decimal digit.
pub open spec fn all_digits(t: Seq<char>) -> bool {
    forall|m: int| 0 <= m < t.len() ==> is_digit(t[m])
}

/// A clock field: a non-empty digit string whose value fits the counter.
pub open spec fn parse_u32(t: Seq<char>) -> Result<u32, FenParseError> {
    if t.len() > 0 && all_digits(t) && dec_val(t) <= u32::MAX {
        Ok(dec_val(t) as u32)
    } else {
        Err(FenParseError::InvalidNumber)
    }
}

/// The en-passant field: `-` for none, else a square name.
pub open spec fn parse_ep(t: Seq<char>) -> Result<Option<u64>, FenParseError> {
    if t =~= seq!['-'] {
        Ok(None)
    } else if t.len() == 2 && is_file_letter(t[0]) && is_rank_digit(t[1]) {
        Ok(Some((file_index(t[0]) + 8 * rank_index(t[1])) as u64))
    } else {
        Err(FenParseError::InvalidEnPassant)
    }
}

/// What the five fields after the placement decode to, over an
/// already-decoded placement `b`: the side to move is White exactly on the
/// field `w`; the castling field grants each right whose letter occurs in
/// it.
pub open spec fn decode_fields(b: Placement, s2: Seq<char>) -> Result<Pos, FenParseError> {
    let (t_turn, s3) = take_token(s2);
    match expect_space(s3) {
        Err(e) => Err(e),
        Ok(s4) => {
            let (t_castle, s5) = take_token(s4);
            match expect_space(s5) {
                Err(e) => Err(e),
                Ok(s6) => {
                    let (t_ep, s7) = take_token(s6);
                    match parse_ep(t_ep) {
                        Err(e) => Err(e),
                        Ok(ep) => match expect_space(s7) {
                            Err(e) => Err(e),
                            Ok(s8) => {
                                let (t_half, s9) = take_token(s8);
                                match parse_u32(t_half) {
                                    Err(e) => Err(e),
                                    Ok(half) => match expect_space(s9) {
                                        Err(e) => Err(e),
                                        Ok(s10) => {
                                            let (t_full, s11) = take_token(s10);
                                            match parse_u32(t_full) {
                                                Err(e) => Err(e),
                                                Ok(full) => {
                                                    if s11.len() != 0 {
                                                        Err(FenParseError::WrongFieldCount)
                                                    } else {
                                                        Ok(
                                                            Pos {
                                                                white: b.white,
                                                                black: b.black,
                                                                pawns: b.pawns,
                                                                knights: b.knights,
                                                                bishops: b.bishops,
                                                                rooks: b.rooks,
                                                                queens: b.queens,
                                                                kings: b.kings,
                                                                turn: t_turn =~= seq!['w'],
                                                                castle_wk: has_char(t_castle, 'K'),
                                                                castle_wq: has_char(t_castle, 'Q'),
                                                                castle_bk: has_char(t_castle, 'k'),
                                                                castle_bq: has_char(t_castle, 'q'),
                                                                en_passant: ep,
                                                                half_move: half,
                                                                full_move: full,
                                                            },
                                                        )
                                                    }
                                                },
                                            }
                                        },
                                    },
                                }
                            },
                        },
                    }
                },
            }
        },
    }
}

/// What decoding a FEN character sequence yields: the position core, or the
/// first error found.
pub open spec fn decode_fen(s: Seq<char>) -> Result<Pos, FenParseError> {
    match parse_ranks(s, 0, empty_placement()) {
        Err(e) => Err(e),
        Ok((b, s1)) => match expect_space(s1) {
            Err(e) => Err(e),
            Ok(s2) => decode_fields(b, s2),
        },
    }
}

/// The number a digit string denotes is never negative.
proof fn lemma_dec_val_nonneg(t: Seq<char>)
    ensures
        dec_val(t) >= 0,
    decreases t.len(),
{
    if t.len() > 0 {
        lemma_dec_val_nonneg(t.subrange(0, t.len() - 1));
    }
}

/// A prefix of a digit string denotes at most what the whole denotes.
proof fn lemma_dec_val_prefix(t: Seq<char>, j: int)
    requires
        0 <= j <= t.len(),
    ensures
        dec_val(t.subrange(0, j)) <= dec_val(t),
    decreases t.len() - j,
{
    if j == t.len() {
        assert(t.subrange(0, j) =~= t);
    } else {
        lemma_dec_val_prefix(t, j + 1);
        let u = t.subrange(0, j + 1);
        lemma_dec_val_nonneg(u.subrange(0, u.len() - 1));
        assert(u.subrange(0, u.len() - 1) =~= t.subrange(0, j));
    }
}

/// Where the first space of `t` stands at `d`, the token split takes the
/// text before it and leaves the rest.
proof fn lemma_take_token_split(t: Seq<char>, d: int)
    requires
        0 <= d <= t.len(),
        forall|m: int| 0 <= m < d ==> t[m] != ' ',
        d == t.len() || t[d] == ' ',
    ensures
        take_token(t) == (t.subrange(0, d), t.subrange(d, t.len() as int)),
    decreases d,
{
    if d == 0 {
        assert(t.subrange(0, 0) =~= Seq::<char>::empty());
        assert(t.subrange(0, t.len() as int) =~= t);
    } else {
        let t1 = t.subrange(1, t.len() as int);
        lemma_take_token_split(t1, d - 1);
        assert(seq![t[0]] + t1.subrange(0, d - 1) =~= t.subrange(0, d));
        assert(t1.subrange(d - 1, t1.len() as int) =~= t.subrange(d, t.len() as int));
    }
}

/// Adds piece `p` of the given color on square `i`.
fn place_piece(b: Placement, p: Piece, white: bool, i: u64) -> (r: Placement)
    requires
        i < 64,
    ensures
        r == place(b, p, white, i),
{
    let m = 1u64 << i;
    let mut b1 = b;
    match p {
        Piece::PAWN => {
            b1.pawns = b1.pawns | m;
        },
        Piece::KNIGHT => {
            b1.knights = b1.knights | m;
        },
        Piece::BISHOP => {
            b1.bishops = b1.bishops | m;
        },
        Piece::ROOK => {
            b1.rooks = b1.rooks | m;
        },
        Piece::QUEEN => {
            b1.queens = b1.queens | m;
        },
        Piece::KING => {
            b1.kings = b1.kings | m;
        },
        Piece::UNKNOWN => {},
    }
    if white {
        b1.white = b1.white | m;
    } else {
        b1.black = b1.black | m;
    }
    b1
}

/// Reads one placement rank starting at `i0`, as [`parse_rank`] describes,
/// and returns the grown placement with the index where the rank ended.
fn rank_exec(s: &str, i0: usize, base: u64, b0: Placement) -> (r: Result<
    (Placement, usize),
    FenParseError,
>)
    requires
        i0 <= s@.len(),
        base <= 56,
    ensures
        (match r {
            Ok(pr) => i0 <= pr.1 <= s@.len() && parse_rank(
                s@.subrange(i0 as int, s@.len() as int),
                base,
                0,
                b0,
            ) == Ok::<(Placement, Seq<char>), FenParseError>(
                (pr.0, s@.subrange(pr.1 as int, s@.len() as int)),
            ),
            Err(e) => parse_rank(s@.subrange(i0 as int, s@.len() as int), base, 0, b0) == Err::<
                (Placement, Seq<char>),
                FenParseError,
            >(e),
        }),
{
    let n = s.unicode_len();
    let mut i = i0;
    let mut file: u64 = 0;
    let mut b = b0;
    loop
        invariant
            n == s@.len(),
            i0 <= i <= n,
            file <= 8,
            base <= 56,
            parse_rank(s@.subrange(i0 as int, n as int), base, 0, b0) == parse_rank(
                s@.subrange(i as int, n as int),
                base,
                file,
                b,
            ),
        decreases n - i,
    {
        if i >= n {
            if file == 8 {
                return Ok((b, i));
            } else {
                return Err(FenParseError::InvalidPlacement);
            }
        }
        let c = s.get_char(i);
        proof {
            assert(s@.subrange(i as int, n as int)[0] == s@[i as int]);
            assert(s@.subrange(i as int, n as int).subrange(
                1,
                s@.subrange(i as int, n as int).len() as int,
            ) =~= s@.subrange(i as int + 1, n as int));
        }
        if c == '/' || c == ' ' {
            if file == 8 {
                return Ok((b, i));
            } else {
                return Err(FenParseError::InvalidPlacement);
            }
        }
        match c {
            '1' | '2' | '3' | '4' | '5' | '6' | '7' | '8' => {
                let d: u64 = match c {
                    '1' => 1,
                    '2' => 2,
                    '3' => 3,
                    '4' => 4,
                    '5' => 5,
                    '6' => 6,
                    '7' => 7,
                    _ => 8,
                };
                if file + d > 8 {
                    return Err(FenParseError::InvalidPlacement);
                }
                file = file + d;
                i = i + 1;
            },
            'P' | 'p' | 'N' | 'n' | 'B' | 'b' | 'R' | 'r' | 'Q' | 'q' | 'K' | 'k' => {
                if file >= 8 {
                    return Err(FenParseError::InvalidPlacement);
                }
                let p: Piece = match c {
                    'P' | 'p' => Piece::PAWN,
                    'N' | 'n' => Piece::KNIGHT,
                    'B' | 'b' => Piece::BISHOP,
                    'R' | 'r' => Piece::ROOK,
                    'Q' | 'q' => Piece::QUEEN,
                    _ => Piece::KING,
                };
                let white: bool = match c {
                    'P' | 'N' | 'B' | 'R' | 'Q' | 'K' => true,
                    _ => false,
                };
                b = place_piece(b, p, white, base + file);
                file = file + 1;
                i = i + 1;
            },
            _ => {
                return Err(FenParseError::InvalidPlacement);
            },
        }
    }
}

/// Finds the end of the token that starts at `i0`: the index of the next
/// space, or the end of the text.
fn token_end(s: &str, i0: usize) -> (k: usize)
    requires
        i0 <= s@.len(),
    ensures
        i0 <= k <= s@.len(),
        take_token(s@.subrange(i0 as int, s@.len() as int)) == (
            s@.subrange(i0 as int, k as int),
            s@.subrange(k as int, s@.len() as int),
        ),
{
    let n = s.unicode_len();
    let mut k = i0;
    while k < n && s.get_char(k) != ' '
        invariant
            n == s@.len(),
            i0 <= k <= n,
            forall|m: int| i0 <= m < k ==> s@[m] != ' ',
        decreases n - k,
    {
        k = k + 1;
    }
    proof {
        let t = s@.subrange(i0 as int, s@.len() as int);
        lemma_take_token_split(t, k - i0);
        assert(t.subrange(0, k - i0) =~= s@.subrange(i0 as int, k as int));
        assert(t.subrange(k - i0, t.len() as int) =~= s@.subrange(k as int, s@.len() as int));
    }
    k
}

/// Parses the clock field lying between `i0` and `k`.
fn number_exec(s: &str, i0: usize, k: usize) -> (r: Result<u32, FenParseError>)
    requires
        i0 <= k <= s@.len(),
    ensures
        (match parse_u32(s@.subrange(i0 as int, k as int)) {
            Ok(v) => r == Ok::<u32, FenParseError>(v),
            Err(e) => r == Err::<u32, FenParseError>(e),
        }),
{
    let ghost t = s@.subrange(i0 as int, k as int);
    if k == i0 {
        return Err(FenParseError::InvalidNumber);
    }
    let mut acc: u64 = 0;
    let mut m = i0;
    while m < k
        invariant
            i0 <= m <= k <= s@.len(),
            t == s@.subrange(i0 as int, k as int),
            all_digits(s@.subrange(i0 as int, m as int)),
            acc == dec_val(s@.subrange(i0 as int, m as int)),
            acc <= u32::MAX,
        decreases k - m,
    {
        let c = s.get_char(m);
        let d: u64 = match c {
            '0' => 0,
            '1' => 1,
            '2' => 2,
            '3' => 3,
            '4' => 4,
            '5' => 5,
            '6' => 6,
            '7' => 7,
            '8' => 8,
            '9' => 9,
            _ => {
                proof {
                    assert(t[m - i0] == s@[m as int]);
                    assert(!all_digits(t));
                }
                return Err(FenParseError::InvalidNumber);
            },
        };
        let acc2 = acc * 10 + d;
        proof {
            let u = s@.subrange(i0 as int, m as int + 1);
            assert(u.subrange(0, u.len() - 1) =~= s@.subrange(i0 as int, m as int));
            assert(u[u.len() - 1] == s@[m as int]);
            assert(dec_val(u) == acc * 10 + digit_val(s@[m as int]));
        }
        if acc2 > 0xFFFF_FFFFu64 {
            proof {
                lemma_dec_val_prefix(t, m - i0 + 1);
                assert(t.subrange(0, m - i0 + 1) =~= s@.subrange(i0 as int, m as int + 1));
            }
            return Err(FenParseError::InvalidNumber);
        }
        acc = acc2;
        m = m + 1;
        proof {
            assert(s@.subrange(i0 as int, m as int) =~= s@.subrange(i0 as int, (m - 1) as int
                + 1));
        }
    }
    proof {
        assert(s@.subrange(i0 as int, m as int) =~= t);
    }
    Ok(acc as u32)
}

/// Whether `c` occurs in the field lying between `i0` and `k`.
fn find_char(s: &str, i0: usize, k: usize, c: char) -> (r: bool)
    requires
        i0 <= k <= s@.len(),
    ensures
        r == has_char(s@.subrange(i0 as int, k as int), c),
{
    let ghost t = s@.subrange(i0 as int, k as int);
    let mut m = i0;
    while m < k
        invariant
            i0 <= m <= k <= s@.len(),
            t == s@.subrange(i0 as int, k as int),
            forall|q: int| i0 <= q < m ==> s@[q] != c,
        decreases k - m,
    {
        if s.get_char(m) == c {
            proof {
                assert(t[m - i0] == s@[m as int]);
            }
            return true;
        }
        m = m + 1;
    }
    proof {
        assert(forall|q: int| 0 <= q < t.len() ==> t[q] == s@[i0 + q]);
    }
    false
}

/// Decodes a FEN string into a position core, exactly as [`decode_fen`]
/// describes.
#[verifier::rlimit(80)]
pub fn decode(s: &str) -> (r: Result<Pos, FenParseError>)
    ensures
        (match decode_fen(s@) {
            Ok(p) => r == Ok::<Pos, FenParseError>(p),
            Err(e) => r == Err::<Pos, FenParseError>(e),
        }),
{
    let n = s.unicode_len();
    let mut b = Placement {
        white: 0,
        black: 0,
        pawns: 0,
        knights: 0,
        bishops: 0,
        rooks: 0,
        queens: 0,
        kings: 0,
    };
    let mut i: usize = 0;
    let mut rk: u64 = 0;
    proof {
        assert(s@.subrange(0, s@.len() as int) =~= s@);
    }
    while rk < 8
        invariant
            n == s@.len(),
            i <= n,
            rk <= 8,
            parse_ranks(s@, 0, empty_placement()) == parse_ranks(
                s@.subrange(i as int, n as int),
                rk,
                b,
            ),
        decreases 8 - rk,
    {
        let base: u64 = 56 - rk * 8;
        match rank_exec(s, i, base, b) {
            Err(e) => {
                return Err(e);
            },
            Ok(pr) => {
                let (b2, k) = pr;
                if rk == 7 {
                    b = b2;
                    i = k;
                    rk = 8;
                } else {
                    if k < n && s.get_char(k) == '/' {
                        proof {
                            let s2 = s@.subrange(k as int, n as int);
                            assert(s2[0] == s@[k as int]);
                            assert(s2.subrange(1, s2.len() as int) =~= s@.subrange(
                                k as int + 1,
                                n as int,
                            ));
                        }
                        b = b2;
                        i = k + 1;
                        rk = rk + 1;
                    } else {
                        return Err(FenParseError::WrongFieldCount);
                    }
                }
            },
        }
    }
    // the placement is read; five space-led fields follow
    if !(i < n && s.get_char(i) == ' ') {
        return Err(FenParseError::WrongFieldCount);
    }
    proof {
        let s1 = s@.subrange(i as int, n as int);
        assert(s1[0] == s@[i as int]);
        assert(s1.subrange(1, s1.len() as int) =~= s@.subrange(i as int + 1, n as int));
    }
    let i = i + 1;
    let turn_end = token_end(s, i);
    let turn: bool = turn_end - i == 1 && s.get_char(i) == 'w';
    proof {
        let t = s@.subrange(i as int, turn_end as int);
        if turn_end - i == 1 && s@[i as int] == 'w' {
            assert(t =~= seq!['w']);
        } else {
            assert(!(t =~= seq!['w'])) by {
                if t =~= seq!['w'] {
                    assert(t.len() == 1);
                    assert(t[0] == 'w');
                    assert(t[0] == s@[i as int]);
                }
            }
        }
    }
    let i = turn_end;
    if !(i < n && s.get_char(i) == ' ') {
        return Err(FenParseError::WrongFieldCount);
    }
    proof {
        let s1 = s@.subrange(i as int, n as int);
        assert(s1[0] == s@[i as int]);
        assert(s1.subrange(1, s1.len() as int) =~= s@.subrange(i as int + 1, n as int));
    }
    let i = i + 1;
    let castle_end = token_end(s, i);
    let cwk = find_char(s, i, castle_end, 'K');
    let cwq = find_char(s, i, castle_end, 'Q');
    let cbk = find_char(s, i, castle_end, 'k');
    let cbq = find_char(s, i, castle_end, 'q');
    let i = castle_end;
    if !(i < n && s.get_char(i) == ' ') {
        return Err(FenParseError::WrongFieldCount);
    }
    proof {
        let s1 = s@.subrange(i as int, n as int);
        assert(s1[0] == s@[i as int]);
        assert(s1.subrange(1, s1.len() as int) =~= s@.subrange(i as int + 1, n as int));
    }
    let i = i + 1;
    let ep_end = token_end(s, i);
    let ghost t_ep = s@.subrange(i as int, ep_end as int);
    let ep: Option<u64>;
    if ep_end - i == 1 && s.get_char(i) == '-' {
        proof {
            assert(t_ep =~= seq!['-']);
        }
        ep = None;
    } else {
        proof {
            assert(!(t_ep =~= seq!['-'])) by {
                if t_ep =~= seq!['-'] {
                    assert(t_ep.len() == 1);
                    assert(t_ep[0] == '-');
                    assert(t_ep[0] == s@[i as int]);
                }
            }
        }
        if ep_end - i == 2 {
            let fc = s.get_char(i);
            let rc = s.get_char(i + 1);
            proof {
                assert(t_ep[0] == s@[i as int]);
                assert(t_ep[1] == s@[i as int + 1]);
            }
            let f: u64 = match fc {
                'a' => 0,
                'b' => 1,
                'c' => 2,
                'd' => 3,
                'e' => 4,
                'f' => 5,
                'g' => 6,
                'h' => 7,
                _ => {
                    return Err(FenParseError::InvalidEnPassant);
                },
            };
            let r: u64 = match rc {
                '1' => 0,
                '2' => 1,
                '3' => 2,
                '4' => 3,
                '5' => 4,
                '6' => 5,
                '7' => 6,
                '8' => 7,
                _ => {
                    return Err(FenParseError::InvalidEnPassant);
                },
            };
            ep = Some(f + 8 * r);
        } else {
            return Err(FenParseError::InvalidEnPassant);
        }
    }
    let i = ep_end;
    if !(i < n && s.get_char(i) == ' ') {
        return Err(FenParseError::WrongFieldCount);
    }
    proof {
        let s1 = s@.subrange(i as int, n as int);
        assert(s1[0] == s@[i as int]);
        assert(s1.subrange(1, s1.len() as int) =~= s@.subrange(i as int + 1, n as int));
    }
    let i = i + 1;
    let half_end = token_end(s, i);
    let half = match number_exec(s, i, half_end) {
        Ok(v) => v,
        Err(e) => {
            return Err(e);
        },
    };
    let i = half_end;
    if !(i < n && s.get_char(i) == ' ') {
        return Err(FenParseError::WrongFieldCount);
    }
    proof {
        let s1 = s@.subrange(i as int, n as int);
        assert(s1[0] == s@[i as int]);
        assert(s1.subrange(1, s1.len() as int) =~= s@.subrange(i as int + 1, n as int));
    }
    let i = i + 1;
    let full_end = token_end(s, i);
    let full = match number_exec(s, i, full_end) {
        Ok(v) => v,
        Err(e) => {
            return Err(e);
        },
    };
    if full_end != n {
        return Err(FenParseError::WrongFieldCount);
    }
    Ok(
        Pos {
            white: b.white,
            black: b.black,
            pawns: b.pawns,
            knights: b.knights,
            bishops: b.bishops,
            rooks: b.rooks,
            queens: b.queens,
            kings: b.kings,
            turn,
            castle_wk: cwk,
            castle_wq: cwq,
            castle_bk: cbk,
            castle_bq: cbq,
            en_passant: ep,
            half_move: half,
            full_move: full,
        },
    )
}


/// The digit character of `d`.
pub open spec fn digit_char(d: int) -> char {
    if d == 0 {
        '0'
    } else if d == 1 {
        '1'
    } else if d == 2 {
        '2'
    } else if d == 3 {
        '3'
    } else if d == 4 {
        '4'
    } else if d == 5 {
        '5'
    } else if d == 6 {
        '6'
    } else if d == 7 {
        '7'
    } else if d == 8 {
        '8'
    } else {
        '9'
    }
}

/// The placement letter of a piece: uppercase for White, lowercase for
/// Black.
pub open spec fn piece_letter(p: Piece, white: bool) -> char {
    match p {
        Piece::PAWN => if white {
            'P'
        } else {
            'p'
        },
        Piece::KNIGHT => if white {
            'N'
        } else {
            'n'
        },
        Piece::BISHOP => if white {
            'B'
        } else {
            'b'
        },
        Piece::ROOK => if white {
            'R'
        } else {
            'r'
        },
        Piece::QUEEN => if white {
            'Q'
        } else {
            'q'
        },
        Piece::KING => if white {
            'K'
        } else {
            'k'
        },
        Piece::UNKNOWN => '?',
    }
}

/// The placement letter of the piece standing on square `i`.
pub open spec fn placement_char(p: Pos, i: u64) -> char {
    piece_letter(p.piece_at(sq_bb(i)), bb_has(p.white, i))
}

/// One encoded rank, from file counter `file` on, with `empty` empty files
/// pending: runs of empty files become their count's digit, pieces their
/// letter.
pub open spec fn enc_rank(p: Pos, base: u64, file: u64, empty: u64) -> Seq<char>
    decreases 8 - file,
{
    if file >= 8 {
        if empty > 0 {
            seq![digit_char(empty as int)]
        } else {
            seq![]
        }
    } else {
        let i = (base + file) as u64;
        if !bb_has(p.occ(), i) {
            enc_rank(p, base, (file + 1) as u64, (empty + 1) as u64)
        } else {
            (if empty > 0 {
                seq![digit_char(empty as int)]
            } else {
                seq![]
            }) + seq![placement_char(p, i)] + enc_rank(p, base, (file + 1) as u64, 0)
        }
    }
}

/// The encoded placement field from rank counter `r` on, ranks separated by
/// `/`, the top rank first.
pub open spec fn enc_ranks(p: Pos, r: u64) -> Seq<char>
    decreases 8 - r,
{
    if r >= 8 {
        seq![]
    } else if r == 7 {
        enc_rank(p, 0, 0, 0)
    } else {
        enc_rank(p, (56 - r * 8) as u64, 0, 0) + seq!['/'] + enc_ranks(p, (r + 1) as u64)
    }
}

/// The encoded side to move.
pub open spec fn enc_turn(p: Pos) -> Seq<char> {
    if p.turn {
        seq!['w']
    } else {
        seq!['b']
    }
}

/// The castling letters of four rights, in the order `KQkq`, or `-` when
/// none is held.
pub open spec fn enc_castle_flags(wk: bool, wq: bool, bk: bool, bq: bool) -> Seq<char> {
    let c = (if wk {
        seq!['K']
    } else {
        seq![]
    }) + (if wq {
        seq!['Q']
    } else {
        seq![]
    }) + (if bk {
        seq!['k']
    } else {
        seq![]
    }) + (if bq {
        seq!['q']
    } else {
        seq![]
    });
    if c.len() == 0 {
        seq!['-']
    } else {
        c
    }
}

/// The encoded castling field: the letters of the rights held, in the order
/// `KQkq`, or `-` when none is.
pub open spec fn enc_castle(p: Pos) -> Seq<char> {
    enc_castle_flags(p.castle_wk, p.castle_wq, p.castle_bk, p.castle_bq)
}

/// The encoded en-passant field: the target's square name, or `-`.
pub open spec fn enc_ep(p: Pos) -> Seq<char> {
    match p.en_passant {
        None => seq!['-'],
        Some(e) => square_name_seq(e),
    }
}

/// The decimal digits of `n`, most significant first.
pub open spec fn dec_digits(n: int) -> Seq<char>
    decreases n,
{
    if n < 10 {
        seq![digit_char(n)]
    } else {
        dec_digits(n / 10) + seq![digit_char(n % 10)]
    }
}

/// The FEN encoding of a position core: the six fields, single spaces
/// between them.
pub open spec fn encode_fen(p: Pos) -> Seq<char> {
    enc_ranks(p, 0) + seq![' '] + enc_turn(p) + seq![' '] + enc_castle(p) + seq![' '] + enc_ep(p)
        + seq![' '] + dec_digits(p.half_move as int) + seq![' '] + dec_digits(p.full_move as int)
}

/// The one-character string of digit `d`.
fn digit_str(d: u64) -> (r: &'static str)
    requires
        d < 10,
    ensures
        r@ =~= seq![digit_char(d as int)],
{
    proof {
        reveal_strlit("0");
        reveal_strlit("1");
        reveal_strlit("2");
        reveal_strlit("3");
        reveal_strlit("4");
        reveal_strlit("5");
        reveal_strlit("6");
        reveal_strlit("7");
        reveal_strlit("8");
        reveal_strlit("9");
    }
    if d == 0 {
        "0"
    } else if d == 1 {
        "1"
    } else if d == 2 {
        "2"
    } else if d == 3 {
        "3"
    } else if d == 4 {
        "4"
    } else if d == 5 {
        "5"
    } else if d == 6 {
        "6"
    } else if d == 7 {
        "7"
    } else if d == 8 {
        "8"
    } else {
        "9"
    }
}

/// The one-character string of a placement letter.
pub(crate) fn piece_letter_str(p: Piece, white: bool) -> (r: &'static str)
    ensures
        r@ =~= seq![piece_letter(p, white)],
{
    proof {
        reveal_strlit("P");
        reveal_strlit("p");
        reveal_strlit("N");
        reveal_strlit("n");
        reveal_strlit("B");
        reveal_strlit("b");
        reveal_strlit("R");
        reveal_strlit("r");
        reveal_strlit("Q");
        reveal_strlit("q");
        reveal_strlit("K");
        reveal_strlit("k");
        reveal_strlit("?");
    }
    match p {
        Piece::PAWN => if white {
            "P"
        } else {
            "p"
        },
        Piece::KNIGHT => if white {
            "N"
        } else {
            "n"
        },
        Piece::BISHOP => if white {
            "B"
        } else {
            "b"
        },
        Piece::ROOK => if white {
            "R"
        } else {
            "r"
        },
        Piece::QUEEN => if white {
            "Q"
        } else {
            "q"
        },
        Piece::KING => if white {
            "K"
        } else {
            "k"
        },
        Piece::UNKNOWN => "?",
    }
}

/// The piece kind a position core holds on the square of mask `m`.
fn pos_piece_at(p: &Pos, m: u64) -> (r: Piece)
    ensures
        r == p.piece_at(m),
{
    if p.pawns & m != 0 {
        Piece::PAWN
    } else if p.knights & m != 0 {
        Piece::KNIGHT
    } else if p.bishops & m != 0 {
        Piece::BISHOP
    } else if p.rooks & m != 0 {
        Piece::ROOK
    } else if p.queens & m != 0 {
        Piece::QUEEN
    } else if p.kings & m != 0 {
        Piece::KING
    } else {
        Piece::UNKNOWN
    }
}

/// The decimal digits of `n`.
fn dec_digits_exec(n: u32) -> (r: String)
    ensures
        r@ == dec_digits(n as int),
    decreases n,
{
    if n < 10 {
        String::from_str(digit_str(n as u64))
    } else {
        let mut hi = dec_digits_exec(n / 10);
        hi.append(digit_str((n % 10) as u64));
        hi
    }
}

/// One encoded rank of the placement field.
fn rank_string(p: &Pos, base: u64) -> (r: String)
    requires
        base <= 56,
    ensures
        r@ == enc_rank(*p, base, 0, 0),
{
    let mut out = String::new();
    let mut file: u64 = 0;
    let mut empty: u64 = 0;
    proof {
        assert(Seq::<char>::empty() + enc_rank(*p, base, 0, 0) =~= enc_rank(*p, base, 0, 0));
    }
    while file < 8
        invariant
            base <= 56,
            file <= 8,
            empty <= file,
            enc_rank(*p, base, 0, 0) == out@ + enc_rank(*p, base, file, empty),
        decreases 8 - file,
    {
        let m = 1u64 << (base + file);
        if (p.white | p.black) & m == 0 {
            empty = empty + 1;
            file = file + 1;
        } else {
            let ghost head: Seq<char> = if empty > 0 {
                seq![digit_char(empty as int)]
            } else {
                seq![]
            };
            let ghost letter: Seq<char> = seq![placement_char(*p, (base + file) as u64)];
            let ghost rest = enc_rank(*p, base, (file + 1) as u64, 0);
            proof {
                assert(enc_rank(*p, base, file, empty) == head + letter + rest);
                assert(out@ + (head + letter + rest) =~= (out@ + head + letter) + rest);
            }
            if empty > 0 {
                out.append(digit_str(empty));
                empty = 0;
            }
            let pc = pos_piece_at(p, m);
            let white_here = p.white & m != 0;
            out.append(piece_letter_str(pc, white_here));
            file = file + 1;
        }
    }
    if empty > 0 {
        proof {
            assert(enc_rank(*p, base, 8, empty) == seq![digit_char(empty as int)]);
        }
        out.append(digit_str(empty));
    } else {
        proof {
            assert(enc_rank(*p, base, 8, 0) =~= Seq::<char>::empty());
            assert(out@ + enc_rank(*p, base, 8, 0) =~= out@);
        }
    }
    out
}

/// Encodes a position core as a FEN string, exactly as [`encode_fen`]
/// describes.
pub fn encode(p: &Pos) -> (r: String)
    requires
        p.ep_ok(),
    ensures
        r@ == encode_fen(*p),
{
    let mut out = String::new();
    let mut rk: u64 = 0;
    proof {
        assert(Seq::<char>::empty() + enc_ranks(*p, 0) =~= enc_ranks(*p, 0));
    }
    while rk < 8
        invariant
            rk <= 8,
            enc_ranks(*p, 0) == out@ + enc_ranks(*p, rk),
        decreases 8 - rk,
    {
        let base: u64 = 56 - rk * 8;
        let rs = rank_string(p, base);
        if rk < 7 {
            let ghost a = enc_rank(*p, base, 0, 0);
            let ghost b = enc_ranks(*p, (rk + 1) as u64);
            let ghost o0 = out@;
            proof {
                assert(enc_ranks(*p, rk) == a + seq!['/'] + b);
                assert(o0 + (a + seq!['/'] + b) =~= (o0 + a + seq!['/']) + b);
            }
            out.append(rs.as_str());
            out.append("/");
            proof {
                reveal_strlit("/");
                assert("/"@ =~= seq!['/']);
                assert(rs@ == a);
                assert(out@ == (o0 + a) + seq!['/']);
                assert(enc_ranks(*p, 0) == o0 + enc_ranks(*p, rk));
                assert(enc_ranks(*p, 0) == out@ + b);
                assert(b == enc_ranks(*p, (rk + 1) as u64));
            }
        } else {
            proof {
                assert(enc_ranks(*p, rk) == enc_rank(*p, base, 0, 0));
                assert(enc_ranks(*p, 8) =~= Seq::<char>::empty());
                assert((out@ + enc_rank(*p, base, 0, 0)) + enc_ranks(*p, 8) =~= out@ + enc_rank(
                    *p,
                    base,
                    0,
                    0,
                ));
            }
            out.append(rs.as_str());
        }
        rk = rk + 1;
    }
    out.append(" ");
    if p.turn {
        out.append("w");
    } else {
        out.append("b");
    }
    out.append(" ");
    if !(p.castle_wk || p.castle_wq || p.castle_bk || p.castle_bq) {
        proof {
            assert(enc_castle(*p) =~= seq!['-']);
        }
        out.append("-");
    } else {
        let ghost c0 = out@;
        if p.castle_wk {
            out.append("K");
        }
        if p.castle_wq {
            out.append("Q");
        }
        if p.castle_bk {
            out.append("k");
        }
        if p.castle_bq {
            out.append("q");
        }
        proof {
            reveal_strlit("K");
            reveal_strlit("Q");
            reveal_strlit("k");
            reveal_strlit("q");
            assert("K"@ =~= seq!['K']);
            assert("Q"@ =~= seq!['Q']);
            assert("k"@ =~= seq!['k']);
            assert("q"@ =~= seq!['q']);
            assert(out@ =~= c0 + enc_castle(*p));
        }
    }
    out.append(" ");
    match p.en_passant {
        None => {
            out.append("-");
        },
        Some(e) => {
            let name = crate::square::square_name(e);
            out.append(name.as_str());
        },
    }
    out.append(" ");
    let half = dec_digits_exec(p.half_move);
    out.append(half.as_str());
    out.append(" ");
    let full = dec_digits_exec(p.full_move);
    out.append(full.as_str());
    proof {
        reveal_strlit(" ");
        reveal_strlit("w");
        reveal_strlit("b");
        reveal_strlit("-");
        assert(" "@ =~= seq![' ']);
        assert("w"@ =~= seq!['w']);
        assert("b"@ =~= seq!['b']);
        assert("-"@ =~= seq!['-']);
        assert(out@ =~= encode_fen(*p));
    }
    out
}


/// The mask of the files of `file` and above within the rank starting at
/// square `base`.
pub open spec fn files_from(base: u64, file: u64) -> u64 {
    (0xFFu64 & !(((1u64 << file) - 1) as u64)) << base
}

/// The mask of all squares of the ranks from counter `r` on, the ranks a
/// placement decode has still to fill.
pub open spec fn ranks_region(r: u64) -> u64 {
    if r >= 8 {
        0u64
    } else {
        !0u64 >> ((8 * r) as u64)
    }
}

/// The placement grown by the pieces the position holds on the files of
/// `file` and above of one rank, lowest file first — the order a rank decode
/// adds them in.
pub open spec fn add_files(b: Placement, p: Pos, base: u64, file: u64) -> Placement
    decreases 8 - file,
{
    if file >= 8 {
        b
    } else {
        let i = (base + file) as u64;
        let b2 = if bb_has(p.occ(), i) {
            place(b, p.piece_at(sq_bb(i)), bb_has(p.white, i), i)
        } else {
            b
        };
        add_files(b2, p, base, (file + 1) as u64)
    }
}

/// The placement grown rank by rank from counter `r` on, the order a
/// placement decode fills it in.
pub open spec fn add_ranks(b: Placement, p: Pos, r: u64) -> Placement
    decreases 8 - r,
{
    if r >= 8 {
        b
    } else {
        add_ranks(add_files(b, p, (56 - r * 8) as u64, 0), p, (r + 1) as u64)
    }
}

/// One file more of a rank's region: the region from `file` is that file's
/// square together with the region from `file + 1`.
proof fn lemma_files_from_step(base: u64, file: u64)
    by (bit_vector)
    requires
        base <= 56,
        file < 8,
    ensures
        files_from(base, file) == (1u64 << (base + file)) | files_from(base, (file + 1) as u64),
{
}

/// A rank's region is exhausted after its eighth file.
proof fn lemma_files_from_end(base: u64)
    by (bit_vector)
    requires
        base <= 56,
    ensures
        files_from(base, 8) == 0,
{
}

/// Pulling one square out of a region commutes with adding a piece's bit:
/// the two union orders agree, whether or not the field holds the square.
proof fn lemma_field_step(bf: u64, pf: u64, i: u64, f2: u64)
    by (bit_vector)
    requires
        i < 64,
    ensures
        (pf & (1u64 << i) != 0) ==> ((bf | (1u64 << i)) | (pf & f2) == bf | (pf & ((1u64 << i)
            | f2))),
        (pf & (1u64 << i) == 0) ==> (bf | (pf & f2) == bf | (pf & ((1u64 << i) | f2))),
{
}

/// Merging two region restrictions of one field into the union region.
proof fn lemma_field_merge(bf: u64, pf: u64, x: u64, y: u64)
    by (bit_vector)
    ensures
        (bf | (pf & x)) | (pf & y) == bf | (pf & (x | y)),
{
}

/// One rank more of the whole-board region, and the full and empty ends.
proof fn lemma_ranks_region_step(r: u64)
    by (bit_vector)
    requires
        r < 8,
    ensures
        ranks_region(r) == files_from((56 - r * 8) as u64, 0) | ranks_region((r + 1) as u64),
{
}

/// Restricting a mask to the whole board changes nothing.
proof fn lemma_region_full(a: u64)
    by (bit_vector)
    ensures
        0u64 | (a & ranks_region(0)) == a,
{
}

/// What a rank decode adds: each placement field gains exactly the
/// position's pieces of that field within the remaining files' region.
proof fn lemma_add_files_fields(b: Placement, p: Pos, base: u64, file: u64)
    requires
        p.boards_ok(),
        base <= 56,
        file <= 8,
    ensures
        add_files(b, p, base, file) == (Placement {
            white: b.white | (p.white & files_from(base, file)),
            black: b.black | (p.black & files_from(base, file)),
            pawns: b.pawns | (p.pawns & files_from(base, file)),
            knights: b.knights | (p.knights & files_from(base, file)),
            bishops: b.bishops | (p.bishops & files_from(base, file)),
            rooks: b.rooks | (p.rooks & files_from(base, file)),
            queens: b.queens | (p.queens & files_from(base, file)),
            kings: b.kings | (p.kings & files_from(base, file)),
        }),
    decreases 8 - file,
{
    if file >= 8 {
        lemma_files_from_end(base);
        assert(b.white | (p.white & 0u64) == b.white) by (bit_vector);
        assert(b.black | (p.black & 0u64) == b.black) by (bit_vector);
        assert(b.pawns | (p.pawns & 0u64) == b.pawns) by (bit_vector);
        assert(b.knights | (p.knights & 0u64) == b.knights) by (bit_vector);
        assert(b.bishops | (p.bishops & 0u64) == b.bishops) by (bit_vector);
        assert(b.rooks | (p.rooks & 0u64) == b.rooks) by (bit_vector);
        assert(b.queens | (p.queens & 0u64) == b.queens) by (bit_vector);
        assert(b.kings | (p.kings & 0u64) == b.kings) by (bit_vector);
    } else {
        let i = (base + file) as u64;
        let m = sq_bb(i);
        let f2 = files_from(base, (file + 1) as u64);
        lemma_files_from_step(base, file);
        assert(p.sq_ok(i));
        let b2 = if bb_has(p.occ(), i) {
            place(b, p.piece_at(m), bb_has(p.white, i), i)
        } else {
            b
        };
        lemma_add_files_fields(b2, p, base, (file + 1) as u64);
        crate::square::lemma_bb_ops(p.white, p.black, i);
        if bb_has(p.occ(), i) {
            assert(p.piece_count(i) == 1);
        } else {
            assert(p.piece_count(i) == 0);
            assert(!bb_has(p.white, i) && !bb_has(p.black, i));
        }
        lemma_field_step(b.white, p.white, i, f2);
        lemma_field_step(b.black, p.black, i, f2);
        lemma_field_step(b.pawns, p.pawns, i, f2);
        lemma_field_step(b.knights, p.knights, i, f2);
        lemma_field_step(b.bishops, p.bishops, i, f2);
        lemma_field_step(b.rooks, p.rooks, i, f2);
        lemma_field_step(b.queens, p.queens, i, f2);
        lemma_field_step(b.kings, p.kings, i, f2);
    }
}

/// What the whole placement decode builds from the empty placement: the
/// position's placement itself.
proof fn lemma_add_ranks_fields(b: Placement, p: Pos, r: u64)
    requires
        p.boards_ok(),
        r <= 8,
    ensures
        add_ranks(b, p, r) == (Placement {
            white: b.white | (p.white & ranks_region(r)),
            black: b.black | (p.black & ranks_region(r)),
            pawns: b.pawns | (p.pawns & ranks_region(r)),
            knights: b.knights | (p.knights & ranks_region(r)),
            bishops: b.bishops | (p.bishops & ranks_region(r)),
            rooks: b.rooks | (p.rooks & ranks_region(r)),
            queens: b.queens | (p.queens & ranks_region(r)),
            kings: b.kings | (p.kings & ranks_region(r)),
        }),
    decreases 8 - r,
{
    if r >= 8 {
        assert(b.white | (p.white & 0u64) == b.white) by (bit_vector);
        assert(b.black | (p.black & 0u64) == b.black) by (bit_vector);
        assert(b.pawns | (p.pawns & 0u64) == b.pawns) by (bit_vector);
        assert(b.knights | (p.knights & 0u64) == b.knights) by (bit_vector);
        assert(b.bishops | (p.bishops & 0u64) == b.bishops) by (bit_vector);
        assert(b.rooks | (p.rooks & 0u64) == b.rooks) by (bit_vector);
        assert(b.queens | (p.queens & 0u64) == b.queens) by (bit_vector);
        assert(b.kings | (p.kings & 0u64) == b.kings) by (bit_vector);
    } else {
        let base = (56 - r * 8) as u64;
        let b2 = add_files(b, p, base, 0);
        lemma_add_files_fields(b, p, base, 0);
        lemma_add_ranks_fields(b2, p, (r + 1) as u64);
        lemma_ranks_region_step(r);
        let x = files_from(base, 0);
        let y = ranks_region((r + 1) as u64);
        lemma_field_merge(b.white, p.white, x, y);
        lemma_field_merge(b.black, p.black, x, y);
        lemma_field_merge(b.pawns, p.pawns, x, y);
        lemma_field_merge(b.knights, p.knights, x, y);
        lemma_field_merge(b.bishops, p.bishops, x, y);
        lemma_field_merge(b.rooks, p.rooks, x, y);
        lemma_field_merge(b.queens, p.queens, x, y);
        lemma_field_merge(b.kings, p.kings, x, y);
    }
}

/// Decoding one encoded rank adds exactly the rank's pieces and stops at
/// the remainder: the decode inverts the encode, rank by rank.
proof fn lemma_rank_rt(p: Pos, base: u64, file: u64, empty: u64, b: Placement, rest: Seq<char>)
    requires
        p.boards_ok(),
        base <= 56,
        empty <= file <= 8,
        forall|k: u64| file - empty <= k < file ==> !#[trigger] bb_has(p.occ(), (base + k) as u64),
        rest.len() == 0 || rest[0] == '/' || rest[0] == ' ',
    ensures
        parse_rank(enc_rank(p, base, file, empty) + rest, base, (file - empty) as u64, b) == Ok::<
            (Placement, Seq<char>),
            FenParseError,
        >((add_files(b, p, base, file), rest)),
    decreases 8 - file,
{
    let enc = enc_rank(p, base, file, empty);
    let s = enc + rest;
    if file == 8 {
        if empty == 0 {
            assert(s =~= rest);
            assert(parse_rank(rest, base, 8, b) == Ok::<(Placement, Seq<char>), FenParseError>(
                (b, rest),
            ));
        } else {
            assert(enc == seq![digit_char(empty as int)]);
            assert(s[0] == digit_char(empty as int));
            assert(is_rank_digit(s[0]));
            assert(rank_index(s[0]) + 1 == empty);
            assert((file - empty) + rank_index(s[0]) + 1 == 8);
            assert(s.subrange(1, s.len() as int) =~= rest);
            assert(parse_rank(rest, base, 8, b) == Ok::<(Placement, Seq<char>), FenParseError>(
                (b, rest),
            ));
            assert(parse_rank(s, base, (file - empty) as u64, b) == parse_rank(rest, base, 8, b));
        }
    } else {
        let i = (base + file) as u64;
        if !bb_has(p.occ(), i) {
            assert(enc == enc_rank(p, base, (file + 1) as u64, (empty + 1) as u64));
            lemma_rank_rt(p, base, (file + 1) as u64, (empty + 1) as u64, b, rest);
            assert(add_files(b, p, base, file) == add_files(b, p, base, (file + 1) as u64));
        } else {
            let head: Seq<char> = if empty > 0 {
                seq![digit_char(empty as int)]
            } else {
                seq![]
            };
            let letter = seq![placement_char(p, i)];
            let e2 = enc_rank(p, base, (file + 1) as u64, 0);
            assert(enc == head + letter + e2);
            assert(p.sq_ok(i));
            crate::square::lemma_bb_ops(p.white, p.black, i);
            assert(p.piece_count(i) == 1);
            let pc = p.piece_at(sq_bb(i));
            let wh = bb_has(p.white, i);
            assert(piece_of_char(piece_letter(pc, wh)) == Some((pc, wh)));
            assert(pc != Piece::UNKNOWN);
            let b2 = place(b, pc, wh, i);
            lemma_rank_rt(p, base, (file + 1) as u64, 0, b2, rest);
            assert(parse_rank(e2 + rest, base, (file + 1) as u64, b2) == Ok::<
                (Placement, Seq<char>),
                FenParseError,
            >((add_files(b2, p, base, (file + 1) as u64), rest)));
            let s1 = letter + e2 + rest;
            assert(s1[0] == placement_char(p, i));
            assert(!is_rank_digit(s1[0]));
            assert(s1[0] != '/' && s1[0] != ' ');
            assert(s1.subrange(1, s1.len() as int) =~= e2 + rest);
            assert(parse_rank(s1, base, file, b) == parse_rank(
                e2 + rest,
                base,
                (file + 1) as u64,
                b2,
            ));
            if empty > 0 {
                assert(s[0] == digit_char(empty as int));
                assert(is_rank_digit(s[0]));
                assert(rank_index(s[0]) + 1 == empty);
                assert((file - empty) + rank_index(s[0]) + 1 == file);
                assert(s.subrange(1, s.len() as int) =~= s1);
                assert(parse_rank(s, base, (file - empty) as u64, b) == parse_rank(
                    s1,
                    base,
                    file,
                    b,
                ));
            } else {
                assert(s =~= s1);
            }
            assert(add_files(b, p, base, file) == add_files(b2, p, base, (file + 1) as u64));
        }
    }
}

/// Decoding the whole encoded placement rebuilds all eight ranks and stops
/// at the remainder.
proof fn lemma_ranks_rt(p: Pos, r: u64, b: Placement, rest: Seq<char>)
    requires
        p.boards_ok(),
        r <= 7,
        rest.len() == 0 || rest[0] == ' ',
    ensures
        parse_ranks(enc_ranks(p, r) + rest, r, b) == Ok::<(Placement, Seq<char>), FenParseError>(
            (add_ranks(b, p, r), rest),
        ),
    decreases 8 - r,
{
    let base = (56 - r * 8) as u64;
    if r == 7 {
        assert(enc_ranks(p, r) == enc_rank(p, 0, 0, 0));
        lemma_rank_rt(p, 0, 0, 0, b, rest);
        assert(add_ranks(b, p, 7) == add_files(b, p, 0, 0));
    } else {
        let a = enc_rank(p, base, 0, 0);
        let tail = enc_ranks(p, (r + 1) as u64);
        assert(enc_ranks(p, r) == a + seq!['/'] + tail);
        let rest1 = seq!['/'] + (tail + rest);
        assert(rest1[0] == '/');
        lemma_rank_rt(p, base, 0, 0, b, rest1);
        let b2 = add_files(b, p, base, 0);
        let s = enc_ranks(p, r) + rest;
        assert(s =~= a + rest1);
        assert(rest1.subrange(1, rest1.len() as int) =~= tail + rest);
        lemma_ranks_rt(p, (r + 1) as u64, b2, rest);
        assert(add_ranks(b, p, r) == add_ranks(b2, p, (r + 1) as u64));
    }
}

/// A token followed by a space-led (or empty) remainder splits back into
/// itself and the remainder.
proof fn lemma_token_concat(t: Seq<char>, rest: Seq<char>)
    requires
        forall|m: int| 0 <= m < t.len() ==> t[m] != ' ',
        rest.len() == 0 || rest[0] == ' ',
    ensures
        take_token(t + rest) == (t, rest),
{
    let s = t + rest;
    lemma_take_token_split(s, t.len() as int);
    assert(s.subrange(0, t.len() as int) =~= t);
    assert(s.subrange(t.len() as int, s.len() as int) =~= rest);
}

/// The digits of a number are digits, and there is at least one.
proof fn lemma_dec_digits_shape(n: int)
    ensures
        dec_digits(n).len() >= 1,
        all_digits(dec_digits(n)),
        forall|m: int| 0 <= m < dec_digits(n).len() ==> dec_digits(n)[m] != ' ',
    decreases n,
{
    if n >= 10 {
        lemma_dec_digits_shape(n / 10);
    }
}

/// Reading back the digits of a number gives the number.
proof fn lemma_dec_digits_val(n: int)
    requires
        n >= 0,
    ensures
        dec_val(dec_digits(n)) == n,
    decreases n,
{
    if n < 10 {
        let t = dec_digits(n);
        assert(t.subrange(0, 0) =~= Seq::<char>::empty());
        assert(dec_val(t) == dec_val(t.subrange(0, 0)) * 10 + digit_val(t[0]));
        assert(digit_val(digit_char(n)) == n);
    } else {
        lemma_dec_digits_val(n / 10);
        let a = dec_digits(n / 10);
        let t = a + seq![digit_char(n % 10)];
        assert(t.subrange(0, t.len() - 1) =~= a);
        assert(t[t.len() - 1] == digit_char(n % 10));
        assert(0 <= n % 10 < 10);
        assert(digit_val(digit_char(n % 10)) == n % 10);
        assert(dec_val(t) == dec_val(a) * 10 + (n % 10));
        assert(n / 10 * 10 + n % 10 == n);
    }
}

/// The castling field encodes exactly the rights given: its letters are the
/// rights' letters, none is a space, and it is never empty.
proof fn lemma_castle_flags_field(wk: bool, wq: bool, bk: bool, bq2: bool)
    ensures
        enc_castle_flags(wk, wq, bk, bq2).len() >= 1,
        forall|m: int|
            0 <= m < enc_castle_flags(wk, wq, bk, bq2).len() ==> enc_castle_flags(
                wk,
                wq,
                bk,
                bq2,
            )[m] != ' ',
        has_char(enc_castle_flags(wk, wq, bk, bq2), 'K') == wk,
        has_char(enc_castle_flags(wk, wq, bk, bq2), 'Q') == wq,
        has_char(enc_castle_flags(wk, wq, bk, bq2), 'k') == bk,
        has_char(enc_castle_flags(wk, wq, bk, bq2), 'q') == bq2,
{
    let a: Seq<char> = if wk {
        seq!['K']
    } else {
        seq![]
    };
    let bq: Seq<char> = if wq {
        seq!['Q']
    } else {
        seq![]
    };
    let c: Seq<char> = if bk {
        seq!['k']
    } else {
        seq![]
    };
    let d: Seq<char> = if bq2 {
        seq!['q']
    } else {
        seq![]
    };
    let w = a + bq + c + d;
    assert(forall|m: int|
        0 <= m < w.len() ==> (w[m] == 'K' || w[m] == 'Q' || w[m] == 'k' || w[m] == 'q'));
    if wk {
        assert(w[0] == 'K');
        assert(has_char(w, 'K'));
    } else {
        assert(forall|m: int| 0 <= m < w.len() ==> w[m] != 'K');
    }
    if wq {
        assert(w[a.len() as int] == 'Q');
        assert(has_char(w, 'Q'));
    } else {
        assert(forall|m: int| 0 <= m < w.len() ==> w[m] != 'Q');
    }
    if bk {
        assert(w[(a.len() + bq.len()) as int] == 'k');
        assert(has_char(w, 'k'));
    } else {
        assert(forall|m: int| 0 <= m < w.len() ==> w[m] != 'k');
    }
    if bq2 {
        assert(w[(a.len() + bq.len() + c.len()) as int] == 'q');
        assert(has_char(w, 'q'));
    } else {
        assert(forall|m: int| 0 <= m < w.len() ==> w[m] != 'q');
    }
    if w.len() == 0 {
        assert(enc_castle_flags(wk, wq, bk, bq2) == seq!['-']);
        assert(!wk && !wq && !bk && !bq2);
        assert(!has_char(seq!['-'], 'K'));
        assert(!has_char(seq!['-'], 'Q'));
        assert(!has_char(seq!['-'], 'k'));
        assert(!has_char(seq!['-'], 'q'));
    }
}

/// Decoding an encoded placement, followed by any space-led remainder,
/// rebuilds exactly the position's placement.
proof fn lemma_placement_rt(p: Pos, rest: Seq<char>)
    requires
        p.boards_ok(),
        rest.len() == 0 || rest[0] == ' ',
    ensures
        parse_ranks(enc_ranks(p, 0) + rest, 0, empty_placement()) == Ok::<
            (Placement, Seq<char>),
            FenParseError,
        >((p.placement(), rest)),
{
    lemma_ranks_rt(p, 0, empty_placement(), rest);
    lemma_add_ranks_fields(empty_placement(), p, 0);
    lemma_region_full(p.white);
    lemma_region_full(p.black);
    lemma_region_full(p.pawns);
    lemma_region_full(p.knights);
    lemma_region_full(p.bishops);
    lemma_region_full(p.rooks);
    lemma_region_full(p.queens);
    lemma_region_full(p.kings);
    let bfin = add_ranks(empty_placement(), p, 0);
    assert(bfin.white == p.white);
}

/// FEN round trip: decoding what a consistent position encodes gives the
/// position back, exactly.
#[verifier::rlimit(100)]
#[verifier::spinoff_prover]
pub proof fn lemma_fen_round_trip(p: Pos)
    requires
        p.boards_ok(),
        p.ep_ok(),
    ensures
        decode_fen(encode_fen(p)) == Ok::<Pos, FenParseError>(p),
{
    let pl = enc_ranks(p, 0);
    let t1 = enc_turn(p);
    let t2 = enc_castle(p);
    let t3 = enc_ep(p);
    let t4 = dec_digits(p.half_move as int);
    let t5 = dec_digits(p.full_move as int);
    let s = encode_fen(p);
    let rest0 = seq![' '] + (t1 + (seq![' '] + (t2 + (seq![' '] + (t3 + (seq![' '] + (t4 + (seq![
        ' ',
    ] + t5))))))));
    assert(s =~= pl + rest0);
    assert(rest0[0] == ' ');
    lemma_placement_rt(p, rest0);
    assert(parse_ranks(s, 0, empty_placement()) == Ok::<(Placement, Seq<char>), FenParseError>(
        (p.placement(), rest0),
    ));

    // the side to move
    let s2 = t1 + (seq![' '] + (t2 + (seq![' '] + (t3 + (seq![' '] + (t4 + (seq![' '] + t5)))))));
    assert(rest0.subrange(1, rest0.len() as int) =~= s2);
    let rest1 = seq![' '] + (t2 + (seq![' '] + (t3 + (seq![' '] + (t4 + (seq![' '] + t5))))));
    assert(forall|m: int| 0 <= m < t1.len() ==> t1[m] != ' ');
    assert(rest1[0] == ' ');
    lemma_token_concat(t1, rest1);
    assert(take_token(s2) == (t1, rest1));
    if p.turn {
        assert(t1 =~= seq!['w']);
    } else {
        assert(!(t1 =~= seq!['w']));
    }

    // the castling rights
    let s4 = t2 + (seq![' '] + (t3 + (seq![' '] + (t4 + (seq![' '] + t5)))));
    assert(rest1.subrange(1, rest1.len() as int) =~= s4);
    let rest2 = seq![' '] + (t3 + (seq![' '] + (t4 + (seq![' '] + t5))));
    lemma_castle_flags_field(p.castle_wk, p.castle_wq, p.castle_bk, p.castle_bq);
    assert(rest2[0] == ' ');
    lemma_token_concat(t2, rest2);

    // the en-passant target
    let s6 = t3 + (seq![' '] + (t4 + (seq![' '] + t5)));
    assert(rest2.subrange(1, rest2.len() as int) =~= s6);
    let rest3 = seq![' '] + (t4 + (seq![' '] + t5));
    assert(forall|m: int| 0 <= m < t3.len() ==> t3[m] != ' ');
    assert(rest3[0] == ' ');
    lemma_token_concat(t3, rest3);
    match p.en_passant {
        None => {
            assert(t3 =~= seq!['-']);
            assert(parse_ep(t3) == Ok::<Option<u64>, FenParseError>(None));
        },
        Some(e) => {
            assert(t3 == square_name_seq(e));
            assert(t3.len() == 2);
            assert(t3[0] == file_char(e % 8));
            assert(t3[1] == rank_char(e / 8));
            assert(!(t3 =~= seq!['-']));
            assert(is_file_letter(t3[0]));
            assert(is_rank_digit(t3[1]));
            assert(file_index(t3[0]) == e % 8);
            assert(rank_index(t3[1]) == e / 8);
            assert(e % 8 + 8 * (e / 8) == e);
            assert(parse_ep(t3) == Ok::<Option<u64>, FenParseError>(Some(e)));
        },
    }

    // the half-move clock
    let s8 = t4 + (seq![' '] + t5);
    assert(rest3.subrange(1, rest3.len() as int) =~= s8);
    let rest4 = seq![' '] + t5;
    lemma_dec_digits_shape(p.half_move as int);
    assert(rest4[0] == ' ');
    lemma_token_concat(t4, rest4);
    lemma_dec_digits_val(p.half_move as int);
    assert(parse_u32(t4) == Ok::<u32, FenParseError>(p.half_move));

    // the full-move number
    let s10 = t5;
    assert(rest4.subrange(1, rest4.len() as int) =~= s10);
    let rest5 = Seq::<char>::empty();
    lemma_dec_digits_shape(p.full_move as int);
    lemma_token_concat(t5, rest5);
    assert(t5 + rest5 =~= s10);
    assert(take_token(s10) == (t5, rest5));
    lemma_dec_digits_val(p.full_move as int);
    assert(parse_u32(t5) == Ok::<u32, FenParseError>(p.full_move));

    assert(decode_fen(s) == Ok::<Pos, FenParseError>(p));
}

/// A digit string without a leading zero denotes at least one.
proof fn lemma_dec_val_pos(t: Seq<char>)
    requires
        t.len() >= 1,
        all_digits(t),
        t[0] != '0',
    ensures
        dec_val(t) >= 1,
    decreases t.len(),
{
    if t.len() == 1 {
        assert(dec_val(t) == dec_val(t.subrange(0, 0)) * 10 + digit_val(t[0]));
        assert(t.subrange(0, 0) =~= Seq::<char>::empty());
        assert(digit_val(t[0]) >= 1);
    } else {
        let t1 = t.subrange(0, t.len() - 1);
        assert(all_digits(t1));
        assert(t1[0] == t[0]);
        lemma_dec_val_pos(t1);
        assert(dec_val(t) == dec_val(t1) * 10 + digit_val(t[t.len() - 1]));
        assert(digit_val(t[t.len() - 1]) >= 0);
    }
}

/// Writing a canonical digit string's number back out gives the same
/// string: decimal texts without leading zeros are unique.
proof fn lemma_dec_digits_inv(t: Seq<char>)
    requires
        t.len() >= 1,
        all_digits(t),
        t.len() == 1 || t[0] != '0',
    ensures
        dec_digits(dec_val(t)) == t,
    decreases t.len(),
{
    if t.len() == 1 {
        assert(dec_val(t) == dec_val(t.subrange(0, 0)) * 10 + digit_val(t[0]));
        assert(t.subrange(0, 0) =~= Seq::<char>::empty());
        assert(dec_val(t) == digit_val(t[0]));
        assert(dec_digits(dec_val(t)) == seq![digit_char(digit_val(t[0]))]);
        assert(digit_char(digit_val(t[0])) == t[0]);
        assert(seq![t[0]] =~= t);
    } else {
        let t1 = t.subrange(0, t.len() - 1);
        let d = digit_val(t[t.len() - 1]);
        assert(all_digits(t1));
        assert(t1[0] == t[0]);
        lemma_dec_val_pos(t1);
        lemma_dec_digits_inv(t1);
        let a = dec_val(t1);
        let v = dec_val(t);
        assert(v == a * 10 + d);
        assert((a * 10 + d) / 10 == a && (a * 10 + d) % 10 == d) by (nonlinear_arith)
            requires
                a >= 0,
                0 <= d < 10,
        ;
        assert(v >= 10);
        assert(dec_digits(v) == dec_digits(v / 10) + seq![digit_char(v % 10)]);
        assert(digit_char(d) == t[t.len() - 1]);
        assert(t1 + seq![t[t.len() - 1]] =~= t);
    }
}

/// Scans one rank's text for canonical form — no empty-file digit directly
/// follows another — and returns the remainder at the rank's end.
pub open spec fn canon_rank_scan(s: Seq<char>, prev_digit: bool) -> (bool, Seq<char>)
    decreases s.len(),
{
    if s.len() == 0 || s[0] == '/' || s[0] == ' ' {
        (true, s)
    } else if is_rank_digit(s[0]) {
        if prev_digit {
            (false, s)
        } else {
            canon_rank_scan(s.subrange(1, s.len() as int), true)
        }
    } else {
        canon_rank_scan(s.subrange(1, s.len() as int), false)
    }
}

/// Scans the whole placement field for canonical form, rank by rank.
pub open spec fn canon_ranks_scan(s: Seq<char>, r: u64) -> (bool, Seq<char>)
    decreases 8 - r,
{
    if r >= 8 {
        (true, s)
    } else {
        let (ok, s2) = canon_rank_scan(s, false);
        if !ok {
            (false, s2)
        } else if r == 7 {
            (true, s2)
        } else if s2.len() > 0 && s2[0] == '/' {
            canon_ranks_scan(s2.subrange(1, s2.len() as int), (r + 1) as u64)
        } else {
            (false, s2)
        }
    }
}

/// A FEN string in canonical form: empty-file runs written as single
/// digits, the side to move one of `w` and `b`, the castling field the
/// rights' letters in `KQkq` order or `-`, and the clocks without leading
/// zeros.  Decoding is blind to these distinctions; encoding always writes
/// them this way.
pub open spec fn canonical_fen(s: Seq<char>) -> bool {
    let (ok_pl, s1) = canon_ranks_scan(s, 0);
    ok_pl && s1.len() > 0 && s1[0] == ' ' && {
        let s2 = s1.subrange(1, s1.len() as int);
        let (t_turn, s3) = take_token(s2);
        (t_turn == seq!['w'] || t_turn == seq!['b']) && s3.len() > 0 && s3[0] == ' ' && {
            let s4 = s3.subrange(1, s3.len() as int);
            let (t_castle, s5) = take_token(s4);
            (exists|wk: bool, wq: bool, bk: bool, bq: bool|
                t_castle == enc_castle_flags(wk, wq, bk, bq)) && s5.len() > 0 && s5[0] == ' '
                && {
                let s6 = s5.subrange(1, s5.len() as int);
                let (t_ep, s7) = take_token(s6);
                s7.len() > 0 && s7[0] == ' ' && {
                    let s8 = s7.subrange(1, s7.len() as int);
                    let (t_half, s9) = take_token(s8);
                    (t_half.len() == 1 || (t_half.len() > 1 && t_half[0] != '0')) && s9.len() > 0
                        && s9[0] == ' ' && {
                        let s10 = s9.subrange(1, s9.len() as int);
                        let (t_full, s11) = take_token(s10);
                        t_full.len() == 1 || (t_full.len() > 1 && t_full[0] != '0')
                    }
                }
            }
        }
    }
}

/// No piece of any kind or color stands on square `q` of placement `b`.
pub open spec fn pl_empty_at(b: Placement, q: u64) -> bool {
    &&& !bb_has(b.white, q)
    &&& !bb_has(b.black, q)
    &&& !bb_has(b.pawns, q)
    &&& !bb_has(b.knights, q)
    &&& !bb_has(b.bishops, q)
    &&& !bb_has(b.rooks, q)
    &&& !bb_has(b.queens, q)
    &&& !bb_has(b.kings, q)
}

/// Two placements hold the same thing on square `q`.
pub open spec fn pl_eq_at(x: Placement, y: Placement, q: u64) -> bool {
    &&& bb_has(x.white, q) == bb_has(y.white, q)
    &&& bb_has(x.black, q) == bb_has(y.black, q)
    &&& bb_has(x.pawns, q) == bb_has(y.pawns, q)
    &&& bb_has(x.knights, q) == bb_has(y.knights, q)
    &&& bb_has(x.bishops, q) == bb_has(y.bishops, q)
    &&& bb_has(x.rooks, q) == bb_has(y.rooks, q)
    &&& bb_has(x.queens, q) == bb_has(y.queens, q)
    &&& bb_has(x.kings, q) == bb_has(y.kings, q)
}

/// A position and a placement hold the same thing on square `q`.
pub open spec fn pos_pl_eq_at(p: Pos, y: Placement, q: u64) -> bool {
    &&& bb_has(p.white, q) == bb_has(y.white, q)
    &&& bb_has(p.black, q) == bb_has(y.black, q)
    &&& bb_has(p.pawns, q) == bb_has(y.pawns, q)
    &&& bb_has(p.knights, q) == bb_has(y.knights, q)
    &&& bb_has(p.bishops, q) == bb_has(y.bishops, q)
    &&& bb_has(p.rooks, q) == bb_has(y.rooks, q)
    &&& bb_has(p.queens, q) == bb_has(y.queens, q)
    &&& bb_has(p.kings, q) == bb_has(y.kings, q)
}

/// What one square holds after a piece lands on square `i` of a placement.
proof fn lemma_place_bits(b: Placement, pc: Piece, w: bool, i: u64, k: u64)
    requires
        i < 64,
        k < 64,
    ensures
        bb_has(place(b, pc, w, i).pawns, k) == (bb_has(b.pawns, k) || (k == i && pc
            == Piece::PAWN)),
        bb_has(place(b, pc, w, i).knights, k) == (bb_has(b.knights, k) || (k == i && pc
            == Piece::KNIGHT)),
        bb_has(place(b, pc, w, i).bishops, k) == (bb_has(b.bishops, k) || (k == i && pc
            == Piece::BISHOP)),
        bb_has(place(b, pc, w, i).rooks, k) == (bb_has(b.rooks, k) || (k == i && pc
            == Piece::ROOK)),
        bb_has(place(b, pc, w, i).queens, k) == (bb_has(b.queens, k) || (k == i && pc
            == Piece::QUEEN)),
        bb_has(place(b, pc, w, i).kings, k) == (bb_has(b.kings, k) || (k == i && pc
            == Piece::KING)),
        bb_has(place(b, pc, w, i).white, k) == (bb_has(b.white, k) || (k == i && w)),
        bb_has(place(b, pc, w, i).black, k) == (bb_has(b.black, k) || (k == i && !w)),
{
    crate::square::lemma_sq_bb_has(i, k);
    crate::square::lemma_bb_ops(b.white, sq_bb(i), k);
    crate::square::lemma_bb_ops(b.black, sq_bb(i), k);
    crate::square::lemma_bb_ops(b.pawns, sq_bb(i), k);
    crate::square::lemma_bb_ops(b.knights, sq_bb(i), k);
    crate::square::lemma_bb_ops(b.bishops, sq_bb(i), k);
    crate::square::lemma_bb_ops(b.rooks, sq_bb(i), k);
    crate::square::lemma_bb_ops(b.queens, sq_bb(i), k);
    crate::square::lemma_bb_ops(b.kings, sq_bb(i), k);
}

/// A rank decode never touches squares before its file counter or outside
/// its rank.
proof fn lemma_parse_rank_frame(s: Seq<char>, base: u64, file: u64, b: Placement, q: u64)
    requires
        base <= 56,
        file <= 8,
        q < 64,
        q < base + file || q >= base + 8,
    ensures
        (match parse_rank(s, base, file, b) {
            Ok(pr) => pl_eq_at(pr.0, b, q),
            Err(_) => true,
        }),
    decreases s.len(),
{
    if s.len() == 0 || s[0] == '/' || s[0] == ' ' {
    } else {
        let c = s[0];
        if is_rank_digit(c) {
            let file2 = file + rank_index(c) + 1;
            if file2 > 8 {
            } else {
                lemma_parse_rank_frame(s.subrange(1, s.len() as int), base, file2 as u64, b, q);
            }
        } else {
            match piece_of_char(c) {
                Some((pc, w)) => {
                    if file < 8 {
                        let b1 = place(b, pc, w, (base + file) as u64);
                        lemma_place_bits(b, pc, w, (base + file) as u64, q);
                        lemma_parse_rank_frame(
                            s.subrange(1, s.len() as int),
                            base,
                            (file + 1) as u64,
                            b1,
                            q,
                        );
                    }
                },
                None => {},
            }
        }
    }
}

/// An encoded rank whose remaining files are all empty is the single digit
/// of the whole empty run.
proof fn lemma_enc_empties(p: Pos, base: u64, f: u64, e: u64)
    requires
        base <= 56,
        f <= 8,
        e + 8 - f <= 8,
        forall|k: u64| f <= k < 8 ==> !#[trigger] bb_has(p.occ(), (base + k) as u64),
    ensures
        enc_rank(p, base, f, e) == (if e + 8 - f > 0 {
            seq![digit_char(e + 8 - f)]
        } else {
            Seq::<char>::empty()
        }),
    decreases 8 - f,
{
    if f < 8 {
        lemma_enc_empties(p, base, (f + 1) as u64, (e + 1) as u64);
    }
}

/// An encoded rank that runs over empty files up to an occupied square
/// writes the run's digit, the piece's letter, and the rest of the rank.
proof fn lemma_enc_to_occupied(p: Pos, base: u64, f: u64, e: u64, f2: u64)
    requires
        base <= 56,
        f <= f2 < 8,
        e + f2 - f <= 8,
        forall|k: u64| f <= k < f2 ==> !#[trigger] bb_has(p.occ(), (base + k) as u64),
        bb_has(p.occ(), (base + f2) as u64),
    ensures
        enc_rank(p, base, f, e) == (if e + f2 - f > 0 {
            seq![digit_char(e + f2 - f)]
        } else {
            Seq::<char>::empty()
        }) + seq![placement_char(p, (base + f2) as u64)] + enc_rank(p, base, (f2 + 1) as u64, 0),
    decreases f2 - f,
{
    if f == f2 {
    } else {
        lemma_enc_to_occupied(p, base, (f + 1) as u64, (e + 1) as u64, f2);
    }
}

/// A token split joins back into the text it split.
proof fn lemma_take_token_join(s: Seq<char>)
    ensures
        take_token(s).0 + take_token(s).1 == s,
        forall|m: int| 0 <= m < take_token(s).0.len() ==> take_token(s).0[m] != ' ',
    decreases s.len(),
{
    if s.len() == 0 || s[0] == ' ' {
        assert(Seq::<char>::empty() + s =~= s);
    } else {
        let s1 = s.subrange(1, s.len() as int);
        lemma_take_token_join(s1);
        assert((seq![s[0]] + take_token(s1).0) + take_token(s1).1 =~= seq![s[0]] + (take_token(
            s1,
        ).0 + take_token(s1).1));
        assert(seq![s[0]] + s1 =~= s);
    }
}

/// Re-encoding a decoded rank gives back exactly the text that was read,
/// provided the text was canonical — no digit directly following another —
/// the placement held nothing yet on the rank's remaining files, and the
/// final position agrees there with what the whole decode built.
proof fn lemma_rank_reencode(s: Seq<char>, base: u64, f: u64, prev: bool, b: Placement, p: Pos)
    requires
        base <= 56,
        f <= 8,
        parse_rank(s, base, f, b) is Ok,
        canon_rank_scan(s, prev).0,
        forall|k: u64| f <= k < 8 ==> #[trigger] pl_empty_at(b, (base + k) as u64),
        forall|k: u64|
            f <= k < 8 ==> #[trigger] pos_pl_eq_at(
                p,
                parse_rank(s, base, f, b)->Ok_0.0,
                (base + k) as u64,
            ),
    ensures
        enc_rank(p, base, f, 0) + parse_rank(s, base, f, b)->Ok_0.1 == s,
        canon_rank_scan(s, prev).1 == parse_rank(s, base, f, b)->Ok_0.1,
    decreases s.len(),
{
    let b2 = parse_rank(s, base, f, b)->Ok_0.0;
    let rest = parse_rank(s, base, f, b)->Ok_0.1;
    if s.len() == 0 || s[0] == '/' || s[0] == ' ' {
        // the rank ended: all eight files were crossed
        assert(f == 8);
        assert(enc_rank(p, base, 8, 0) =~= Seq::<char>::empty());
        assert(Seq::<char>::empty() + s =~= s);
    } else if is_rank_digit(s[0]) {
        let d = (rank_index(s[0]) + 1) as u64;
        let f2 = (f + d) as u64;
        assert(f2 <= 8);
        let s1 = s.subrange(1, s.len() as int);
        assert(parse_rank(s1, base, f2, b) == parse_rank(s, base, f, b));
        assert(!prev);
        assert(canon_rank_scan(s1, true).0);
        // the files the digit skips stay empty through the rest of the rank
        assert forall|k: u64| f <= k < f2 implies #[trigger] pl_empty_at(b2, (base + k) as u64) by {
            assert(pl_empty_at(b, (base + k) as u64));
            lemma_parse_rank_frame(s1, base, f2, b, (base + k) as u64);
            assert(pl_eq_at(parse_rank(s1, base, f2, b)->Ok_0.0, b, (base + k) as u64));
        }
        assert forall|k: u64| f <= k < f2 implies !#[trigger] bb_has(p.occ(), (base + k) as u64) by {
            assert(pos_pl_eq_at(p, parse_rank(s, base, f, b)->Ok_0.0, (base + k) as u64));
            assert(pl_empty_at(b2, (base + k) as u64));
            crate::square::lemma_bb_ops(p.white, p.black, (base + k) as u64);
        }
        if f2 == 8 {
            // the digit closed the rank
            assert(parse_rank(s1, base, 8, b) is Ok);
            assert(s1.len() == 0 || s1[0] == '/' || s1[0] == ' ') by {
                if s1.len() > 0 && s1[0] != '/' && s1[0] != ' ' {
                    if is_rank_digit(s1[0]) {
                        assert(!canon_rank_scan(s1, true).0);
                    } else {
                        assert(parse_rank(s1, base, 8, b) is Err);
                    }
                }
            }
            assert(rest == s1);
            lemma_enc_empties(p, base, f, 0);
            assert(enc_rank(p, base, f, 0) == seq![digit_char(8 - f as int)]);
            assert(digit_char(d as int) == s[0]);
            assert(seq![s[0]] + s1 =~= s);
        } else {
            // a piece letter follows: the run of empties ends at f2
            assert(s1.len() > 0 && s1[0] != '/' && s1[0] != ' ' && !is_rank_digit(s1[0])) by {
                if s1.len() == 0 || s1[0] == '/' || s1[0] == ' ' {
                    assert(parse_rank(s1, base, f2, b) is Err);
                }
                if s1.len() > 0 && is_rank_digit(s1[0]) {
                    assert(!canon_rank_scan(s1, true).0);
                }
            }
            lemma_rank_reencode(s1, base, f2, true, b, p);
            assert(enc_rank(p, base, f2, 0) + rest == s1);
            // the square at f2 is occupied: the letter's piece was placed there
            let pcw = piece_of_char(s1[0])->0;
            let s2 = s1.subrange(1, s1.len() as int);
            let b1 = place(b, pcw.0, pcw.1, (base + f2) as u64);
            assert(parse_rank(s2, base, (f2 + 1) as u64, b1) == parse_rank(s, base, f, b));
            assert(pl_eq_at(b2, b1, (base + f2) as u64)) by {
                lemma_parse_rank_frame(s2, base, (f2 + 1) as u64, b1, (base + f2) as u64);
            }
            assert(bb_has(p.occ(), (base + f2) as u64)) by {
                lemma_place_bits(b, pcw.0, pcw.1, (base + f2) as u64, (base + f2) as u64);
                assert(pos_pl_eq_at(
                    p,
                    parse_rank(s, base, f, b)->Ok_0.0,
                    (base + f2) as u64,
                ));
                crate::square::lemma_bb_ops(p.white, p.black, (base + f2) as u64);
            }
            lemma_enc_to_occupied(p, base, f, 0, f2);
            assert(enc_rank(p, base, f2, 0) == seq![placement_char(p, (base + f2) as u64)]
                + enc_rank(p, base, (f2 + 1) as u64, 0)) by {
                lemma_enc_to_occupied(p, base, f2, 0, f2);
                assert(Seq::<char>::empty() + seq![placement_char(p, (base + f2) as u64)]
                    =~= seq![placement_char(p, (base + f2) as u64)]);
            }
            assert(digit_char(d as int) == s[0]);
            assert(enc_rank(p, base, f, 0) == seq![s[0]] + enc_rank(p, base, f2, 0)) by {
                assert((seq![digit_char(d as int)] + seq![placement_char(p, (base + f2) as u64)])
                    + enc_rank(p, base, (f2 + 1) as u64, 0) =~= seq![digit_char(d as int)] + (
                seq![placement_char(p, (base + f2) as u64)] + enc_rank(
                    p,
                    base,
                    (f2 + 1) as u64,
                    0,
                )));
            }
            assert((seq![s[0]] + enc_rank(p, base, f2, 0)) + rest =~= seq![s[0]] + (enc_rank(
                p,
                base,
                f2,
                0,
            ) + rest));
            assert(seq![s[0]] + s1 =~= s);
        }
    } else {
        // a piece letter at the file counter itself
        let c = s[0];
        assert(piece_of_char(c) is Some);
        let pcw = piece_of_char(c)->0;
        assert(f < 8);
        let i = (base + f) as u64;
        let s1 = s.subrange(1, s.len() as int);
        let b1 = place(b, pcw.0, pcw.1, i);
        assert(parse_rank(s1, base, (f + 1) as u64, b1) == parse_rank(s, base, f, b));
        assert(canon_rank_scan(s1, false).0);
        assert forall|k: u64| f + 1 <= k < 8 implies #[trigger] pl_empty_at(b1, (base + k) as u64) by {
            assert(pl_empty_at(b, (base + k) as u64));
            lemma_place_bits(b, pcw.0, pcw.1, i, (base + k) as u64);
        }
        lemma_rank_reencode(s1, base, (f + 1) as u64, false, b1, p);
        assert(pl_eq_at(b2, b1, i)) by {
            lemma_parse_rank_frame(s1, base, (f + 1) as u64, b1, i);
        }
        lemma_place_bits(b, pcw.0, pcw.1, i, i);
        assert(pl_empty_at(b, i));
        assert(pos_pl_eq_at(p, parse_rank(s, base, f, b)->Ok_0.0, i));
        assert(bb_has(p.occ(), i)) by {
            crate::square::lemma_bb_ops(p.white, p.black, i);
        }
        // the letter written back is the letter read
        assert(placement_char(p, i) == c);
        assert(enc_rank(p, base, f, 0) == seq![c] + enc_rank(p, base, (f + 1) as u64, 0)) by {
            lemma_enc_to_occupied(p, base, f, 0, f);
            assert(Seq::<char>::empty() + seq![placement_char(p, i)] =~= seq![
                placement_char(p, i),
            ]);
            assert((Seq::<char>::empty() + seq![placement_char(p, i)]) + enc_rank(
                p,
                base,
                (f + 1) as u64,
                0,
            ) =~= seq![c] + enc_rank(p, base, (f + 1) as u64, 0));
        }
        assert((seq![c] + enc_rank(p, base, (f + 1) as u64, 0)) + rest =~= seq![c] + (enc_rank(
            p,
            base,
            (f + 1) as u64,
            0,
        ) + rest));
        assert(seq![c] + s1 =~= s);
    }
}

/// A placement decode never touches the squares above its remaining ranks.
proof fn lemma_parse_ranks_frame(s: Seq<char>, r: u64, b: Placement, q: u64)
    requires
        r <= 8,
        q < 64,
        q >= 64 - 8 * r,
    ensures
        (match parse_ranks(s, r, b) {
            Ok(pr) => pl_eq_at(pr.0, b, q),
            Err(_) => true,
        }),
    decreases 8 - r,
{
    if r < 8 {
        let base = (56 - r * 8) as u64;
        lemma_parse_rank_frame(s, base, 0, b, q);
        match parse_rank(s, base, 0, b) {
            Ok(pr) => {
                if r < 7 {
                    let s2 = pr.1;
                    if s2.len() > 0 && s2[0] == '/' {
                        lemma_parse_ranks_frame(
                            s2.subrange(1, s2.len() as int),
                            (r + 1) as u64,
                            pr.0,
                            q,
                        );
                    }
                }
            },
            Err(_) => {},
        }
    }
}

/// Re-encoding a decoded placement gives back exactly the text that was
/// read, rank by rank, when the text is canonical.
proof fn lemma_ranks_reencode(s: Seq<char>, r: u64, b: Placement, p: Pos)
    requires
        r <= 7,
        parse_ranks(s, r, b) is Ok,
        canon_ranks_scan(s, r).0,
        forall|q: u64| q < 64 - 8 * r ==> #[trigger] pl_empty_at(b, q),
        forall|q: u64|
            q < 64 - 8 * r ==> #[trigger] pos_pl_eq_at(p, parse_ranks(s, r, b)->Ok_0.0, q),
    ensures
        enc_ranks(p, r) + parse_ranks(s, r, b)->Ok_0.1 == s,
        canon_ranks_scan(s, r).1 == parse_ranks(s, r, b)->Ok_0.1,
    decreases 8 - r,
{
    let base = (56 - r * 8) as u64;
    let b2 = parse_ranks(s, r, b)->Ok_0.0;
    let rest = parse_ranks(s, r, b)->Ok_0.1;
    let br = parse_rank(s, base, 0, b)->Ok_0.0;
    let sr = parse_rank(s, base, 0, b)->Ok_0.1;
    if r == 7 {
        assert(b2 == br && rest == sr);
        assert forall|k: u64| 0 <= k < 8 implies #[trigger] pl_empty_at(
            b,
            (base + k) as u64,
        ) by {
            assert(pl_empty_at(b, (base + k) as u64));
        }
        assert forall|k: u64| 0 <= k < 8 implies #[trigger] pos_pl_eq_at(
            p,
            parse_rank(s, base, 0, b)->Ok_0.0,
            (base + k) as u64,
        ) by {
            assert(pos_pl_eq_at(p, parse_ranks(s, r, b)->Ok_0.0, (base + k) as u64));
        }
        lemma_rank_reencode(s, base, 0, false, b, p);
        assert(enc_ranks(p, 7) == enc_rank(p, 0, 0, 0));
    } else {
        assert(sr.len() > 0 && sr[0] == '/');
        let s2 = sr.subrange(1, sr.len() as int);
        assert(parse_ranks(s2, (r + 1) as u64, br) == parse_ranks(s, r, b));
        // this rank's own squares agree between the final and this stage
        assert forall|k: u64| 0 <= k < 8 implies #[trigger] pos_pl_eq_at(
            p,
            parse_rank(s, base, 0, b)->Ok_0.0,
            (base + k) as u64,
        ) by {
            assert(pos_pl_eq_at(p, parse_ranks(s, r, b)->Ok_0.0, (base + k) as u64));
            lemma_parse_ranks_frame(s2, (r + 1) as u64, br, (base + k) as u64);
            assert(pl_eq_at(parse_ranks(s2, (r + 1) as u64, br)->Ok_0.0, br, (base + k) as u64));
        }
        assert forall|k: u64| 0 <= k < 8 implies #[trigger] pl_empty_at(
            b,
            (base + k) as u64,
        ) by {
            assert(pl_empty_at(b, (base + k) as u64));
        }
        lemma_rank_reencode(s, base, 0, false, b, p);
        assert(enc_rank(p, base, 0, 0) + sr == s);
        // the ranks below start from this rank's placement, still empty there
        assert forall|q: u64| q < 64 - 8 * (r + 1) implies #[trigger] pl_empty_at(br, q) by {
            assert(pl_empty_at(b, q));
            lemma_parse_rank_frame(s, base, 0, b, q);
        }
        assert forall|q: u64|
            q < 64 - 8 * (r + 1) implies #[trigger] pos_pl_eq_at(
                p,
                parse_ranks(s2, (r + 1) as u64, br)->Ok_0.0,
                q,
            ) by {
            assert(pos_pl_eq_at(p, parse_ranks(s, r, b)->Ok_0.0, q));
        }
        lemma_ranks_reencode(s2, (r + 1) as u64, br, p);
        assert(enc_ranks(p, (r + 1) as u64) + rest == s2);
        let a = enc_rank(p, base, 0, 0);
        let tail = enc_ranks(p, (r + 1) as u64);
        assert(enc_ranks(p, r) == a + seq!['/'] + tail);
        assert((a + seq!['/'] + tail) + rest =~= a + (seq!['/'] + (tail + rest)));
        assert(seq!['/'] + s2 =~= sr);
    }
}

/// FEN canonicality: a FEN string in canonical form is exactly what its own
/// position encodes back to, so encoding after decoding returns the very
/// string that was read.
#[verifier::rlimit(100)]
#[verifier::spinoff_prover]
pub proof fn lemma_fen_canonical_round_trip(s: Seq<char>)
    requires
        decode_fen(s) is Ok,
        canonical_fen(s),
    ensures
        encode_fen(decode_fen(s)->Ok_0) == s,
{
    let p = decode_fen(s)->Ok_0;
    let b2 = parse_ranks(s, 0, empty_placement())->Ok_0.0;
    let s1 = parse_ranks(s, 0, empty_placement())->Ok_0.1;
    // the placement text
    assert forall|q: u64| q < 64 implies #[trigger] pl_empty_at(empty_placement(), q) by {
        crate::square::lemma_bb_ops(0, 0, q);
    }
    assert forall|q: u64|
        q < 64 implies #[trigger] pos_pl_eq_at(
            p,
            parse_ranks(s, 0, empty_placement())->Ok_0.0,
            q,
        ) by {}
    lemma_ranks_reencode(s, 0, empty_placement(), p);
    assert(enc_ranks(p, 0) + s1 == s);
    assert(canon_ranks_scan(s, 0).1 == s1);
    assert(s1.len() > 0 && s1[0] == ' ');
    let s2 = s1.subrange(1, s1.len() as int);
    // the side to move
    let t1 = take_token(s2).0;
    let s3 = take_token(s2).1;
    lemma_take_token_join(s2);
    assert(t1 == seq!['w'] || t1 == seq!['b']);
    if t1 == seq!['w'] {
        assert(p.turn);
        assert(enc_turn(p) == t1);
    } else {
        assert(!(t1 =~= seq!['w']));
        assert(!p.turn);
        assert(enc_turn(p) == t1);
    }
    assert(s3.len() > 0 && s3[0] == ' ');
    let s4 = s3.subrange(1, s3.len() as int);
    // the castling rights
    let t2 = take_token(s4).0;
    let s5 = take_token(s4).1;
    lemma_take_token_join(s4);
    let (wk, wq, bk, bq) = choose|wk: bool, wq: bool, bk: bool, bq: bool|
        t2 == enc_castle_flags(wk, wq, bk, bq);
    lemma_castle_flags_field(wk, wq, bk, bq);
    assert(p.castle_wk == wk && p.castle_wq == wq && p.castle_bk == bk && p.castle_bq == bq);
    assert(enc_castle(p) == t2);
    assert(s5.len() > 0 && s5[0] == ' ');
    let s6 = s5.subrange(1, s5.len() as int);
    // the en-passant target
    let t3 = take_token(s6).0;
    let s7 = take_token(s6).1;
    lemma_take_token_join(s6);
    assert(parse_ep(t3) == Ok::<Option<u64>, FenParseError>(p.en_passant));
    match p.en_passant {
        None => {
            assert(t3 =~= seq!['-']);
            assert(enc_ep(p) == t3);
        },
        Some(e) => {
            assert(t3.len() == 2 && is_file_letter(t3[0]) && is_rank_digit(t3[1]));
            let fi = file_index(t3[0]);
            let ri = rank_index(t3[1]);
            assert(e == fi + 8 * ri);
            assert(e % 8 == fi && e / 8 == ri) by (nonlinear_arith)
                requires
                    e == fi + 8 * ri,
                    0 <= fi < 8,
                    0 <= ri < 8,
            ;
            assert(file_char(fi) == t3[0]);
            assert(rank_char(ri) == t3[1]);
            assert(square_name_seq(e) =~= t3);
            assert(enc_ep(p) == t3);
        },
    }
    assert(s7.len() > 0 && s7[0] == ' ');
    let s8 = s7.subrange(1, s7.len() as int);
    // the half-move clock
    let t4 = take_token(s8).0;
    let s9 = take_token(s8).1;
    lemma_take_token_join(s8);
    assert(parse_u32(t4) == Ok::<u32, FenParseError>(p.half_move));
    lemma_dec_val_nonneg(t4);
    lemma_dec_digits_inv(t4);
    assert(p.half_move as int == dec_val(t4));
    assert(dec_digits(p.half_move as int) == t4);
    assert(s9.len() > 0 && s9[0] == ' ');
    let s10 = s9.subrange(1, s9.len() as int);
    // the full-move number
    let t5 = take_token(s10).0;
    let s11 = take_token(s10).1;
    lemma_take_token_join(s10);
    assert(parse_u32(t5) == Ok::<u32, FenParseError>(p.full_move));
    lemma_dec_val_nonneg(t5);
    lemma_dec_digits_inv(t5);
    assert(p.full_move as int == dec_val(t5));
    assert(dec_digits(p.full_move as int) == t5);
    assert(s11.len() == 0);
    // assemble the six fields back into the string
    assert(t5 + s11 =~= t5);
    assert(seq![' '] + s10 =~= s9);
    assert(t4 + s9 =~= s8);
    assert(seq![' '] + s8 =~= s7);
    assert(t3 + s7 =~= s6);
    assert(seq![' '] + s6 =~= s5);
    assert(t2 + s5 =~= s4);
    assert(seq![' '] + s4 =~= s3);
    assert(t1 + s3 =~= s2);
    assert(seq![' '] + s2 =~= s1);
    assert(encode_fen(p) =~= s);
}

} // verus!
