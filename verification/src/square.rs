//! Squares and board masks.
//!
//! A square is an index `0..64`, rank-major with a1 = 0 and h8 = 63, so the
//! square at file `f` and rank `r` (both `0..8`) has index `f + 8 * r`.  A
//! bitboard is a `u64` in which bit `i` stands for square `i`.

use vstd::prelude::*;

verus! {

/// All squares of file a (the file of index 0).
pub const FILE_A: u64 = 0x0101010101010101;

/// All squares of file b.
pub const FILE_B: u64 = 0x0202020202020202;

/// All squares of file c.
pub const FILE_C: u64 = 0x0404040404040404;

/// All squares of file d.
pub const FILE_D: u64 = 0x0808080808080808;

/// All squares of file e.
pub const FILE_E: u64 = 0x1010101010101010;

/// All squares of file f.
pub const FILE_F: u64 = 0x2020202020202020;

/// All squares of file g.
pub const FILE_G: u64 = 0x4040404040404040;

/// All squares of file h (the file of index 7).
pub const FILE_H: u64 = 0x8080808080808080;

/// All squares of rank 1 (the rank of index 0, where White's pieces start).
pub const RANK_1: u64 = 0x00000000000000FF;

/// All squares of rank 2.
pub const RANK_2: u64 = 0x000000000000FF00;

/// All squares of rank 3.
pub const RANK_3: u64 = 0x0000000000FF0000;

/// All squares of rank 4.
pub const RANK_4: u64 = 0x00000000FF000000;

/// All squares of rank 5.
pub const RANK_5: u64 = 0x000000FF00000000;

/// All squares of rank 6.
pub const RANK_6: u64 = 0x0000FF0000000000;

/// All squares of rank 7.
pub const RANK_7: u64 = 0x00FF000000000000;

/// All squares of rank 8 (the rank of index 7, where Black's pieces start).
pub const RANK_8: u64 = 0xFF00000000000000;

/// The single-square mask of square `i`.
pub open spec fn sq_bb(i: u64) -> u64 {
    1u64 << i
}

/// True when square `i` belongs to the board set `bb`.
pub open spec fn bb_has(bb: u64, i: u64) -> bool {
    bb & sq_bb(i) != 0
}

/// The file (column) of square `i`.
pub open spec fn file_of(i: u64) -> u64 {
    i % 8
}

/// The rank (row) of square `i`.
pub open spec fn rank_of(i: u64) -> u64 {
    i / 8
}

/// A single-square mask holds exactly its own square: `sq_bb(i)` has square
/// `j` if and only if `i == j`.
pub proof fn lemma_sq_bb_has(i: u64, j: u64)
    by (bit_vector)
    requires
        i < 64,
        j < 64,
    ensures
        bb_has(sq_bb(i), j) <==> i == j,
{
}

/// Membership distributes over union: a square is in `a | b` exactly when it
/// is in `a` or in `b`; and over intersection and complement likewise.
pub proof fn lemma_bb_ops(a: u64, b: u64, i: u64)
    by (bit_vector)
    requires
        i < 64,
    ensures
        bb_has(a | b, i) <==> bb_has(a, i) || bb_has(b, i),
        bb_has(a & b, i) <==> bb_has(a, i) && bb_has(b, i),
        bb_has(!a, i) <==> !bb_has(a, i),
        bb_has(0u64, i) == false,
{
}

/// Union is associative and has the empty board as unit; stated for the
/// operands at hand so that accumulation loops can rearrange their masks.
pub proof fn lemma_or_assoc_zero(a: u64, b: u64, c: u64)
    by (bit_vector)
    ensures
        a | (b | c) == (a | b) | c,
        (a | b) | 0 == a | b,
        0 | a == a,
        a | 0 == a,
{
}

/// Removing squares: a square is in `a & !m` exactly when it is in `a` and
/// not in `m`.
pub proof fn lemma_bb_and_not(a: u64, m: u64, i: u64)
    by (bit_vector)
    requires
        i < 64,
    ensures
        bb_has(a & !m, i) <==> (bb_has(a, i) && !bb_has(m, i)),
{
}

/// The lowercase letter of file `f`.
pub open spec fn file_char(f: u64) -> char {
    if f == 0 {
        'a'
    } else if f == 1 {
        'b'
    } else if f == 2 {
        'c'
    } else if f == 3 {
        'd'
    } else if f == 4 {
        'e'
    } else if f == 5 {
        'f'
    } else if f == 6 {
        'g'
    } else {
        'h'
    }
}

/// The digit of rank `r`, counted from 1: rank index 0 prints as '1'.
pub open spec fn rank_char(r: u64) -> char {
    if r == 0 {
        '1'
    } else if r == 1 {
        '2'
    } else if r == 2 {
        '3'
    } else if r == 3 {
        '4'
    } else if r == 4 {
        '5'
    } else if r == 5 {
        '6'
    } else if r == 6 {
        '7'
    } else {
        '8'
    }
}

/// The two-character name of square `i`, file letter then rank digit.
pub open spec fn square_name_seq(i: u64) -> Seq<char> {
    seq![file_char(file_of(i)), rank_char(rank_of(i))]
}

/// The name of file `f` as a one-character string.
pub fn file_str(f: u64) -> (r: &'static str)
    requires
        f < 8,
    ensures
        r@ =~= seq![file_char(f)],
{
    proof {
        reveal_strlit("a");
        reveal_strlit("b");
        reveal_strlit("c");
        reveal_strlit("d");
        reveal_strlit("e");
        reveal_strlit("f");
        reveal_strlit("g");
        reveal_strlit("h");
    }
    if f == 0 {
        "a"
    } else if f == 1 {
        "b"
    } else if f == 2 {
        "c"
    } else if f == 3 {
        "d"
    } else if f == 4 {
        "e"
    } else if f == 5 {
        "f"
    } else if f == 6 {
        "g"
    } else {
        "h"
    }
}

/// The name of rank `r` as a one-character string.
pub fn rank_str(r: u64) -> (s: &'static str)
    requires
        r < 8,
    ensures
        s@ =~= seq![rank_char(r)],
{
    proof {
        reveal_strlit("1");
        reveal_strlit("2");
        reveal_strlit("3");
        reveal_strlit("4");
        reveal_strlit("5");
        reveal_strlit("6");
        reveal_strlit("7");
        reveal_strlit("8");
    }
    if r == 0 {
        "1"
    } else if r == 1 {
        "2"
    } else if r == 2 {
        "3"
    } else if r == 3 {
        "4"
    } else if r == 4 {
        "5"
    } else if r == 5 {
        "6"
    } else if r == 6 {
        "7"
    } else {
        "8"
    }
}

/// The name of square `i`, such as "e4".
pub fn square_name(i: u64) -> (s: String)
    requires
        i < 64,
    ensures
        s@ =~= square_name_seq(i),
{
    let f = file_str(i % 8);
    let r = rank_str(i / 8);
    let out = String::from_str(f).concat(r);
    assert(out@ =~= square_name_seq(i));
    out
}

} // verus!
