use vstd::prelude::*;

verus! {

broadcast use vstd::std_specs::bits::group_bits_axioms;

/// The all-ones bitboard: every square set.
pub const FILL: u64 = 0xffff_ffff_ffff_ffff;

// ---------------------------------------------------------------------------
// The square model: a bitboard is a u64 whose bit `file + 8 * rank` stands
// for the square at that file and rank, each coordinate running 0..8.
// ---------------------------------------------------------------------------

/// True when square `i` is set in the bitboard `m`.
pub open spec fn bit_at(m: u64, i: u64) -> bool {
    (m >> i) & 1u64 == 1u64
}

/// The index of the least-significant set square (64 when the board is empty).
pub open spec fn low_bit(m: u64) -> u64 {
    vstd::std_specs::bits::u64_trailing_zeros(m) as u64
}

/// The index of the most-significant set square.
pub open spec fn high_bit(m: u64) -> u64
    recommends
        m != 0,
{
    (63 - vstd::std_specs::bits::u64_leading_zeros(m)) as u64
}

/// A bitboard with exactly one square set.
pub open spec fn one_bit(m: u64) -> bool {
    exists|i: u64| i < 64 && m == (1u64 << i)
}

/// The file (column) of a square index.
pub open spec fn file_of(i: u64) -> u64 {
    i % 8
}

/// The rank (row) of a square index.
pub open spec fn rank_of(i: u64) -> u64 {
    i / 8
}

/// Left shift that yields zero once every bit is pushed out.
pub open spec fn shl64(x: u64, s: u64) -> u64 {
    if s >= 64 {
        0u64
    } else {
        x << s
    }
}

/// Right shift that yields zero once every bit is pushed out.
pub open spec fn shr64(x: u64, s: u64) -> u64 {
    if s >= 64 {
        0u64
    } else {
        x >> s
    }
}

// ---------------------------------------------------------------------------
// Bit-level lemmas
// ---------------------------------------------------------------------------

/// A bit is either zero or one.
pub proof fn lemma_bit01(m: u64, j: u64)
    ensures
        (m >> j) & 1u64 == 0u64 <==> !bit_at(m, j),
{
    assert((m >> j) & 1u64 == 0u64 || (m >> j) & 1u64 == 1u64) by (bit_vector);
}

/// Intersecting with a one-hot mask tests its square.
pub proof fn lemma_bit_test(m: u64, j: u64)
    requires
        j < 64,
    ensures
        (m & (1u64 << j) != 0) <==> bit_at(m, j),
{
    assert((m & (1u64 << j) != 0) <==> ((m >> j) & 1u64 == 1u64)) by (bit_vector)
        requires
            j < 64,
    ;
}

/// Squares of an intersection are the common squares.
pub proof fn lemma_bit_and(a: u64, b: u64, j: u64)
    requires
        j < 64,
    ensures
        bit_at(a & b, j) <==> bit_at(a, j) && bit_at(b, j),
{
    assert((((a & b) >> j) & 1u64 == 1u64) <==> ((a >> j) & 1u64 == 1u64 && (b >> j) & 1u64
        == 1u64)) by (bit_vector);
}

/// Squares of a union are the squares of either side.
pub proof fn lemma_bit_or(a: u64, b: u64, j: u64)
    requires
        j < 64,
    ensures
        bit_at(a | b, j) <==> bit_at(a, j) || bit_at(b, j),
{
    assert((((a | b) >> j) & 1u64 == 1u64) <==> ((a >> j) & 1u64 == 1u64 || (b >> j) & 1u64
        == 1u64)) by (bit_vector);
}

/// Squares of a complement are the squares not set.
pub proof fn lemma_bit_not(a: u64, j: u64)
    requires
        j < 64,
    ensures
        bit_at(!a, j) <==> !bit_at(a, j),
{
    assert((((!a) >> j) & 1u64 == 1u64) <==> !((a >> j) & 1u64 == 1u64)) by (bit_vector)
        requires
            j < 64,
    ;
}

/// A left shift moves every square up by the shift amount.
pub proof fn lemma_bit_shl(x: u64, s: u64, j: u64)
    requires
        s < 64,
        j < 64,
    ensures
        bit_at(x << s, j) <==> j >= s && bit_at(x, (j - s) as u64),
{
    assert((((x << s) >> j) & 1u64 == 1u64) <==> (j >= s && (x >> (j - s) as u64) & 1u64 == 1u64))
        by (bit_vector)
        requires
            s < 64,
            j < 64,
    ;
}

/// A right shift moves every square down by the shift amount.
pub proof fn lemma_bit_shr(x: u64, s: u64, j: u64)
    requires
        s < 64,
        j < 64,
    ensures
        bit_at(x >> s, j) <==> j + s < 64 && bit_at(x, (j + s) as u64),
{
    assert((((x >> s) >> j) & 1u64 == 1u64) <==> (j + s < 64 && (x >> ((j + s) as u64)) & 1u64
        == 1u64)) by (bit_vector)
        requires
            s < 64,
            j < 64,
    ;
}

/// A one-hot mask holds exactly its own square.
pub proof fn lemma_bit_sq(i: u64, j: u64)
    requires
        i < 64,
        j < 64,
    ensures
        bit_at(1u64 << i, j) <==> i == j,
        (1u64 << i) != 0u64,
{
    assert(((((1u64 << i) >> j) & 1u64 == 1u64) <==> i == j) && (1u64 << i) != 0u64)
        by (bit_vector)
        requires
            i < 64,
            j < 64,
    ;
}

/// The full board holds every square; the empty board holds none.
pub proof fn lemma_bit_full_empty(j: u64)
    requires
        j < 64,
    ensures
        bit_at(FILL, j),
        !bit_at(0u64, j),
{
    assert((0xffff_ffff_ffff_ffffu64 >> j) & 1u64 == 1u64 && (0u64 >> j) & 1u64 == 0u64)
        by (bit_vector)
        requires
            j < 64,
    ;
}

/// The least set square of a nonempty board: it is set, and nothing below it is.
pub proof fn lemma_low_bit(m: u64)
    requires
        m != 0,
    ensures
        low_bit(m) < 64,
        bit_at(m, low_bit(m)),
        forall|j: u64| j < low_bit(m) ==> !bit_at(m, j),
{
    assert forall|j: u64| j < low_bit(m) implies !bit_at(m, j) by {
        lemma_bit01(m, j);
    }
}

/// The greatest set square of a nonempty board: it is set, and nothing above it is.
pub proof fn lemma_high_bit(m: u64)
    requires
        m != 0,
    ensures
        high_bit(m) < 64,
        bit_at(m, high_bit(m)),
        forall|j: u64| high_bit(m) < j < 64 ==> !bit_at(m, j),
{
    let lz = vstd::std_specs::bits::u64_leading_zeros(m);
    let h = (63 - lz) as u64;
    assert((m >> h) & 1u64 != 0u64);
    lemma_bit01(m, h);
    assert forall|j: u64| high_bit(m) < j < 64 implies !bit_at(m, j) by {
        assert((m >> j) & 1u64 == 0u64);
        lemma_bit01(m, j);
    }
}

/// A one-hot mask and its square index determine each other.
pub proof fn lemma_one_bit(m: u64)
    requires
        one_bit(m),
    ensures
        m != 0,
        low_bit(m) < 64,
        m == (1u64 << low_bit(m)),
        bit_at(m, low_bit(m)),
        forall|j: u64| j < 64 && j != low_bit(m) ==> !bit_at(m, j),
{
    let i = choose|i: u64| i < 64 && m == (1u64 << i);
    lemma_bit_sq(i, i);
    lemma_low_bit(m);
    lemma_bit_sq(i, low_bit(m));
    assert forall|j: u64| j < 64 && j != low_bit(m) implies !bit_at(m, j) by {
        lemma_bit_sq(i, j);
    }
}

/// The one-hot mask of a square is a one-square board with that index.
pub proof fn lemma_one_bit_intro(i: u64)
    requires
        i < 64,
    ensures
        one_bit(1u64 << i),
        low_bit(1u64 << i) == i,
{
    assert(one_bit(1u64 << i));
    lemma_one_bit(1u64 << i);
    lemma_bit_sq(i, low_bit(1u64 << i));
}

// ---------------------------------------------------------------------------
// Coordinate conversions
// ---------------------------------------------------------------------------

/// The square index of a file and rank.
pub fn flatten(x: u8, y: u8) -> (r: usize)
    requires
        x < 8,
        y < 8,
    ensures
        r == x + 8 * y,
        r < 64,
{
    proof {
        assert(x < 8 && y < 8 ==> (x | (y << 3)) == x + 8 * y) by (bit_vector);
    }
    (x | (y << 3)) as usize
}

/// The one-hot mask of a square index.
pub fn bit(b: u64) -> (r: u64)
    requires
        b < 64,
    ensures
        r == (1u64 << b),
        one_bit(r),
        low_bit(r) == b,
{
    proof {
        lemma_one_bit_intro(b);
    }
    1u64 << b
}

/// Right shift by any amount; an over-wide shift empties the board.
pub fn shr_unchecked(x: u64, s: u64) -> (r: u64)
    ensures
        r == shr64(x, s),
{
    if s >= 64 {
        0u64
    } else {
        x >> s
    }
}

/// Left shift by any amount; an over-wide shift empties the board.
pub fn shl_unchecked(x: u64, s: u64) -> (r: u64)
    ensures
        r == shl64(x, s),
{
    if s >= 64 {
        0u64
    } else {
        x << s
    }
}

/// The one-hot mask of a file and rank.
pub fn flatten_bit(x: u8, y: u8) -> (r: u64)
    requires
        x < 8,
        y < 8,
    ensures
        r == (1u64 << ((x + 8 * y) as u64)),
        one_bit(r),
        low_bit(r) == x + 8 * y,
        file_of(low_bit(r)) == x,
        rank_of(low_bit(r)) == y,
{
    let i = flatten(x, y);
    let r = bit(i as u64);
    proof {
        assert(((x + 8 * y) as u64) % 8 == x && ((x + 8 * y) as u64) / 8 == y) by (nonlinear_arith)
            requires
                x < 8,
                y < 8,
        ;
    }
    r
}

/// The file and rank of a square index.
pub fn unflatten(i: usize) -> (r: (u8, u8))
    requires
        i < 64,
    ensures
        r.0 == file_of(i as u64),
        r.1 == rank_of(i as u64),
        r.0 < 8,
        r.1 < 8,
{
    let k = i as u64;
    proof {
        assert(k < 64 ==> (k & 7) == k % 8 && (k >> 3u64) == k / 8 && k % 8 < 8 && k / 8 < 8)
            by (bit_vector);
    }
    ((k & 7) as u8, (k >> 3u64) as u8)
}

/// The file and rank of the least set square of a nonempty board.
pub fn unflatten_bit(m: u64) -> (r: (u8, u8))
    requires
        m != 0,
    ensures
        r.0 == file_of(low_bit(m)),
        r.1 == rank_of(low_bit(m)),
        r.0 < 8,
        r.1 < 8,
{
    proof {
        lemma_low_bit(m);
    }
    unflatten(m.trailing_zeros() as usize)
}

// ---------------------------------------------------------------------------
// Fill operations: mark every square from a reference square toward one
// edge of the board. They clip sliding rays at the first blocking piece.
// On an empty input every fill yields the full board: "no blocker found"
// reads as "ray fully open".
// ---------------------------------------------------------------------------

/// Squares at or above the lowest set square; the full board when `m == 0`.
pub open spec fn fill_left_incl_spec(m: u64) -> u64 {
    if m == 0 {
        FILL
    } else {
        shl64(FILL, low_bit(m))
    }
}

/// Squares strictly above the lowest set square; the full board when `m == 0`.
pub open spec fn fill_left_excl_spec(m: u64) -> u64 {
    if m == 0 {
        FILL
    } else {
        shl64(FILL, (low_bit(m) + 1) as u64)
    }
}

/// Squares at or below the highest set square; the full board when `m == 0`.
pub open spec fn fill_right_incl_spec(m: u64) -> u64 {
    if m == 0 {
        FILL
    } else {
        shr64(FILL, (63 - high_bit(m)) as u64)
    }
}

/// Squares strictly below the highest set square; the full board when `m == 0`.
pub open spec fn fill_right_excl_spec(m: u64) -> u64 {
    if m == 0 {
        FILL
    } else {
        shr64(FILL, (64 - high_bit(m)) as u64)
    }
}

pub proof fn lemma_fill_left_incl(m: u64, j: u64)
    requires
        j < 64,
    ensures
        bit_at(fill_left_incl_spec(m), j) <==> (m == 0 || j >= low_bit(m)),
{
    if m == 0 {
        lemma_bit_full_empty(j);
    } else {
        lemma_low_bit(m);
        lemma_bit_shl(FILL, low_bit(m), j);
        if j >= low_bit(m) {
            lemma_bit_full_empty((j - low_bit(m)) as u64);
        }
    }
}

pub proof fn lemma_fill_left_excl(m: u64, j: u64)
    requires
        j < 64,
    ensures
        bit_at(fill_left_excl_spec(m), j) <==> (m == 0 || j > low_bit(m)),
{
    if m == 0 {
        lemma_bit_full_empty(j);
    } else {
        lemma_low_bit(m);
        let s = (low_bit(m) + 1) as u64;
        if s >= 64 {
            lemma_bit_full_empty(j);
        } else {
            lemma_bit_shl(FILL, s, j);
            if j >= s {
                lemma_bit_full_empty((j - s) as u64);
            }
        }
    }
}

pub proof fn lemma_fill_right_incl(m: u64, j: u64)
    requires
        j < 64,
    ensures
        bit_at(fill_right_incl_spec(m), j) <==> (m == 0 || j <= high_bit(m)),
{
    if m == 0 {
        lemma_bit_full_empty(j);
    } else {
        lemma_high_bit(m);
        let s = (63 - high_bit(m)) as u64;
        lemma_bit_shr(FILL, s, j);
        if j + s < 64 {
            lemma_bit_full_empty((j + s) as u64);
        }
    }
}

pub proof fn lemma_fill_right_excl(m: u64, j: u64)
    requires
        j < 64,
    ensures
        bit_at(fill_right_excl_spec(m), j) <==> (m == 0 || j < high_bit(m)),
{
    if m == 0 {
        lemma_bit_full_empty(j);
    } else {
        lemma_high_bit(m);
        let s = (64 - high_bit(m)) as u64;
        if s >= 64 {
            lemma_bit_full_empty(j);
        } else {
            lemma_bit_shr(FILL, s, j);
            if j + s < 64 {
                lemma_bit_full_empty((j + s) as u64);
            }
        }
    }
}

/// Fills squares at or above the lowest set square of `m`, the whole board
/// when `m` is empty.
pub fn fill_left_incl(m: u64) -> (r: u64)
    ensures
        r == fill_left_incl_spec(m),
{
    if m == 0 {
        FILL
    } else {
        FILL << (m.trailing_zeros() as u64)
    }
}

/// Fills squares strictly above the lowest set square of `m`, the whole board
/// when `m` is empty.
pub fn fill_left_excl(m: u64) -> (r: u64)
    ensures
        r == fill_left_excl_spec(m),
{
    if m == 0 {
        FILL
    } else {
        shl_unchecked(FILL, m.trailing_zeros() as u64 + 1)
    }
}

/// Fills squares at or below the highest set square of `m`, the whole board
/// when `m` is empty.
pub fn fill_right_incl(m: u64) -> (r: u64)
    ensures
        r == fill_right_incl_spec(m),
{
    if m == 0 {
        FILL
    } else {
        FILL >> (m.leading_zeros() as u64)
    }
}

/// Fills squares strictly below the highest set square of `m`, the whole board
/// when `m` is empty.
pub fn fill_right_excl(m: u64) -> (r: u64)
    ensures
        r == fill_right_excl_spec(m),
{
    if m == 0 {
        FILL
    } else {
        shr_unchecked(FILL, m.leading_zeros() as u64 + 1)
    }
}

// ---------------------------------------------------------------------------
// Rank, file and diagonal masks
// ---------------------------------------------------------------------------

/// The rank (row) of squares containing square `i`.
pub open spec fn byte_mask_spec(i: u64) -> u64 {
    shl64(0xffu64, (8 * rank_of(i)) as u64)
}

/// The file (column) of squares containing square `i`.
pub open spec fn col_mask_spec(i: u64) -> u64 {
    shl64(0x0101_0101_0101_0101u64, file_of(i))
}

pub proof fn lemma_byte_mask(i: u64, j: u64)
    requires
        i < 64,
        j < 64,
    ensures
        bit_at(byte_mask_spec(i), j) <==> rank_of(j) == rank_of(i),
{
    assert(((0xffu64 << ((8 * (i / 8)) as u64)) >> j) & 1u64 == 1u64 <==> j / 8 == i / 8)
        by (bit_vector)
        requires
            i < 64,
            j < 64,
    ;
}

pub proof fn lemma_col_mask(i: u64, j: u64)
    requires
        i < 64,
        j < 64,
    ensures
        bit_at(col_mask_spec(i), j) <==> file_of(j) == file_of(i),
{
    assert(((0x0101_0101_0101_0101u64 << (i % 8)) >> j) & 1u64 == 1u64 <==> j % 8 == i % 8)
        by (bit_vector)
        requires
            i < 64,
            j < 64,
    ;
}

/// Fills the rank containing square `i`.
pub fn byte_mask(i: usize) -> (r: u64)
    requires
        i < 64,
    ensures
        r == byte_mask_spec(i as u64),
{
    let k = i as u64;
    proof {
        assert(k < 64 ==> (k & 0x38) == 8 * (k / 8) && 8 * (k / 8) < 64) by (bit_vector);
    }
    0xffu64 << (k & 0x38)
}

/// Fills the file containing square `i`.
pub fn col_mask(i: usize) -> (r: u64)
    requires
        i < 64,
    ensures
        r == col_mask_spec(i as u64),
{
    let k = i as u64;
    proof {
        assert((k & 7) == k % 8 && k % 8 < 8) by (bit_vector);
    }
    0x0101_0101_0101_0101u64 << (k & 7)
}

// ---------------------------------------------------------------------------
// Fill between two squares
// ---------------------------------------------------------------------------

/// Squares between the two set squares, both included.
pub open spec fn fill_between_incl_spec(b1: u64, b2: u64) -> u64 {
    (fill_left_incl_spec(b1) & fill_right_incl_spec(b2)) | (fill_left_incl_spec(b2)
        & fill_right_incl_spec(b1))
}

/// Squares strictly between the two set squares.
pub open spec fn fill_between_excl_spec(b1: u64, b2: u64) -> u64 {
    (fill_left_excl_spec(b1) & fill_right_excl_spec(b2)) | (fill_left_excl_spec(b2)
        & fill_right_excl_spec(b1))
}

/// One square is at its own index and no other.
pub proof fn lemma_one_bit_high(m: u64)
    requires
        one_bit(m),
    ensures
        high_bit(m) == low_bit(m),
{
    lemma_one_bit(m);
    lemma_high_bit(m);
}

pub proof fn lemma_fill_between_incl(b1: u64, b2: u64, j: u64)
    requires
        one_bit(b1),
        one_bit(b2),
        j < 64,
    ensures
        bit_at(fill_between_incl_spec(b1, b2), j) <==> (low_bit(b1) <= j <= low_bit(b2) || low_bit(
            b2,
        ) <= j <= low_bit(b1)),
{
    lemma_one_bit(b1);
    lemma_one_bit(b2);
    lemma_one_bit_high(b1);
    lemma_one_bit_high(b2);
    lemma_fill_left_incl(b1, j);
    lemma_fill_left_incl(b2, j);
    lemma_fill_right_incl(b1, j);
    lemma_fill_right_incl(b2, j);
    lemma_bit_and(fill_left_incl_spec(b1), fill_right_incl_spec(b2), j);
    lemma_bit_and(fill_left_incl_spec(b2), fill_right_incl_spec(b1), j);
    lemma_bit_or(
        fill_left_incl_spec(b1) & fill_right_incl_spec(b2),
        fill_left_incl_spec(b2) & fill_right_incl_spec(b1),
        j,
    );
}

pub proof fn lemma_fill_between_excl(b1: u64, b2: u64, j: u64)
    requires
        one_bit(b1),
        one_bit(b2),
        j < 64,
    ensures
        bit_at(fill_between_excl_spec(b1, b2), j) <==> (low_bit(b1) < j < low_bit(b2) || low_bit(
            b2,
        ) < j < low_bit(b1)),
{
    lemma_one_bit(b1);
    lemma_one_bit(b2);
    lemma_one_bit_high(b1);
    lemma_one_bit_high(b2);
    lemma_fill_left_excl(b1, j);
    lemma_fill_left_excl(b2, j);
    lemma_fill_right_excl(b1, j);
    lemma_fill_right_excl(b2, j);
    lemma_bit_and(fill_left_excl_spec(b1), fill_right_excl_spec(b2), j);
    lemma_bit_and(fill_left_excl_spec(b2), fill_right_excl_spec(b1), j);
    lemma_bit_or(
        fill_left_excl_spec(b1) & fill_right_excl_spec(b2),
        fill_left_excl_spec(b2) & fill_right_excl_spec(b1),
        j,
    );
}

/// Fills the squares between the two set squares, both included.
pub fn fill_between_incl(b1: u64, b2: u64) -> (r: u64)
    ensures
        r == fill_between_incl_spec(b1, b2),
{
    (fill_left_incl(b1) & fill_right_incl(b2)) | (fill_left_incl(b2) & fill_right_incl(b1))
}

/// Fills the squares strictly between the two set squares.
pub fn fill_between_excl(b1: u64, b2: u64) -> (r: u64)
    ensures
        r == fill_between_excl_spec(b1, b2),
{
    (fill_left_excl(b1) & fill_right_excl(b2)) | (fill_left_excl(b2) & fill_right_excl(b1))
}

// ---------------------------------------------------------------------------
// Diagonals through a square
// ---------------------------------------------------------------------------

/// The a1-h8 long diagonal: squares whose file equals their rank.
pub const DIAG_NEG: u64 = 0x8040_2010_0804_0201;

/// The h1-a8 long diagonal: squares whose file and rank sum to seven.
pub const DIAG_POS: u64 = 0x0102_0408_1020_4080;

/// The full falling diagonal through the square of `b`: squares with the
/// same file-minus-rank difference.
pub open spec fn neg_diag_spec(b: u64) -> u64
    recommends
        one_bit(b),
{
    let x = file_of(low_bit(b));
    let y = rank_of(low_bit(b));
    if x >= y {
        shr64(DIAG_NEG, ((x - y) * 8) as u64)
    } else {
        shl64(DIAG_NEG, ((y - x) * 8) as u64)
    }
}

/// The full rising diagonal through the square of `b`: squares with the
/// same file-plus-rank sum.
pub open spec fn pos_diag_spec(b: u64) -> u64
    recommends
        one_bit(b),
{
    let x = file_of(low_bit(b));
    let y = rank_of(low_bit(b));
    let z = (7 - x) as u64;
    if z >= y {
        shr64(DIAG_POS, ((z - y) * 8) as u64)
    } else {
        shl64(DIAG_POS, ((y - z) * 8) as u64)
    }
}

pub proof fn lemma_neg_diag(b: u64, j: u64)
    requires
        one_bit(b),
        j < 64,
    ensures
        bit_at(neg_diag_spec(b), j) <==> file_of(j) + rank_of(low_bit(b)) == file_of(low_bit(b))
            + rank_of(j),
{
    lemma_one_bit(b);
    let x = file_of(low_bit(b));
    let y = rank_of(low_bit(b));
    if x >= y {
        assert((x < 8 && y < 8 && x >= y && j < 64) ==> (((0x8040_2010_0804_0201u64 >> (((x - y)
            * 8) as u64)) >> j) & 1u64 == 1u64 <==> j % 8 + y == x + j / 8)) by (bit_vector);
    } else {
        assert((x < 8 && y < 8 && x < y && j < 64) ==> (((0x8040_2010_0804_0201u64 << (((y - x)
            * 8) as u64)) >> j) & 1u64 == 1u64 <==> j % 8 + y == x + j / 8)) by (bit_vector);
    }
}

pub proof fn lemma_pos_diag(b: u64, j: u64)
    requires
        one_bit(b),
        j < 64,
    ensures
        bit_at(pos_diag_spec(b), j) <==> file_of(j) + rank_of(j) == file_of(low_bit(b)) + rank_of(
            low_bit(b),
        ),
{
    lemma_one_bit(b);
    let x = file_of(low_bit(b));
    let y = rank_of(low_bit(b));
    let z = (7 - x) as u64;
    if z >= y {
        assert((x < 8 && y < 8 && 7 - x >= y && j < 64) ==> (((0x0102_0408_1020_4080u64 >> ((((7
            - x) - y) * 8) as u64)) >> j) & 1u64 == 1u64 <==> j % 8 + j / 8 == x + y))
            by (bit_vector);
    } else {
        assert((x < 8 && y < 8 && 7 - x < y && j < 64) ==> (((0x0102_0408_1020_4080u64 << (((y - (7
            - x)) * 8) as u64)) >> j) & 1u64 == 1u64 <==> j % 8 + j / 8 == x + y)) by (bit_vector);
    }
}

/// The full falling diagonal through the square of `b`.
pub fn neg_diag_through(b: u64) -> (r: u64)
    requires
        one_bit(b),
    ensures
        r == neg_diag_spec(b),
{
    proof {
        lemma_one_bit(b);
    }
    let p = unflatten_bit(b);
    if p.0 >= p.1 {
        DIAG_NEG >> (((p.0 - p.1) as u64) * 8)
    } else {
        DIAG_NEG << (((p.1 - p.0) as u64) * 8)
    }
}

/// The full rising diagonal through the square of `b`.
pub fn pos_diag_through(b: u64) -> (r: u64)
    requires
        one_bit(b),
    ensures
        r == pos_diag_spec(b),
{
    proof {
        lemma_one_bit(b);
    }
    let p = unflatten_bit(b);
    let z = 7 - p.0;
    if z >= p.1 {
        DIAG_POS >> (((z - p.1) as u64) * 8)
    } else {
        DIAG_POS << (((p.1 - z) as u64) * 8)
    }
}

// ---------------------------------------------------------------------------
// Rays between two squares: empty unless the squares are colinear.
// ---------------------------------------------------------------------------

/// The diagonal ray between the squares of `b1` and `b2`, endpoints included;
/// empty when they share no diagonal.
pub open spec fn diag_ray_between_incl_spec(b1: u64, b2: u64) -> u64
    recommends
        one_bit(b1),
{
    let dn = neg_diag_spec(b1);
    let dp = pos_diag_spec(b1);
    let d = (if dn & b2 != 0 {
        dn
    } else {
        0u64
    }) | (if dp & b2 != 0 {
        dp
    } else {
        0u64
    });
    d & fill_between_incl_spec(b1, b2)
}

/// The diagonal ray strictly between the squares of `b1` and `b2`.
pub open spec fn diag_ray_between_excl_spec(b1: u64, b2: u64) -> u64
    recommends
        one_bit(b1),
{
    let dn = neg_diag_spec(b1);
    let dp = pos_diag_spec(b1);
    let d = (if dn & b2 != 0 {
        dn
    } else {
        0u64
    }) | (if dp & b2 != 0 {
        dp
    } else {
        0u64
    });
    d & fill_between_excl_spec(b1, b2)
}

/// The rank or file ray between the squares of `b1` and `b2`, endpoints
/// included; empty when they share no rank or file.
pub open spec fn ortho_ray_between_incl_spec(b1: u64, b2: u64) -> u64
    recommends
        one_bit(b1),
{
    let h = byte_mask_spec(low_bit(b1));
    let v = col_mask_spec(low_bit(b1));
    let o = (if h & b2 != 0 {
        h
    } else {
        0u64
    }) | (if v & b2 != 0 {
        v
    } else {
        0u64
    });
    o & fill_between_incl_spec(b1, b2)
}

/// The rank or file ray strictly between the squares of `b1` and `b2`.
pub open spec fn ortho_ray_between_excl_spec(b1: u64, b2: u64) -> u64
    recommends
        one_bit(b1),
{
    let h = byte_mask_spec(low_bit(b1));
    let v = col_mask_spec(low_bit(b1));
    let o = (if h & b2 != 0 {
        h
    } else {
        0u64
    }) | (if v & b2 != 0 {
        v
    } else {
        0u64
    });
    o & fill_between_excl_spec(b1, b2)
}

/// The diagonal ray between the two squares, endpoints included.
pub fn diag_ray_between_incl(b1: u64, b2: u64) -> (r: u64)
    requires
        one_bit(b1),
    ensures
        r == diag_ray_between_incl_spec(b1, b2),
{
    let dn = neg_diag_through(b1);
    let dp = pos_diag_through(b1);
    let d = (if dn & b2 != 0 {
        dn
    } else {
        0u64
    }) | (if dp & b2 != 0 {
        dp
    } else {
        0u64
    });
    d & fill_between_incl(b1, b2)
}

/// The diagonal ray strictly between the two squares.
pub fn diag_ray_between_excl(b1: u64, b2: u64) -> (r: u64)
    requires
        one_bit(b1),
    ensures
        r == diag_ray_between_excl_spec(b1, b2),
{
    let dn = neg_diag_through(b1);
    let dp = pos_diag_through(b1);
    let d = (if dn & b2 != 0 {
        dn
    } else {
        0u64
    }) | (if dp & b2 != 0 {
        dp
    } else {
        0u64
    });
    d & fill_between_excl(b1, b2)
}

/// The rank or file ray between the two squares, endpoints included.
pub fn ortho_ray_between_incl(b1: u64, b2: u64) -> (r: u64)
    requires
        one_bit(b1),
    ensures
        r == ortho_ray_between_incl_spec(b1, b2),
{
    proof {
        lemma_one_bit(b1);
    }
    let i = b1.trailing_zeros() as usize;
    let h = byte_mask(i);
    let v = col_mask(i);
    let o = (if h & b2 != 0 {
        h
    } else {
        0u64
    }) | (if v & b2 != 0 {
        v
    } else {
        0u64
    });
    o & fill_between_incl(b1, b2)
}

/// The rank or file ray strictly between the two squares.
pub fn ortho_ray_between_excl(b1: u64, b2: u64) -> (r: u64)
    requires
        one_bit(b1),
    ensures
        r == ortho_ray_between_excl_spec(b1, b2),
{
    proof {
        lemma_one_bit(b1);
    }
    let i = b1.trailing_zeros() as usize;
    let h = byte_mask(i);
    let v = col_mask(i);
    let o = (if h & b2 != 0 {
        h
    } else {
        0u64
    }) | (if v & b2 != 0 {
        v
    } else {
        0u64
    });
    o & fill_between_excl(b1, b2)
}

/// What the rank-or-file ray means, square by square: a square lies on
/// `ortho_ray_between_excl_spec(b1, b2)` exactly when the two ends share a
/// rank or file, the square lies on that same line, and its index falls
/// strictly between theirs.
pub proof fn lemma_ortho_ray_between(b1: u64, b2: u64, j: u64)
    requires
        one_bit(b1),
        one_bit(b2),
        j < 64,
    ensures
        ({
            let p = low_bit(b1);
            let q = low_bit(b2);
            bit_at(ortho_ray_between_excl_spec(b1, b2), j) <==> ((rank_of(p) == rank_of(q)
                && rank_of(j) == rank_of(p)) || (file_of(p) == file_of(q) && file_of(j) == file_of(
                p,
            ))) && (p < j < q || q < j < p)
        }),
{
    lemma_one_bit(b1);
    lemma_one_bit(b2);
    let p = low_bit(b1);
    let q = low_bit(b2);
    let h = byte_mask_spec(p);
    let v = col_mask_spec(p);
    lemma_byte_mask(p, j);
    lemma_col_mask(p, j);
    lemma_byte_mask(p, q);
    lemma_col_mask(p, q);
    lemma_bit_test(h, q);
    lemma_bit_test(v, q);
    let o = (if h & b2 != 0 {
        h
    } else {
        0u64
    }) | (if v & b2 != 0 {
        v
    } else {
        0u64
    });
    lemma_bit_or(
        if h & b2 != 0 {
            h
        } else {
            0u64
        },
        if v & b2 != 0 {
            v
        } else {
            0u64
        },
        j,
    );
    lemma_bit_and(o, fill_between_excl_spec(b1, b2), j);
    lemma_fill_between_excl(b1, b2, j);
    lemma_bit_full_empty(j);
}

/// The inclusive rank-or-file ray, square by square: as
/// [`lemma_ortho_ray_between`], with both endpoints included.
pub proof fn lemma_ortho_ray_between_incl(b1: u64, b2: u64, j: u64)
    requires
        one_bit(b1),
        one_bit(b2),
        j < 64,
    ensures
        ({
            let p = low_bit(b1);
            let q = low_bit(b2);
            bit_at(ortho_ray_between_incl_spec(b1, b2), j) <==> ((rank_of(p) == rank_of(q)
                && rank_of(j) == rank_of(p)) || (file_of(p) == file_of(q) && file_of(j) == file_of(
                p,
            ))) && (p <= j <= q || q <= j <= p)
        }),
{
    lemma_one_bit(b1);
    lemma_one_bit(b2);
    let p = low_bit(b1);
    let q = low_bit(b2);
    let h = byte_mask_spec(p);
    let v = col_mask_spec(p);
    lemma_byte_mask(p, j);
    lemma_col_mask(p, j);
    lemma_byte_mask(p, q);
    lemma_col_mask(p, q);
    lemma_bit_test(h, q);
    lemma_bit_test(v, q);
    let o = (if h & b2 != 0 {
        h
    } else {
        0u64
    }) | (if v & b2 != 0 {
        v
    } else {
        0u64
    });
    lemma_bit_or(
        if h & b2 != 0 {
            h
        } else {
            0u64
        },
        if v & b2 != 0 {
            v
        } else {
            0u64
        },
        j,
    );
    lemma_bit_and(o, fill_between_incl_spec(b1, b2), j);
    lemma_fill_between_incl(b1, b2, j);
    lemma_bit_full_empty(j);
}

/// What the diagonal ray means, square by square.
pub proof fn lemma_diag_ray_between(b1: u64, b2: u64, j: u64)
    requires
        one_bit(b1),
        one_bit(b2),
        j < 64,
    ensures
        ({
            let p = low_bit(b1);
            let q = low_bit(b2);
            bit_at(diag_ray_between_excl_spec(b1, b2), j) <==> ((file_of(q) + rank_of(p) == file_of(
                p,
            ) + rank_of(q) && file_of(j) + rank_of(p) == file_of(p) + rank_of(j)) || (file_of(q)
                + rank_of(q) == file_of(p) + rank_of(p) && file_of(j) + rank_of(j) == file_of(p)
                + rank_of(p))) && (p < j < q || q < j < p)
        }),
{
    lemma_one_bit(b1);
    lemma_one_bit(b2);
    let p = low_bit(b1);
    let q = low_bit(b2);
    let dn = neg_diag_spec(b1);
    let dp = pos_diag_spec(b1);
    lemma_neg_diag(b1, j);
    lemma_pos_diag(b1, j);
    lemma_neg_diag(b1, q);
    lemma_pos_diag(b1, q);
    lemma_bit_test(dn, q);
    lemma_bit_test(dp, q);
    let d = (if dn & b2 != 0 {
        dn
    } else {
        0u64
    }) | (if dp & b2 != 0 {
        dp
    } else {
        0u64
    });
    lemma_bit_or(
        if dn & b2 != 0 {
            dn
        } else {
            0u64
        },
        if dp & b2 != 0 {
            dp
        } else {
            0u64
        },
        j,
    );
    lemma_bit_and(d, fill_between_excl_spec(b1, b2), j);
    lemma_fill_between_excl(b1, b2, j);
    lemma_bit_full_empty(j);
}

// ---------------------------------------------------------------------------
// Iteration over the set squares of a bitboard, lowest first
// ---------------------------------------------------------------------------

/// Yields each set square of a bitboard as a one-hot mask, lowest first.
pub struct BitIterator {
    value: u64,
    offset: u32,
}

impl BitIterator {
    /// The squares not yet yielded.
    pub closed spec fn pending(self) -> u64 {
        self.value
    }

    pub fn new(value: u64) -> (r: Self)
        ensures
            r.pending() == value,
    {
        BitIterator { value, offset: 0 }
    }

    /// The lowest remaining set square, removed from the pending set;
    /// `None` once every set square has been yielded.
    pub fn next(&mut self) -> (r: Option<u64>)
        ensures
            old(self).pending() == 0 ==> r is None && final(self).pending() == 0,
            old(self).pending() != 0 ==> {
                let b = 1u64 << low_bit(old(self).pending());
                r == Some(b) && final(self).pending() == (old(self).pending() & !b) && one_bit(b)
                    && (b & old(self).pending()) == b
            },
    {
        if self.value == 0 {
            None
        } else {
            proof {
                lemma_low_bit(self.value);
                lemma_one_bit_intro(low_bit(self.value));
                let m = self.value;
                let t = low_bit(m);
                assert((t < 64 && (m >> t) & 1u64 == 1u64) ==> ((1u64 << t) & m) == (1u64 << t))
                    by (bit_vector);
            }
            self.offset = self.value.trailing_zeros();
            let bit: u64 = 1u64 << (self.offset as u64);
            self.value = self.value & !bit;
            Some(bit)
        }
    }
}


} // verus!


