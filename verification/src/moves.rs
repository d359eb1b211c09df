use vstd::prelude::*;

use crate::utils::bit_at;
use crate::utils::file_of;
use crate::utils::rank_of;

verus! {

broadcast use vstd::std_specs::bits::group_bits_axioms, vstd::array::group_array_axioms;

// ---------------------------------------------------------------------------
// Geometric relations between two square indices
// ---------------------------------------------------------------------------

/// Distance between two coordinates.
pub open spec fn dist(a: u64, b: u64) -> u64 {
    if a >= b {
        (a - b) as u64
    } else {
        (b - a) as u64
    }
}

/// The squares lie on the same file.
pub open spec fn same_file(i: u64, j: u64) -> bool {
    file_of(i) == file_of(j)
}

/// The squares lie on the same rank.
pub open spec fn same_rank(i: u64, j: u64) -> bool {
    rank_of(i) == rank_of(j)
}

/// The squares lie on the same falling diagonal.
pub open spec fn same_neg_diag(i: u64, j: u64) -> bool {
    file_of(j) + rank_of(i) == file_of(i) + rank_of(j)
}

/// The squares lie on the same rising diagonal.
pub open spec fn same_pos_diag(i: u64, j: u64) -> bool {
    file_of(j) + rank_of(j) == file_of(i) + rank_of(i)
}

/// A king standing on square `i` may step to square `j`.
pub open spec fn king_adj(i: u64, j: u64) -> bool {
    i != j && dist(file_of(i), file_of(j)) <= 1 && dist(rank_of(i), rank_of(j)) <= 1
}

/// A knight standing on square `i` may jump to square `j`.
pub open spec fn knight_adj(i: u64, j: u64) -> bool {
    (dist(file_of(i), file_of(j)) == 1 && dist(rank_of(i), rank_of(j)) == 2) || (dist(
        file_of(i),
        file_of(j),
    ) == 2 && dist(rank_of(i), rank_of(j)) == 1)
}

/// A pawn standing on square `i` may step to square `j` in one of the two
/// forward directions; the caller masks by the side's own direction.
pub open spec fn pawn_move_adj(i: u64, j: u64) -> bool {
    same_file(i, j) && dist(rank_of(i), rank_of(j)) == 1
}

/// A pawn standing on square `i` attacks square `j` in one of the two
/// forward directions; the caller masks by the side's own direction.
pub open spec fn pawn_att_adj(i: u64, j: u64) -> bool {
    dist(file_of(i), file_of(j)) == 1 && dist(rank_of(i), rank_of(j)) == 1
}

// ---------------------------------------------------------------------------
// The precomputed geometry tables
// ---------------------------------------------------------------------------

/// Per-square move masks and open rays, built once at the start of a game
/// and immutable afterward. Every move generator reads them.
pub struct Moves {
    pub king_moves: [u64; 64],
    pub knight_moves: [u64; 64],
    pub pawn_moves: [u64; 64],
    pub pawn_attacks: [u64; 64],
    pub east: [u64; 64],
    pub north_east: [u64; 64],
    pub north: [u64; 64],
    pub north_west: [u64; 64],
    pub west: [u64; 64],
    pub south_west: [u64; 64],
    pub south: [u64; 64],
    pub south_east: [u64; 64],
    pub diag_pos: [u64; 64],
    pub diag_neg: [u64; 64],
}

impl Moves {
    /// Every table entry holds exactly the squares its geometric relation
    /// describes: move masks per piece kind, and open rays running from the
    /// square to the board edge in each of the eight directions.
    pub open spec fn wf(self) -> bool {
        &&& forall|i: u64, j: u64|
            i < 64 && j < 64 ==> (#[trigger] bit_at(self.king_moves@[i as int], j) <==> king_adj(
                i,
                j,
            ))
        &&& forall|i: u64, j: u64|
            i < 64 && j < 64 ==> (#[trigger] bit_at(self.knight_moves@[i as int], j)
                <==> knight_adj(i, j))
        &&& forall|i: u64, j: u64|
            i < 64 && j < 64 ==> (#[trigger] bit_at(self.pawn_moves@[i as int], j)
                <==> pawn_move_adj(i, j))
        &&& forall|i: u64, j: u64|
            i < 64 && j < 64 ==> (#[trigger] bit_at(self.pawn_attacks@[i as int], j)
                <==> pawn_att_adj(i, j))
        &&& forall|i: u64, j: u64|
            i < 64 && j < 64 ==> (#[trigger] bit_at(self.north@[i as int], j) <==> same_file(i, j)
                && j > i)
        &&& forall|i: u64, j: u64|
            i < 64 && j < 64 ==> (#[trigger] bit_at(self.south@[i as int], j) <==> same_file(i, j)
                && j < i)
        &&& forall|i: u64, j: u64|
            i < 64 && j < 64 ==> (#[trigger] bit_at(self.west@[i as int], j) <==> same_rank(i, j)
                && j > i)
        &&& forall|i: u64, j: u64|
            i < 64 && j < 64 ==> (#[trigger] bit_at(self.east@[i as int], j) <==> same_rank(i, j)
                && j < i)
        &&& forall|i: u64, j: u64|
            i < 64 && j < 64 ==> (#[trigger] bit_at(self.north_west@[i as int], j)
                <==> same_neg_diag(i, j) && j > i)
        &&& forall|i: u64, j: u64|
            i < 64 && j < 64 ==> (#[trigger] bit_at(self.south_east@[i as int], j)
                <==> same_neg_diag(i, j) && j < i)
        &&& forall|i: u64, j: u64|
            i < 64 && j < 64 ==> (#[trigger] bit_at(self.north_east@[i as int], j)
                <==> same_pos_diag(i, j) && j > i)
        &&& forall|i: u64, j: u64|
            i < 64 && j < 64 ==> (#[trigger] bit_at(self.south_west@[i as int], j)
                <==> same_pos_diag(i, j) && j < i)
        &&& forall|i: u64, j: u64|
            i < 64 && j < 64 ==> (#[trigger] bit_at(self.diag_neg@[i as int], j)
                <==> same_neg_diag(i, j))
        &&& forall|i: u64, j: u64|
            i < 64 && j < 64 ==> (#[trigger] bit_at(self.diag_pos@[i as int], j)
                <==> same_pos_diag(i, j))
    }
}

// Files that must be masked off before a shift so that a move cannot wrap
// around the board edge onto the neighbouring rank.
const NOT_FILE_A: u64 = 0xfefe_fefe_fefe_fefe;

const NOT_FILE_H: u64 = 0x7f7f_7f7f_7f7f_7f7f;

const NOT_FILE_AB: u64 = 0xfcfc_fcfc_fcfc_fcfc;

const NOT_FILE_GH: u64 = 0x3f3f_3f3f_3f3f_3f3f;

/// The king-move mask of one square.
fn king_mask_at(i: u64) -> (r: u64)
    requires
        i < 64,
    ensures
        forall|j: u64| j < 64 ==> (#[trigger] bit_at(r, j) <==> king_adj(i, j)),
{
    let b: u64 = 1u64 << i;
    let r: u64 = ((b & NOT_FILE_A) >> 1u64) | ((b & NOT_FILE_H) << 1u64) | (b << 8u64) | (b
        >> 8u64) | ((b & NOT_FILE_A) << 7u64) | ((b & NOT_FILE_H) << 9u64) | ((b & NOT_FILE_A)
        >> 9u64) | ((b & NOT_FILE_H) >> 7u64);
    proof {
        assert forall|j: u64| j < 64 implies (#[trigger] bit_at(r, j) <==> king_adj(i, j)) by {
            assert(bit_at(r, j) <==> king_adj(i, j)) by (bit_vector)
                requires
                    i < 64,
                    j < 64,
                    b == (1u64 << i),
                    r == ((b & 0xfefe_fefe_fefe_fefeu64) >> 1u64) | ((b
                        & 0x7f7f_7f7f_7f7f_7f7fu64) << 1u64) | (b << 8u64) | (b >> 8u64) | ((b
                        & 0xfefe_fefe_fefe_fefeu64) << 7u64) | ((b & 0x7f7f_7f7f_7f7f_7f7fu64)
                        << 9u64) | ((b & 0xfefe_fefe_fefe_fefeu64) >> 9u64) | ((b
                        & 0x7f7f_7f7f_7f7f_7f7fu64) >> 7u64),
            ;
        }
    }
    r
}

/// The knight-move mask of one square.
fn knight_mask_at(i: u64) -> (r: u64)
    requires
        i < 64,
    ensures
        forall|j: u64| j < 64 ==> (#[trigger] bit_at(r, j) <==> knight_adj(i, j)),
{
    let b: u64 = 1u64 << i;
    let r: u64 = ((b & NOT_FILE_A) << 15u64) | ((b & NOT_FILE_H) << 17u64) | ((b & NOT_FILE_AB)
        << 6u64) | ((b & NOT_FILE_GH) << 10u64) | ((b & NOT_FILE_GH) >> 6u64) | ((b & NOT_FILE_AB)
        >> 10u64) | ((b & NOT_FILE_H) >> 15u64) | ((b & NOT_FILE_A) >> 17u64);
    proof {
        assert forall|j: u64| j < 64 implies (#[trigger] bit_at(r, j) <==> knight_adj(i, j)) by {
            assert(bit_at(r, j) <==> knight_adj(i, j)) by (bit_vector)
                requires
                    i < 64,
                    j < 64,
                    b == (1u64 << i),
                    r == ((b & 0xfefe_fefe_fefe_fefeu64) << 15u64) | ((b
                        & 0x7f7f_7f7f_7f7f_7f7fu64) << 17u64) | ((b & 0xfcfc_fcfc_fcfc_fcfcu64)
                        << 6u64) | ((b & 0x3f3f_3f3f_3f3f_3f3fu64) << 10u64) | ((b
                        & 0x3f3f_3f3f_3f3f_3f3fu64) >> 6u64) | ((b & 0xfcfc_fcfc_fcfc_fcfcu64)
                        >> 10u64) | ((b & 0x7f7f_7f7f_7f7f_7f7fu64) >> 15u64) | ((b
                        & 0xfefe_fefe_fefe_fefeu64) >> 17u64),
            ;
        }
    }
    r
}

/// The pawn single-step mask of one square, both forward directions.
fn pawn_move_mask_at(i: u64) -> (r: u64)
    requires
        i < 64,
    ensures
        forall|j: u64| j < 64 ==> (#[trigger] bit_at(r, j) <==> pawn_move_adj(i, j)),
{
    let b: u64 = 1u64 << i;
    let r: u64 = (b << 8u64) | (b >> 8u64);
    proof {
        assert forall|j: u64| j < 64 implies (#[trigger] bit_at(r, j) <==> pawn_move_adj(i, j)) by {
            assert(bit_at(r, j) <==> pawn_move_adj(i, j)) by (bit_vector)
                requires
                    i < 64,
                    j < 64,
                    b == (1u64 << i),
                    r == (b << 8u64) | (b >> 8u64),
            ;
        }
    }
    r
}

/// The pawn attack mask of one square, both forward directions.
fn pawn_attack_mask_at(i: u64) -> (r: u64)
    requires
        i < 64,
    ensures
        forall|j: u64| j < 64 ==> (#[trigger] bit_at(r, j) <==> pawn_att_adj(i, j)),
{
    let b: u64 = 1u64 << i;
    let r: u64 = ((b & NOT_FILE_A) << 7u64) | ((b & NOT_FILE_H) << 9u64) | ((b & NOT_FILE_H)
        >> 7u64) | ((b & NOT_FILE_A) >> 9u64);
    proof {
        assert forall|j: u64| j < 64 implies (#[trigger] bit_at(r, j) <==> pawn_att_adj(i, j)) by {
            assert(bit_at(r, j) <==> pawn_att_adj(i, j)) by (bit_vector)
                requires
                    i < 64,
                    j < 64,
                    b == (1u64 << i),
                    r == ((b & 0xfefe_fefe_fefe_fefeu64) << 7u64) | ((b & 0x7f7f_7f7f_7f7f_7f7fu64)
                        << 9u64) | ((b & 0x7f7f_7f7f_7f7f_7f7fu64) >> 7u64) | ((b
                        & 0xfefe_fefe_fefe_fefeu64) >> 9u64),
            ;
        }
    }
    r
}

/// The open ray from a square straight up the board.
fn north_at(i: u64) -> (r: u64)
    requires
        i < 64,
    ensures
        forall|j: u64| j < 64 ==> (#[trigger] bit_at(r, j) <==> same_file(i, j) && j > i),
{
    let r: u64 = 0x0101_0101_0101_0100u64 << i;
    proof {
        assert forall|j: u64| j < 64 implies (#[trigger] bit_at(r, j) <==> same_file(i, j) && j
            > i) by {
            assert(bit_at(r, j) <==> (i % 8 == j % 8 && j > i)) by (bit_vector)
                requires
                    i < 64,
                    j < 64,
                    r == (0x0101_0101_0101_0100u64 << i),
            ;
        }
    }
    r
}

/// The open ray from a square straight down the board.
fn south_at(i: u64) -> (r: u64)
    requires
        i < 64,
    ensures
        forall|j: u64| j < 64 ==> (#[trigger] bit_at(r, j) <==> same_file(i, j) && j < i),
{
    let r: u64 = 0x0080_8080_8080_8080u64 >> (63 - i);
    proof {
        assert forall|j: u64| j < 64 implies (#[trigger] bit_at(r, j) <==> same_file(i, j) && j
            < i) by {
            assert(bit_at(r, j) <==> (i % 8 == j % 8 && j < i)) by (bit_vector)
                requires
                    i < 64,
                    j < 64,
                    r == (0x0080_8080_8080_8080u64 >> ((63 - i) as u64)),
            ;
        }
    }
    r
}

/// The open ray from a square along its rank toward higher files.
fn west_at(i: u64) -> (r: u64)
    requires
        i < 64,
    ensures
        forall|j: u64| j < 64 ==> (#[trigger] bit_at(r, j) <==> same_rank(i, j) && j > i),
{
    let r: u64 = (0xfeu64 << i) & crate::utils::byte_mask(i as usize);
    proof {
        assert forall|j: u64| j < 64 implies (#[trigger] bit_at(r, j) <==> same_rank(i, j) && j
            > i) by {
            assert(bit_at(r, j) <==> (i / 8 == j / 8 && j > i)) by (bit_vector)
                requires
                    i < 64,
                    j < 64,
                    r == ((0xfeu64 << i) & (0xffu64 << ((8 * (i / 8)) as u64))),
            ;
        }
    }
    r
}

/// The open ray from a square along its rank toward lower files.
fn east_at(i: u64) -> (r: u64)
    requires
        i < 64,
    ensures
        forall|j: u64| j < 64 ==> (#[trigger] bit_at(r, j) <==> same_rank(i, j) && j < i),
{
    let r: u64 = (0x7f00_0000_0000_0000u64 >> (63 - i)) & crate::utils::byte_mask(i as usize);
    proof {
        assert forall|j: u64| j < 64 implies (#[trigger] bit_at(r, j) <==> same_rank(i, j) && j
            < i) by {
            assert(bit_at(r, j) <==> (i / 8 == j / 8 && j < i)) by (bit_vector)
                requires
                    i < 64,
                    j < 64,
                    r == ((0x7f00_0000_0000_0000u64 >> ((63 - i) as u64)) & (0xffu64 << ((8 * (i
                        / 8)) as u64))),
            ;
        }
    }
    r
}

impl Moves {
    /// Builds every table. Each entry is proved to hold exactly the squares
    /// of its geometric relation.
    pub fn init() -> (r: Moves)
        ensures
            r.wf(),
    {
        let mut king_moves: [u64; 64] = [0u64;64];
        let mut knight_moves: [u64; 64] = [0u64;64];
        let mut pawn_moves: [u64; 64] = [0u64;64];
        let mut pawn_attacks: [u64; 64] = [0u64;64];
        let mut east: [u64; 64] = [0u64;64];
        let mut north_east: [u64; 64] = [0u64;64];
        let mut north: [u64; 64] = [0u64;64];
        let mut north_west: [u64; 64] = [0u64;64];
        let mut west: [u64; 64] = [0u64;64];
        let mut south_west: [u64; 64] = [0u64;64];
        let mut south: [u64; 64] = [0u64;64];
        let mut south_east: [u64; 64] = [0u64;64];
        let mut diag_pos: [u64; 64] = [0u64;64];
        let mut diag_neg: [u64; 64] = [0u64;64];

        let mut i: usize = 0;
        while i < 64
            invariant
                i <= 64,
                forall|k: u64, j: u64|
                    k < i && j < 64 ==> (#[trigger] bit_at(king_moves@[k as int], j) <==> king_adj(
                        k,
                        j,
                    )),
                forall|k: u64, j: u64|
                    k < i && j < 64 ==> (#[trigger] bit_at(knight_moves@[k as int], j)
                        <==> knight_adj(k, j)),
                forall|k: u64, j: u64|
                    k < i && j < 64 ==> (#[trigger] bit_at(pawn_moves@[k as int], j)
                        <==> pawn_move_adj(k, j)),
                forall|k: u64, j: u64|
                    k < i && j < 64 ==> (#[trigger] bit_at(pawn_attacks@[k as int], j)
                        <==> pawn_att_adj(k, j)),
            decreases 64 - i,
        {
            king_moves[i] = king_mask_at(i as u64);
            knight_moves[i] = knight_mask_at(i as u64);
            pawn_moves[i] = pawn_move_mask_at(i as u64);
            pawn_attacks[i] = pawn_attack_mask_at(i as u64);
            i += 1;
        }

        let mut i: usize = 0;
        while i < 64
            invariant
                i <= 64,
                forall|k: u64, j: u64|
                    k < i && j < 64 ==> (#[trigger] bit_at(north@[k as int], j) <==> same_file(k, j)
                        && j > k),
                forall|k: u64, j: u64|
                    k < i && j < 64 ==> (#[trigger] bit_at(south@[k as int], j) <==> same_file(k, j)
                        && j < k),
                forall|k: u64, j: u64|
                    k < i && j < 64 ==> (#[trigger] bit_at(west@[k as int], j) <==> same_rank(k, j)
                        && j > k),
                forall|k: u64, j: u64|
                    k < i && j < 64 ==> (#[trigger] bit_at(east@[k as int], j) <==> same_rank(k, j)
                        && j < k),
            decreases 64 - i,
        {
            north[i] = north_at(i as u64);
            south[i] = south_at(i as u64);
            west[i] = west_at(i as u64);
            east[i] = east_at(i as u64);
            i += 1;
        }

        let mut i: usize = 0;
        while i < 64
            invariant
                i <= 64,
                forall|k: u64, j: u64|
                    k < i && j < 64 ==> (#[trigger] bit_at(diag_neg@[k as int], j)
                        <==> same_neg_diag(k, j)),
                forall|k: u64, j: u64|
                    k < i && j < 64 ==> (#[trigger] bit_at(diag_pos@[k as int], j)
                        <==> same_pos_diag(k, j)),
                forall|k: u64, j: u64|
                    k < i && j < 64 ==> (#[trigger] bit_at(north_west@[k as int], j)
                        <==> same_neg_diag(k, j) && j > k),
                forall|k: u64, j: u64|
                    k < i && j < 64 ==> (#[trigger] bit_at(south_east@[k as int], j)
                        <==> same_neg_diag(k, j) && j < k),
                forall|k: u64, j: u64|
                    k < i && j < 64 ==> (#[trigger] bit_at(north_east@[k as int], j)
                        <==> same_pos_diag(k, j) && j > k),
                forall|k: u64, j: u64|
                    k < i && j < 64 ==> (#[trigger] bit_at(south_west@[k as int], j)
                        <==> same_pos_diag(k, j) && j < k),
            decreases 64 - i,
        {
            let b = crate::utils::bit(i as u64);
            let dn = crate::utils::neg_diag_through(b);
            let dp = crate::utils::pos_diag_through(b);
            let fl = crate::utils::fill_left_excl(b);
            let fr = crate::utils::fill_right_excl(b);
            diag_neg[i] = dn;
            diag_pos[i] = dp;
            north_west[i] = dn & fl;
            south_east[i] = dn & fr;
            north_east[i] = dp & fl;
            south_west[i] = dp & fr;
            proof {
                let ii = i as u64;
                crate::utils::lemma_one_bit_intro(ii);
                assert forall|j: u64| j < 64 implies (#[trigger] bit_at(dn, j) <==> same_neg_diag(
                    ii,
                    j,
                )) by {
                    crate::utils::lemma_neg_diag(b, j);
                }
                assert forall|j: u64| j < 64 implies (#[trigger] bit_at(dp, j) <==> same_pos_diag(
                    ii,
                    j,
                )) by {
                    crate::utils::lemma_pos_diag(b, j);
                }
                assert forall|j: u64| j < 64 implies (#[trigger] bit_at(dn & fl, j)
                    <==> same_neg_diag(ii, j) && j > ii) by {
                    crate::utils::lemma_bit_and(dn, fl, j);
                    crate::utils::lemma_fill_left_excl(b, j);
                }
                assert forall|j: u64| j < 64 implies (#[trigger] bit_at(dn & fr, j)
                    <==> same_neg_diag(ii, j) && j < ii) by {
                    crate::utils::lemma_bit_and(dn, fr, j);
                    crate::utils::lemma_fill_right_excl(b, j);
                    crate::utils::lemma_one_bit_high(b);
                }
                assert forall|j: u64| j < 64 implies (#[trigger] bit_at(dp & fl, j)
                    <==> same_pos_diag(ii, j) && j > ii) by {
                    crate::utils::lemma_bit_and(dp, fl, j);
                    crate::utils::lemma_fill_left_excl(b, j);
                }
                assert forall|j: u64| j < 64 implies (#[trigger] bit_at(dp & fr, j)
                    <==> same_pos_diag(ii, j) && j < ii) by {
                    crate::utils::lemma_bit_and(dp, fr, j);
                    crate::utils::lemma_fill_right_excl(b, j);
                    crate::utils::lemma_one_bit_high(b);
                }
            }
            i += 1;
        }

        Moves {
            king_moves,
            knight_moves,
            pawn_moves,
            pawn_attacks,
            east,
            north_east,
            north,
            north_west,
            west,
            south_west,
            south,
            south_east,
            diag_pos,
            diag_neg,
        }
    }
}

} // verus!
