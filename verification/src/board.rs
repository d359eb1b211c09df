use vstd::prelude::*;

use crate::moves::Moves;
use crate::piece::Piece;
use crate::player::Player;
use crate::utils;
use crate::utils::bit_at;
use crate::utils::file_of;
use crate::utils::low_bit;
use crate::utils::one_bit;
use crate::utils::rank_of;

verus! {

broadcast use vstd::std_specs::bits::group_bits_axioms, vstd::array::group_array_axioms;

/// Number of piece slots per side.
pub const PIECE_COUNT: usize = 16;

/// Everyday identities of `&`, `|` and `!` that the proofs below lean on.
pub proof fn lemma_bit_calc(a: u64, b: u64, c: u64, d: u64)
    ensures
        a & b == b & a,
        a | b == b | a,
        a & a == a,
        a | a == a,
        a & 0u64 == 0u64,
        0u64 & a == 0u64,
        a | 0u64 == a,
        0u64 | a == a,
        a & 0xffff_ffff_ffff_ffffu64 == a,
        0xffff_ffff_ffff_ffffu64 & a == a,
        (a & b) & c == a & (b & c),
        0u64 << 8u64 == 0u64,
        0u64 >> 8u64 == 0u64,
        (a & !b) & b == 0,
        a & (b | c) == (a & b) | (a & c),
        (a & b) & !b == 0,
        (b & a) & !b == 0,
        (a | b == 0) ==> (a == 0 && b == 0),
        (a | (b | a)) == (b | a),
        ((a | b) == b) ==> (a | (b | c)) == (b | c),
        ((a | b) == b && (c | d) == d && b & d == 0) ==> a & c == 0,
        (b & d == 0) ==> ((a & b) & d == 0 && (b & a) & d == 0),
        (a & b == 0) ==> ((a & c) & b == 0 && (c & a) & b == 0),
{
    assert((a & b == b & a) && (a | b == b | a) && (a & a == a) && (a | a == a) && (a & 0u64
        == 0u64) && (0u64 & a
        == 0u64) && (a | 0u64 == a) && (0u64 | a == a) && (a & 0xffff_ffff_ffff_ffffu64 == a) && (
    0xffff_ffff_ffff_ffffu64 & a == a) && ((a & b) & c == a & (b & c)) && (0u64 << 8u64 == 0u64)
        && (0u64 >> 8u64 == 0u64) && ((a & !b) & b == 0) && (a
        & (b | c) == (a & b) | (a & c)) && ((a & b) & !b == 0) && ((b & a) & !b == 0)
        && ((a | b == 0) ==> (a == 0 && b == 0)) && ((a | (b | a)) == (b | a)) && (((a | b) == b)
        ==> (a | (b | c)) == (b | c)) && (((a | b) == b && (c | d) == d && b & d == 0) ==> a & c
        == 0) && ((b & d == 0) ==> ((a & b) & d == 0 && (b & a) & d == 0)) && ((a & b == 0) ==> ((a
        & c) & b == 0 && (c & a) & b == 0))) by (bit_vector);
}

// ---------------------------------------------------------------------------
// Slot identities: a fixed id 0..16 per side names each piece for the whole
// game. Slot 0 is the king, 1-2 the knights, 3-4 the rooks, 5 the queen,
// 6-7 the bishops and 8-15 the pawns.
// ---------------------------------------------------------------------------

/// The kind of piece a slot id starts the game as.
pub open spec fn piece_kind(id: int) -> Piece {
    if id == 0 {
        Piece::King
    } else if id <= 2 {
        Piece::Knight
    } else if id <= 4 {
        Piece::Rook
    } else if id == 5 {
        Piece::Queen
    } else if id <= 7 {
        Piece::Bishop
    } else {
        Piece::Pawn
    }
}

/// The kind of piece a slot id starts the game as; ids of eight and above
/// are all pawns.
pub fn into_piece(id: usize) -> (r: Piece)
    ensures
        r == piece_kind(id as int),
{
    if id == 0 {
        Piece::King
    } else if id <= 2 {
        Piece::Knight
    } else if id <= 4 {
        Piece::Rook
    } else if id == 5 {
        Piece::Queen
    } else if id <= 7 {
        Piece::Bishop
    } else {
        Piece::Pawn
    }
}

// ---------------------------------------------------------------------------
// One side of the game
// ---------------------------------------------------------------------------

/// One side's sixteen piece slots and its special-rule bookkeeping.
/// A slot's bitboard holds one square while the piece is alive and is zero
/// once it has been captured.
#[derive(Clone, Copy)]
pub struct Team {
    /// One bitboard per slot: a single square, or zero once captured.
    pub positions: [u64; PIECE_COUNT],
    /// The replacement kind of each promoted pawn slot.
    pub promotions: [Option<Piece>; PIECE_COUNT],
    /// The pawn slot awaiting a promotion choice, while one is pending.
    pub promotion_id: Option<usize>,
    /// The square of this side's pawn that just advanced two squares, for
    /// exactly one opponent move; zero otherwise.
    pub en_passant_pos: u64,
    /// Whether this side has castled.
    pub did_castling: bool,
    /// Squares on which a rook of this side has ever landed; a rook standing
    /// on such a square has moved and can no longer castle.
    pub did_move: u64,
    /// Whether this side's king has ever moved.
    pub king_moved: bool,
}

/// The promotion kinds a pawn may choose.
pub open spec fn valid_promotion(p: Piece) -> bool {
    p is Rook || p is Knight || p is Bishop || p is Queen
}

/// Occupancy of the first `n` slots.
pub open spec fn mask_up_to(t: Team, n: int) -> u64
    decreases n,
{
    if n <= 0 {
        0u64
    } else {
        mask_up_to(t, n - 1) | t.positions@[n - 1]
    }
}

/// The side's occupancy: the union of every slot's bitboard.
pub open spec fn team_mask_spec(t: Team) -> u64 {
    mask_up_to(t, 16)
}

/// Number of live pieces among the first `n` slots.
pub open spec fn live_up_to(t: Team, n: int) -> int
    decreases n,
{
    if n <= 0 {
        0int
    } else {
        live_up_to(t, n - 1) + if t.positions@[n - 1] != 0 {
            1int
        } else {
            0int
        }
    }
}

/// The side's live piece count.
pub open spec fn live_count(t: Team) -> int {
    live_up_to(t, 16)
}

/// Well-formedness of a side: every slot holds at most one square, no two
/// slots share a square, promotions stand only on pawn slots and name a
/// legal replacement kind, a pending promotion names a pawn slot, and the
/// en-passant square is at most one square.
pub open spec fn team_wf(t: Team) -> bool {
    &&& forall|s: int| 0 <= s < 16 ==> (#[trigger] t.positions@[s]) == 0 || one_bit(t.positions@[s])
    &&& forall|s1: int, s2: int|
        0 <= s1 < 16 && 0 <= s2 < 16 && s1 != s2 ==> (#[trigger] t.positions@[s1]
            & #[trigger] t.positions@[s2]) == 0
    &&& forall|s: int|
        0 <= s < 16 ==> ((#[trigger] t.promotions@[s]) matches Some(p) ==> s >= 8
            && valid_promotion(p))
    &&& (t.promotion_id matches Some(id) ==> 8 <= id < 16)
    &&& (t.en_passant_pos == 0 || one_bit(t.en_passant_pos))
}

/// The kind a slot currently moves and attacks as: its replacement kind once
/// promoted, else the kind of its id.
pub open spec fn shown_kind(t: Team, s: int) -> Piece {
    match t.promotions@[s] {
        Some(p) => p,
        None => piece_kind(s),
    }
}

impl Team {
    /// The union of every slot: all squares this side occupies.
    pub fn mask(&self) -> (m: u64)
        ensures
            m == team_mask_spec(*self),
    {
        let mut m: u64 = 0;
        let mut i: usize = 0;
        while i < PIECE_COUNT
            invariant
                i <= 16,
                m == mask_up_to(*self, i as int),
            decreases 16 - i,
        {
            m = m | self.positions[i];
            i += 1;
        }
        m
    }
}

/// Every slot's squares lie inside the side's occupancy mask.
pub proof fn lemma_slot_in_mask(t: Team, s: int)
    requires
        0 <= s < 16,
    ensures
        t.positions@[s] | team_mask_spec(t) == team_mask_spec(t),
{
    lemma_slot_in_mask_up_to(t, s, 16);
}

proof fn lemma_slot_in_mask_up_to(t: Team, s: int, n: int)
    requires
        0 <= s < n,
    ensures
        t.positions@[s] | mask_up_to(t, n) == mask_up_to(t, n),
    decreases n,
{
    let p = t.positions@[s];
    if s == n - 1 {
        let rest = mask_up_to(t, n - 1);
        lemma_bit_calc(p, rest, 0, 0);
    } else {
        lemma_slot_in_mask_up_to(t, s, n - 1);
        let rest = mask_up_to(t, n - 1);
        let q = t.positions@[n - 1];
        lemma_bit_calc(p, rest, q, 0);
    }
}

/// A bitboard outside the side's occupancy meets no slot.
pub proof fn lemma_outside_mask(t: Team, x: u64, s: int)
    requires
        0 <= s < 16,
        x & team_mask_spec(t) == 0,
    ensures
        x & t.positions@[s] == 0,
{
    lemma_slot_in_mask(t, s);
    let p = t.positions@[s];
    let m = team_mask_spec(t);
    lemma_bit_calc(x, m, 0, 0);
    lemma_bit_calc(x, x, 0, 0);
    lemma_bit_calc(p, m, x, x);
    lemma_bit_calc(p, x, 0, 0);
}

/// A square in the side's occupancy lies in some slot.
pub proof fn lemma_mask_bit(t: Team, j: u64)
    requires
        j < 64,
    ensures
        bit_at(team_mask_spec(t), j) <==> exists|s: int|
            0 <= s < 16 && bit_at(#[trigger] t.positions@[s], j),
{
    lemma_mask_bit_up_to(t, j, 16);
}

proof fn lemma_mask_bit_up_to(t: Team, j: u64, n: int)
    requires
        j < 64,
        0 <= n <= 16,
    ensures
        bit_at(mask_up_to(t, n), j) <==> exists|s: int|
            0 <= s < n && bit_at(#[trigger] t.positions@[s], j),
    decreases n,
{
    if n == 0 {
        utils::lemma_bit_full_empty(j);
    } else {
        lemma_mask_bit_up_to(t, j, n - 1);
        utils::lemma_bit_or(mask_up_to(t, n - 1), t.positions@[n - 1], j);
        if bit_at(mask_up_to(t, n), j) {
            if bit_at(t.positions@[n - 1], j) {
                assert(0 <= n - 1 < n && bit_at(t.positions@[n - 1], j));
            }
        }
    }
}

/// Two one-square boards on different squares do not intersect.
pub proof fn lemma_one_bit_disjoint(a: u64, b: u64)
    requires
        one_bit(a),
        one_bit(b),
        low_bit(a) != low_bit(b),
    ensures
        a & b == 0,
{
    utils::lemma_one_bit(a);
    utils::lemma_one_bit(b);
    let x = low_bit(a);
    let y = low_bit(b);
    assert(x < 64 && y < 64 && x != y ==> (1u64 << x) & (1u64 << y) == 0) by (bit_vector);
}

/// Sides whose slots are live in the same places have the same live count.
pub proof fn lemma_live_same(t1: Team, t2: Team, n: int)
    requires
        forall|s: int| 0 <= s < n ==> ((#[trigger] t1.positions@[s]) == 0 <==> (#[trigger] t2.positions@[s]) == 0),
    ensures
        live_up_to(t1, n) == live_up_to(t2, n),
    decreases n,
{
    if n > 0 {
        lemma_live_same(t1, t2, n - 1);
    }
}

/// Zeroing every slot that held `att` (there is at most one, by
/// disjointness) lowers the live count by one when some slot held it.
pub proof fn lemma_live_capture(t1: Team, t2: Team, att: u64, n: int)
    requires
        team_wf(t1),
        att != 0,
        0 <= n <= 16,
        forall|s: int|
            0 <= s < 16 ==> (#[trigger] t2.positions@[s]) == (if t1.positions@[s] == att {
                0u64
            } else {
                t1.positions@[s]
            }),
    ensures
        live_up_to(t2, n) == live_up_to(t1, n) - (if exists|s: int|
            0 <= s < n && (#[trigger] t1.positions@[s]) == att {
            1int
        } else {
            0int
        }),
    decreases n,
{
    if n > 0 {
        lemma_live_capture(t1, t2, att, n - 1);
        if t1.positions@[n - 1] == att {
            assert forall|s: int| 0 <= s < n - 1 implies (#[trigger] t1.positions@[s]) != att by {
                if t1.positions@[s] == att {
                    lemma_bit_calc(t1.positions@[s], 0, 0, 0);
                }
            }
        }
    }
}

// ---------------------------------------------------------------------------
// The board: two sides and the side to move
// ---------------------------------------------------------------------------

/// The whole game state: both sides, the side to move, and the immutable
/// geometry tables built at construction.
pub struct Board {
    pub white: Team,
    pub black: Team,
    /// The side to move.
    pub player: Player,
    /// The precomputed geometry tables; read-only after construction.
    pub moves: Moves,
}

/// The side record playing for `p`.
pub open spec fn side(b: Board, p: Player) -> Team {
    if p is White {
        b.white
    } else {
        b.black
    }
}

/// Both sides are well formed, they share no square, and the geometry
/// tables hold.
pub open spec fn board_ok(b: Board) -> bool {
    &&& b.moves.wf()
    &&& team_wf(b.white)
    &&& team_wf(b.black)
    &&& team_mask_spec(b.white) & team_mask_spec(b.black) == 0
}

/// A side record with no pieces and all bookkeeping cleared.
pub open spec fn fresh_team(t: Team) -> bool {
    &&& forall|s: int| 0 <= s < 16 ==> (#[trigger] t.promotions@[s]) is None
    &&& t.promotion_id is None
    &&& t.en_passant_pos == 0
    &&& !t.did_castling
    &&& t.did_move == 0
    &&& !t.king_moved
}

/// White's opening square for each slot id.
pub open spec fn white_sq(s: int) -> u64 {
    if s == 0 {
        4u64
    } else if s == 1 {
        1u64
    } else if s == 2 {
        6u64
    } else if s == 3 {
        0u64
    } else if s == 4 {
        7u64
    } else if s == 5 {
        3u64
    } else if s == 6 {
        2u64
    } else if s == 7 {
        5u64
    } else {
        s as u64
    }
}

/// Black's opening square for each slot id.
pub open spec fn black_sq(s: int) -> u64 {
    if s == 0 {
        60u64
    } else if s == 1 {
        57u64
    } else if s == 2 {
        62u64
    } else if s == 3 {
        56u64
    } else if s == 4 {
        63u64
    } else if s == 5 {
        59u64
    } else if s == 6 {
        58u64
    } else if s == 7 {
        61u64
    } else {
        (s + 40) as u64
    }
}

fn empty_team() -> (t: Team)
    ensures
        fresh_team(t),
        forall|s: int| 0 <= s < 16 ==> (#[trigger] t.positions@[s]) == 0,
{
    let positions: [u64; PIECE_COUNT] = [0u64;PIECE_COUNT];
    let promotions: [Option<Piece>; PIECE_COUNT] = [None;PIECE_COUNT];
    Team {
        positions,
        promotions,
        promotion_id: None,
        en_passant_pos: 0,
        did_castling: false,
        did_move: 0,
        king_moved: false,
    }
}

impl Board {
    /// The side to move.
    pub open spec fn cur(self) -> Team {
        side(self, self.player)
    }

    /// The side not to move.
    pub open spec fn opp(self) -> Team {
        side(self, self.player.flip())
    }

    /// A board in the standard opening position, White to move.
    pub fn new() -> (b: Board)
        ensures
            board_ok(b),
            b.player == Player::White,
            forall|s: int| 0 <= s < 16 ==> (#[trigger] b.white.positions@[s]) == (1u64 << white_sq(
                s,
            )),
            forall|s: int| 0 <= s < 16 ==> (#[trigger] b.black.positions@[s]) == (1u64 << black_sq(
                s,
            )),
            fresh_team(b.white),
            fresh_team(b.black),
    {
        let moves = Moves::init();
        let mut white = empty_team();
        let mut black = empty_team();

        white.positions[3] = utils::flatten_bit(0, 0);
        white.positions[1] = utils::flatten_bit(1, 0);
        white.positions[6] = utils::flatten_bit(2, 0);
        white.positions[5] = utils::flatten_bit(3, 0);
        white.positions[0] = utils::flatten_bit(4, 0);
        white.positions[7] = utils::flatten_bit(5, 0);
        white.positions[2] = utils::flatten_bit(6, 0);
        white.positions[4] = utils::flatten_bit(7, 0);
        let mut i: usize = 0;
        while i < 8
            invariant
                i <= 8,
                fresh_team(white),
                forall|s: int| 0 <= s < 8 ==> (#[trigger] white.positions@[s]) == (1u64 << white_sq(
                    s,
                )),
                forall|s: int|
                    8 <= s < 8 + i ==> (#[trigger] white.positions@[s]) == (1u64 << white_sq(s)),
                forall|s: int| 8 + i <= s < 16 ==> (#[trigger] white.positions@[s]) == 0,
            decreases 8 - i,
        {
            white.positions[8 + i] = utils::flatten_bit(i as u8, 1);
            i += 1;
        }

        black.positions[3] = utils::flatten_bit(0, 7);
        black.positions[1] = utils::flatten_bit(1, 7);
        black.positions[6] = utils::flatten_bit(2, 7);
        black.positions[5] = utils::flatten_bit(3, 7);
        black.positions[0] = utils::flatten_bit(4, 7);
        black.positions[7] = utils::flatten_bit(5, 7);
        black.positions[2] = utils::flatten_bit(6, 7);
        black.positions[4] = utils::flatten_bit(7, 7);
        let mut i: usize = 0;
        while i < 8
            invariant
                i <= 8,
                fresh_team(black),
                forall|s: int| 0 <= s < 8 ==> (#[trigger] black.positions@[s]) == (1u64 << black_sq(
                    s,
                )),
                forall|s: int|
                    8 <= s < 8 + i ==> (#[trigger] black.positions@[s]) == (1u64 << black_sq(s)),
                forall|s: int| 8 + i <= s < 16 ==> (#[trigger] black.positions@[s]) == 0,
            decreases 8 - i,
        {
            black.positions[8 + i] = utils::flatten_bit(i as u8, 6);
            i += 1;
        }

        proof {
            lemma_start_team_wf(white, |s: int| white_sq(s));
            lemma_start_team_wf(black, |s: int| black_sq(s));
            assert forall|s1: int, s2: int| 0 <= s1 < 16 && 0 <= s2 < 16 implies ((
            #[trigger] white.positions@[s1]) & (#[trigger] black.positions@[s2])) == 0 by {
                utils::lemma_one_bit_intro(white_sq(s1));
                utils::lemma_one_bit_intro(black_sq(s2));
                lemma_one_bit_disjoint(white.positions@[s1], black.positions@[s2]);
            }
            lemma_masks_disjoint(white, black);
        }

        Board { white, black, player: Player::White, moves }
    }
}

/// A side's listing over its first `n` slots: one entry per live piece, in
/// slot order.
pub open spec fn listing_up_to(t: Team, n: int) -> Seq<(Piece, u8, u8)>
    decreases n,
{
    if n <= 0 {
        Seq::empty()
    } else {
        listing_up_to(t, n - 1) + (if t.positions@[n - 1] != 0 {
            seq![team_entry(t, n - 1)]
        } else {
            Seq::empty()
        })
    }
}

/// A side's listing: the current kind, file and rank of each live piece,
/// in slot order.
pub open spec fn listing(t: Team) -> Seq<(Piece, u8, u8)> {
    listing_up_to(t, 16)
}

/// The entry a side's listing shows for a live slot: its current kind and
/// the file and rank it stands on.
pub open spec fn team_entry(t: Team, s: int) -> (Piece, u8, u8) {
    (
        shown_kind(t, s),
        file_of(low_bit(t.positions@[s])) as u8,
        rank_of(low_bit(t.positions@[s])) as u8,
    )
}

/// Walks one side's slots in slot order and yields, for each live piece,
/// its current kind and coordinates.
pub struct TeamIterator {
    team: Team,
    id: usize,
}

impl TeamIterator {
    /// The side being walked.
    pub closed spec fn team(self) -> Team {
        self.team
    }

    /// The next slot to look at.
    pub closed spec fn cursor(self) -> int {
        self.id as int
    }

    fn new(team: &Team) -> (r: TeamIterator)
        ensures
            r.team() == *team,
            r.cursor() == 0,
    {
        TeamIterator { team: *team, id: 0 }
    }

    /// The next live piece in slot order, or `None` when every remaining
    /// slot is empty.
    pub fn next(&mut self) -> (r: Option<(Piece, u8, u8)>)
        ensures
            final(self).team() == old(self).team(),
            r is None ==> forall|s: int|
                old(self).cursor() <= s < 16 ==> (#[trigger] old(self).team().positions@[s]) == 0,
            r matches Some(e) ==> exists|s: int|
                {
                    &&& old(self).cursor() <= s < 16
                    &&& (#[trigger] old(self).team().positions@[s]) != 0
                    &&& (forall|t2: int|
                        old(self).cursor() <= t2 < s ==> (#[trigger] old(
                            self,
                        ).team().positions@[t2]) == 0)
                    &&& final(self).cursor() == s + 1
                    &&& e == team_entry(old(self).team(), s)
                },
    {
        if self.id >= PIECE_COUNT {
            return None;
        }
        let ghost t0 = self.team;
        let ghost c0 = self.id as int;
        while self.id < PIECE_COUNT
            invariant
                self.team == t0,
                t0 == old(self).team(),
                c0 == old(self).cursor(),
                c0 <= self.id <= 16,
                forall|t2: int| c0 <= t2 < self.id ==> (#[trigger] t0.positions@[t2]) == 0,
            decreases 16 - self.id,
        {
            let b = self.team.positions[self.id];
            if b != 0 {
                let pos = utils::unflatten_bit(b);
                let piece = match self.team.promotions[self.id] {
                    None => into_piece(self.id),
                    Some(p) => p,
                };
                let ghost s = self.id as int;
                self.id = self.id + 1;
                return Some((piece, pos.0, pos.1));
            }
            self.id = self.id + 1;
        }
        None
    }
}

impl Board {
    /// Walks White's live pieces.
    pub fn white_iter(&self) -> (r: TeamIterator)
        ensures
            r.team() == self.white,
            r.cursor() == 0,
    {
        TeamIterator::new(&self.white)
    }

    /// Walks Black's live pieces.
    pub fn black_iter(&self) -> (r: TeamIterator)
        ensures
            r.team() == self.black,
            r.cursor() == 0,
    {
        TeamIterator::new(&self.black)
    }

    /// Whether the side to move has a pawn awaiting its promotion choice;
    /// while it does, the turn has not advanced.
    pub fn has_promotion(&self) -> (r: bool)
        ensures
            r == (self.cur().promotion_id is Some),
    {
        let t = match self.player {
            Player::White => &self.white,
            Player::Black => &self.black,
        };
        t.promotion_id.is_some()
    }

    /// Resolves a pending promotion: records the chosen replacement kind for
    /// the waiting pawn slot and performs the deferred turn switch.
    pub fn select_promotion(&mut self, piece: Piece)
        requires
            board_ok(*old(self)),
            old(self).cur().promotion_id is Some,
            valid_promotion(piece),
        ensures
            board_ok(*final(self)),
            final(self).player == old(self).player.flip(),
            final(self).moves == old(self).moves,
            side(*final(self), old(self).player.flip()) == side(
                *old(self),
                old(self).player.flip(),
            ),
            ({
                let t0 = side(*old(self), old(self).player);
                let t1 = side(*final(self), old(self).player);
                &&& t1.promotions@ == t0.promotions@.update(
                    t0.promotion_id->0 as int,
                    Some(piece),
                )
                &&& t1.promotion_id is None
                &&& t1.positions == t0.positions
                &&& t1.en_passant_pos == t0.en_passant_pos
                &&& t1.did_move == t0.did_move
                &&& t1.king_moved == t0.king_moved
                &&& t1.did_castling == t0.did_castling
            }),
    {
        let white = match self.player {
            Player::White => true,
            Player::Black => false,
        };
        let mut curr = if white {
            self.white
        } else {
            self.black
        };
        let pid = curr.promotion_id.unwrap();
        let ghost c0 = curr;
        curr.promotions[pid] = Some(piece);
        curr.promotion_id = None;
        proof {
            lemma_mask_same(curr, c0, 16);
        }
        if white {
            self.white = curr;
        } else {
            self.black = curr;
        }
        self.player = self.player.other();
    }

    /// The slot id of the side to move whose piece stands on the given
    /// square, if any.
    pub fn id_from_pos(&self, x: u8, y: u8) -> (r: Option<usize>)
        requires
            x < 8,
            y < 8,
        ensures
            ({
                let b = (1u64 << ((x + 8 * y) as u64));
                let t = self.cur();
                &&& (r matches Some(id) ==> id < 16 && t.positions@[id as int] == b)
                &&& (r is None ==> forall|s: int|
                    0 <= s < 16 ==> (#[trigger] t.positions@[s]) != b)
            }),
    {
        let b = utils::flatten_bit(x, y);
        let t = match self.player {
            Player::White => &self.white,
            Player::Black => &self.black,
        };
        let mut id: usize = 0;
        while id < PIECE_COUNT
            invariant
                id <= 16,
                forall|s: int| 0 <= s < id ==> (#[trigger] t.positions@[s]) != b,
                b == (1u64 << ((x + 8 * y) as u64)),
                *t == self.cur(),
            decreases 16 - id,
        {
            if t.positions[id] == b {
                return Some(id);
            }
            id += 1;
        }
        None
    }

    /// A board holding the given piece placements, with fresh bookkeeping
    /// and the given side to move; `None` unless every slot holds at most
    /// one square and no two slots of a side share a square.
    pub fn from_positions(
        white: [u64; PIECE_COUNT],
        black: [u64; PIECE_COUNT],
        player: Player,
    ) -> (r: Option<Board>)
        ensures
            ({
                let ok = placement_ok(white) && placement_ok(black) && placements_apart(
                    white,
                    black,
                );
                &&& (r is Some <==> ok)
                &&& (r matches Some(b) ==> {
                    &&& board_ok(b)
                    &&& b.player == player
                    &&& b.white.positions@ == white@
                    &&& b.black.positions@ == black@
                    &&& fresh_team(b.white)
                    &&& fresh_team(b.black)
                })
            }),
    {
        let wok = placement_check(&white);
        let bok = placement_check(&black);
        if !wok || !bok {
            return None;
        }
        let moves = Moves::init();
        let mut w = empty_team();
        let mut b = empty_team();
        w.positions = white;
        b.positions = black;
        if w.mask() & b.mask() != 0 {
            proof {
                let mw = team_mask_spec(w);
                let mb = team_mask_spec(b);
                let x = mw & mb;
                utils::lemma_low_bit(x);
                let j = low_bit(x);
                utils::lemma_bit_and(mw, mb, j);
                lemma_mask_bit(w, j);
                lemma_mask_bit(b, j);
                let s1 = choose|s: int| 0 <= s < 16 && bit_at(#[trigger] w.positions@[s], j);
                let s2 = choose|s: int| 0 <= s < 16 && bit_at(#[trigger] b.positions@[s], j);
                utils::lemma_bit_and(white@[s1], black@[s2], j);
                utils::lemma_bit_full_empty(j);
            }
            return None;
        }
        proof {
            assert forall|s1: int, s2: int| 0 <= s1 < 16 && 0 <= s2 < 16 implies ((
            #[trigger] white@[s1]) & (#[trigger] black@[s2])) == 0 by {
                lemma_slots_cross(w, b, s1, s2);
            }
        }
        Some(Board { white: w, black: b, player, moves })
    }
}

/// No slot of one placement shares a square with a slot of the other.
pub open spec fn placements_apart(w: [u64; PIECE_COUNT], b: [u64; PIECE_COUNT]) -> bool {
    forall|s1: int, s2: int|
        0 <= s1 < 16 && 0 <= s2 < 16 ==> ((#[trigger] w@[s1]) & (#[trigger] b@[s2])) == 0
}

/// Every slot holds at most one square and no two slots share a square.
pub open spec fn placement_ok(ps: [u64; PIECE_COUNT]) -> bool {
    &&& forall|s: int| 0 <= s < 16 ==> (#[trigger] ps@[s]) == 0 || one_bit(ps@[s])
    &&& forall|s1: int, s2: int|
        0 <= s1 < 16 && 0 <= s2 < 16 && s1 != s2 ==> ((#[trigger] ps@[s1]) & (#[trigger] ps@[s2]))
            == 0
}

/// A nonzero board holds one square exactly when clearing its lowest set
/// bit empties it.
proof fn lemma_one_bit_test(p: u64)
    requires
        p != 0,
    ensures
        one_bit(p) <==> (p & ((p - 1) as u64)) == 0,
{
    let t = low_bit(p);
    assert(p << ((64 - t) as u64) == 0 || t == 64);
    assert((t < 64 && (p >> t) & 1u64 == 1u64 && p << ((64 - t) as u64) == 0) ==> ((p & ((p
        - 1) as u64) == 0) <==> p == (1u64 << t))) by (bit_vector);
    if p == (1u64 << t) {
        utils::lemma_one_bit_intro(t);
    }
    if one_bit(p) {
        utils::lemma_one_bit(p);
    }
}

fn placement_check(ps: &[u64; PIECE_COUNT]) -> (r: bool)
    ensures
        r == placement_ok(*ps),
{
    let mut s: usize = 0;
    while s < PIECE_COUNT
        invariant
            s <= 16,
            forall|t2: int| 0 <= t2 < s ==> (#[trigger] ps@[t2]) == 0 || one_bit(ps@[t2]),
        decreases 16 - s,
    {
        let p = ps[s];
        if p != 0 {
            proof {
                lemma_one_bit_test(p);
            }
            if p & (p - 1) != 0 {
                return false;
            }
        }
        s += 1;
    }
    let mut s1: usize = 0;
    while s1 < PIECE_COUNT
        invariant
            s1 <= 16,
            forall|t2: int| 0 <= t2 < 16 ==> (#[trigger] ps@[t2]) == 0 || one_bit(ps@[t2]),
            forall|t1: int, t2: int|
                0 <= t1 < s1 && 0 <= t2 < 16 && t1 != t2 ==> ((#[trigger] ps@[t1])
                    & (#[trigger] ps@[t2])) == 0,
        decreases 16 - s1,
    {
        let mut s2: usize = 0;
        while s2 < PIECE_COUNT
            invariant
                s1 < 16,
                s2 <= 16,
                forall|t2: int| 0 <= t2 < 16 ==> (#[trigger] ps@[t2]) == 0 || one_bit(ps@[t2]),
                forall|t1: int, t2: int|
                    0 <= t1 < s1 && 0 <= t2 < 16 && t1 != t2 ==> ((#[trigger] ps@[t1])
                        & (#[trigger] ps@[t2])) == 0,
                forall|t2: int|
                    0 <= t2 < s2 && t2 != s1 ==> ((#[trigger] ps@[s1 as int]) & (#[trigger] ps@[t2]))
                        == 0,
            decreases 16 - s2,
        {
            if s2 != s1 && ps[s1] & ps[s2] != 0 {
                return false;
            }
            proof {
                lemma_bit_calc(ps@[s1 as int], ps@[s2 as int], 0, 0);
            }
            s2 += 1;
        }
        s1 += 1;
    }
    true
}

// ---------------------------------------------------------------------------
// Move application
// ---------------------------------------------------------------------------

/// Whether the slot moves as an unpromoted pawn.
pub open spec fn is_pawn_mover(t: Team, id: int) -> bool {
    8 <= id < 16 && t.promotions@[id] is None
}

/// One rank behind a destination, toward the mover's own side: the square
/// of a pawn taken in passing.
pub open spec fn ep_shift(p: Player, mov: u64) -> u64 {
    if p is White {
        mov >> 8u64
    } else {
        mov << 8u64
    }
}

/// The square a move actually captures on: its destination, except that a
/// pawn stepping onto the free square in front of the opponent's
/// en-passant pawn captures that pawn instead.
pub open spec fn capture_square(p: Player, opp_ep: u64, opp_mask: u64, pawn: bool, mov: u64) -> u64 {
    if pawn && opp_ep != 0 && opp_ep == ep_shift(p, mov) && mov & opp_mask == 0 {
        opp_ep
    } else {
        mov
    }
}

/// The destination lies on the first or last rank.
pub open spec fn on_last_rank(mov: u64) -> bool {
    low_bit(mov) < 8 || low_bit(mov) >= 56
}

/// The move covers exactly two ranks straight ahead: a double pawn advance.
pub open spec fn is_double_step(pos: u64, mov: u64) -> bool {
    crate::moves::dist(low_bit(pos), low_bit(mov)) == 16
}

/// The move covers exactly two square indices: a king's castling step.
pub open spec fn is_castle_step(pos: u64, mov: u64) -> bool {
    crate::moves::dist(low_bit(pos), low_bit(mov)) == 2
}

/// The squares on the king's rank beyond him on the side he castles
/// toward: where the castling rook departs from.
pub open spec fn castle_zone(pos: u64, mov: u64) -> u64 {
    if low_bit(mov) > low_bit(pos) {
        utils::fill_left_excl_spec(pos) & utils::byte_mask_spec(low_bit(pos))
    } else {
        utils::fill_right_excl_spec(pos) & utils::byte_mask_spec(low_bit(pos))
    }
}

/// The square the castling rook lands on: immediately beside the king's
/// destination, on the side it came from.
pub open spec fn castle_rook_dest(pos: u64, mov: u64) -> u64 {
    if low_bit(mov) > low_bit(pos) {
        mov >> 1u64
    } else {
        mov << 1u64
    }
}

/// What executing a castling move needs of the position: a single rook in
/// the departure zone, whose landing square is free of both sides. Both
/// hold of every castling move the generator offers.
pub open spec fn castle_ok(t: Team, o: Team, pos: u64, mov: u64) -> bool {
    &&& !(t.positions@[3] & castle_zone(pos, mov) != 0 && t.positions@[4] & castle_zone(pos, mov)
        != 0)
    &&& castle_rook_dest(pos, mov) & (team_mask_spec(t) | team_mask_spec(o)) == 0
}

/// A board apart from a union meets neither part.
pub proof fn lemma_and_or_zero(x: u64, a: u64, b: u64)
    requires
        x & (a | b) == 0,
    ensures
        x & a == 0,
        x & b == 0,
{
    lemma_bit_calc(x, a, b, 0);
    lemma_bit_calc(x & a, x & b, 0, 0);
}

/// Slots of two sides with disjoint occupancies are disjoint.
pub proof fn lemma_slots_cross(t1: Team, t2: Team, s1: int, s2: int)
    requires
        0 <= s1 < 16,
        0 <= s2 < 16,
        team_mask_spec(t1) & team_mask_spec(t2) == 0,
    ensures
        t1.positions@[s1] & t2.positions@[s2] == 0,
{
    lemma_slot_in_mask(t1, s1);
    lemma_slot_in_mask(t2, s2);
    let a = t1.positions@[s1];
    let b = t2.positions@[s2];
    let m1 = team_mask_spec(t1);
    let m2 = team_mask_spec(t2);
    lemma_bit_calc(a, m1, b, m2);
}

/// Sides all of whose slots are pairwise disjoint have disjoint occupancies.
pub proof fn lemma_masks_disjoint(t1: Team, t2: Team)
    requires
        forall|s1: int, s2: int|
            0 <= s1 < 16 && 0 <= s2 < 16 ==> ((#[trigger] t1.positions@[s1])
                & (#[trigger] t2.positions@[s2])) == 0,
    ensures
        team_mask_spec(t1) & team_mask_spec(t2) == 0,
{
    let x = team_mask_spec(t1) & team_mask_spec(t2);
    if x != 0 {
        utils::lemma_low_bit(x);
        let j = low_bit(x);
        utils::lemma_bit_and(team_mask_spec(t1), team_mask_spec(t2), j);
        lemma_mask_bit(t1, j);
        lemma_mask_bit(t2, j);
        let s1 = choose|s: int| 0 <= s < 16 && bit_at(#[trigger] t1.positions@[s], j);
        let s2 = choose|s: int| 0 <= s < 16 && bit_at(#[trigger] t2.positions@[s], j);
        utils::lemma_bit_and(t1.positions@[s1], t2.positions@[s2], j);
        utils::lemma_bit_full_empty(j);
    }
}

/// Sides with the same piece placements have the same occupancy.
pub proof fn lemma_mask_same(t1: Team, t2: Team, n: int)
    requires
        forall|s: int| 0 <= s < n ==> (#[trigger] t1.positions@[s]) == t2.positions@[s],
    ensures
        mask_up_to(t1, n) == mask_up_to(t2, n),
    decreases n,
{
    if n > 0 {
        lemma_mask_same(t1, t2, n - 1);
    }
}

/// How a board after [`Board::play_move`] relates to the board before it:
/// every slot of both sides, all the special-rule bookkeeping, the live
/// counts and the turn are fixed. Together with the side invariants this
/// determines the new board completely.
pub open spec fn play_move_rel(b0: Board, b1: Board, id: int, mov: u64) -> bool {
    let p0 = b0.player;
    let c0 = side(b0, p0);
    let o0 = side(b0, p0.flip());
    let c1 = side(b1, p0);
    let o1 = side(b1, p0.flip());
    let pos = c0.positions@[id];
    let pawn = is_pawn_mover(c0, id);
    let att = capture_square(p0, o0.en_passant_pos, team_mask_spec(o0), pawn, mov);
    let castle = id == 0 && is_castle_step(pos, mov);
    let promo = pawn && on_last_rank(mov);
    &&& b1.moves == b0.moves
    &&& c1.positions@[id] == mov
    &&& forall|s: int|
        0 <= s < 16 && s != id ==> (#[trigger] c1.positions@[s]) == (if castle && (s == 3 || s == 4)
            && c0.positions@[s] & castle_zone(pos, mov) != 0 {
            castle_rook_dest(pos, mov)
        } else {
            c0.positions@[s]
        })
    &&& c1.en_passant_pos == (if pawn && is_double_step(pos, mov) {
        mov
    } else {
        0u64
    })
    &&& c1.promotion_id == (if promo {
        Some(id as usize)
    } else {
        c0.promotion_id
    })
    &&& c1.promotions == c0.promotions
    &&& c1.did_move == (if piece_kind(id) is Rook {
        c0.did_move | mov
    } else {
        c0.did_move
    })
    &&& c1.king_moved == (c0.king_moved || id == 0)
    &&& c1.did_castling == (c0.did_castling || castle)
    &&& forall|s: int|
        0 <= s < 16 ==> (#[trigger] o1.positions@[s]) == (if o0.positions@[s] == att {
            0u64
        } else {
            o0.positions@[s]
        })
    &&& o1.promotions == o0.promotions
    &&& o1.promotion_id == o0.promotion_id
    &&& o1.en_passant_pos == o0.en_passant_pos
    &&& o1.did_move == o0.did_move
    &&& o1.king_moved == o0.king_moved
    &&& o1.did_castling == o0.did_castling
    &&& b1.player == (if promo {
        p0
    } else {
        p0.flip()
    })
    &&& live_count(c1) == live_count(c0)
    &&& live_count(o1) == live_count(o0) - (if exists|s: int|
        0 <= s < 16 && (#[trigger] o0.positions@[s]) == att {
        1int
    } else {
        0int
    })
}

impl Board {
    /// Executes a chosen move of the side to move: resolves the captured
    /// square (en passant included), removes any opponent piece there,
    /// keeps the en-passant, castling and promotion bookkeeping, relocates
    /// the rook of a castling move, writes the new position, and switches
    /// the turn unless a promotion is now pending.
    ///
    /// The caller passes a destination drawn from the piece's legal moves;
    /// the preconditions hold of every such destination.
    #[verifier::loop_isolation(false)]
    pub fn play_move(&mut self, id: usize, mov: u64)
        requires
            board_ok(*old(self)),
            id < 16,
            old(self).cur().positions@[id as int] != 0,
            one_bit(mov),
            mov & team_mask_spec(old(self).cur()) == 0,
            id == 0 && is_castle_step(old(self).cur().positions@[0], mov) ==> castle_ok(
                old(self).cur(),
                old(self).opp(),
                old(self).cur().positions@[0],
                mov,
            ),
        ensures
            board_ok(*final(self)),
            play_move_rel(*old(self), *final(self), id as int, mov),
    {
        let white = match self.player {
            Player::White => true,
            Player::Black => false,
        };
        let mut curr = if white {
            self.white
        } else {
            self.black
        };
        let mut opp = if white {
            self.black
        } else {
            self.white
        };
        let ghost c0 = curr;
        let ghost o0 = opp;
        proof {
            utils::lemma_one_bit(mov);
            let a = team_mask_spec(c0);
            let b = team_mask_spec(o0);
            lemma_bit_calc(a, b, 0, 0);
            assert(a & b == 0);
        }

        let pawn = id >= 8 && curr.promotions[id].is_none();

        // Resolve the captured square: a pawn arriving on the free square in
        // front of the opponent's en-passant pawn takes that pawn instead.
        let omask = opp.mask();
        let mut att_pos = mov;
        if pawn && opp.en_passant_pos > 0 {
            let capt_pos = if white {
                mov >> 8u64
            } else {
                mov << 8u64
            };
            if opp.en_passant_pos == capt_pos && mov & omask == 0 {
                att_pos = capt_pos;
            }
        }
        let ghost att = capture_square(self.player, o0.en_passant_pos, omask, pawn, mov);
        assert(att_pos == att);

        // Remove any opponent piece on the captured square.
        let mut s: usize = 0;
        while s < PIECE_COUNT
            invariant
                s <= 16,
                forall|t2: int|
                    0 <= t2 < s ==> (#[trigger] opp.positions@[t2]) == (if o0.positions@[t2] == att {
                        0u64
                    } else {
                        o0.positions@[t2]
                    }),
                forall|t2: int| s <= t2 < 16 ==> (#[trigger] opp.positions@[t2]) == o0.positions@[t2],
                opp.promotions == o0.promotions,
                opp.promotion_id == o0.promotion_id,
                opp.en_passant_pos == o0.en_passant_pos,
                opp.did_move == o0.did_move,
                opp.king_moved == o0.king_moved,
                opp.did_castling == o0.did_castling,
            decreases 16 - s,
        {
            if opp.positions[s] == att_pos {
                opp.positions[s] = 0;
            }
            s += 1;
        }

        let pos = curr.positions[id];
        let ptz = pos.trailing_zeros();
        let mtz = mov.trailing_zeros();

        let mut switch = true;

        // En-passant bookkeeping: only a fresh double pawn advance leaves
        // its destination capturable in passing; any other move clears it.
        let dbl = pawn && (ptz + 16 == mtz || mtz + 16 == ptz);
        curr.en_passant_pos = if dbl {
            mov
        } else {
            0
        };

        // A pawn reaching the far rank defers the turn switch until a
        // promotion kind is chosen.
        if pawn && (mtz < 8 || mtz >= 56) {
            curr.promotion_id = Some(id);
            switch = false;
        }

        // Castling bookkeeping: a rook move marks its landing square, a
        // king move disqualifies castling for good, and a two-file king
        // step relocates the rook it castles with.
        if id == 3 || id == 4 {
            curr.did_move = curr.did_move | mov;
        }
        if id == 0 {
            curr.king_moved = true;
            if ptz + 2 == mtz || mtz + 2 == ptz {
                curr.did_castling = true;
                let kingside = ptz + 2 == mtz;
                let fill = if kingside {
                    utils::fill_left_excl(pos)
                } else {
                    utils::fill_right_excl(pos)
                };
                let cmask = fill & utils::byte_mask(ptz as usize);
                let rpos = if kingside {
                    mov >> 1u64
                } else {
                    mov << 1u64
                };
                proof {
                    let t = low_bit(mov);
                    assert(((2 <= t < 64 && mov == 1u64 << t) ==> mov >> 1u64 == 1u64 << ((t
                        - 1) as u64)) && ((t < 62 && mov == 1u64 << t) ==> mov << 1u64 == 1u64 << ((
                    t + 1) as u64))) by (bit_vector);
                    utils::lemma_low_bit(pos);
                    if kingside {
                        utils::lemma_one_bit_intro((t - 1) as u64);
                    } else {
                        utils::lemma_one_bit_intro((t + 1) as u64);
                    }
                }
                if curr.positions[3] & cmask != 0 {
                    curr.positions[3] = rpos;
                }
                if curr.positions[4] & cmask != 0 {
                    curr.positions[4] = rpos;
                }
            }
        }

        curr.positions[id] = mov;

        proof {
            let c1 = curr;
            let o1 = opp;
            let castle = id == 0 && is_castle_step(pos, mov);
            assert forall|t2: int| 0 <= t2 < 16 implies ((#[trigger] c1.positions@[t2]) == 0
                || one_bit(c1.positions@[t2])) && ((c0.positions@[t2] != 0) == (c1.positions@[t2]
                != 0)) by {
                if c1.positions@[t2] != c0.positions@[t2] {
                    utils::lemma_one_bit(c1.positions@[t2]);
                }
                if c0.positions@[t2] != 0 {
                    utils::lemma_one_bit(c0.positions@[t2]);
                }
                if c1.positions@[t2] != c0.positions@[t2] && t2 != id {
                    // a relocated rook was in the departure zone, so it was live
                    lemma_bit_calc(castle_zone(pos, mov), 0, 0, 0);
                }
            }
            assert forall|s1: int, s2: int|
                0 <= s1 < 16 && 0 <= s2 < 16 && s1 != s2 implies ((#[trigger] c1.positions@[s1])
                & (#[trigger] c1.positions@[s2])) == 0 by {
                lemma_cur_disjoint(c0, o0, c1, id as int, mov, pos, s1, s2);
            }
            lemma_live_same(c0, c1, 16);
            lemma_live_capture(o0, o1, att, 16);
            assert forall|s1: int, s2: int|
                0 <= s1 < 16 && 0 <= s2 < 16 implies ((#[trigger] c1.positions@[s1])
                & (#[trigger] o1.positions@[s2])) == 0 by {
                let a = c1.positions@[s1];
                let b = o1.positions@[s2];
                if b == 0 {
                    lemma_bit_calc(a, 0, 0, 0);
                } else {
                    // the surviving opponent slot kept its old value
                    if a == c0.positions@[s1] {
                        lemma_slots_cross(c0, o0, s1, s2);
                    } else if s1 == id {
                        // the mover's destination: either an ordinary move,
                        // whose capture removed any opponent piece there, or
                        // an en-passant capture onto a square free of them
                        if att == mov {
                            utils::lemma_one_bit(mov);
                            utils::lemma_one_bit(b);
                            if low_bit(mov) == low_bit(b) {
                                assert(mov == b);
                            }
                            lemma_one_bit_disjoint(mov, b);
                        } else {
                            lemma_outside_mask(o0, mov, s2);
                        }
                    } else {
                        // a relocated castling rook lands free of both sides
                        let rd = castle_rook_dest(pos, mov);
                        lemma_and_or_zero(rd, team_mask_spec(c0), team_mask_spec(o0));
                        lemma_outside_mask(o0, rd, s2);
                    }
                }
            }
            lemma_masks_disjoint(c1, o1);
            lemma_bit_calc(team_mask_spec(c1), team_mask_spec(o1), 0, 0);
            assert forall|t2: int| 0 <= t2 < 16 implies (#[trigger] o1.positions@[t2]) == 0
                || one_bit(o1.positions@[t2]) by {}
            assert forall|s1: int, s2: int|
                0 <= s1 < 16 && 0 <= s2 < 16 && s1 != s2 implies ((#[trigger] o1.positions@[s1])
                & (#[trigger] o1.positions@[s2])) == 0 by {
                lemma_bit_calc(o1.positions@[s1], 0, 0, 0);
                lemma_bit_calc(o1.positions@[s2], 0, 0, 0);
            }
            assert(team_wf(c1));
            assert(team_wf(o1));
        }

        if white {
            self.white = curr;
            self.black = opp;
        } else {
            self.black = curr;
            self.white = opp;
        }
        if switch {
            self.player = self.player.other();
        }
    }
}

/// After a move, any two distinct slots of the mover stay disjoint: the
/// destination was free, a castling rook lands on a free square, and only
/// one rook stood in the departure zone.
proof fn lemma_cur_disjoint(
    c0: Team,
    o0: Team,
    c1: Team,
    id: int,
    mov: u64,
    pos: u64,
    s1: int,
    s2: int,
)
    requires
        team_wf(c0),
        0 <= id < 16,
        0 <= s1 < 16,
        0 <= s2 < 16,
        s1 != s2,
        one_bit(mov),
        mov & team_mask_spec(c0) == 0,
        c1.positions@[id] == mov,
        forall|s: int|
            0 <= s < 16 && s != id ==> (#[trigger] c1.positions@[s]) == c0.positions@[s]
                || c1.positions@[s] == castle_rook_dest(pos, mov),
        forall|s: int|
            0 <= s < 16 && s != id && (#[trigger] c1.positions@[s]) != c0.positions@[s] ==> (s == 3
                || s == 4) && c0.positions@[s] & castle_zone(pos, mov) != 0 && castle_ok(
                c0,
                o0,
                pos,
                mov,
            ) && one_bit(castle_rook_dest(pos, mov)) && low_bit(castle_rook_dest(pos, mov))
                != low_bit(mov),
    ensures
        c1.positions@[s1] & c1.positions@[s2] == 0,
{
    let rd = castle_rook_dest(pos, mov);
    if c1.positions@[s1] != c0.positions@[s1] && s1 != id || c1.positions@[s2] != c0.positions@[s2]
        && s2 != id {
        lemma_and_or_zero(rd, team_mask_spec(c0), team_mask_spec(o0));
    }
    let a0 = c0.positions@[s1];
    let b0 = c0.positions@[s2];
    let a1 = c1.positions@[s1];
    let b1 = c1.positions@[s2];
    if a1 == a0 && b1 == b0 {
        assert(a1 & b1 == 0);
    } else if s1 == id || s2 == id {
        // one side holds the move destination, free before the move
        let other = if s1 == id {
            b1
        } else {
            a1
        };
        let other_s = if s1 == id {
            s2
        } else {
            s1
        };
        if other == c0.positions@[other_s] {
            lemma_outside_mask(c0, mov, other_s);
            lemma_bit_calc(mov, other, 0, 0);
        } else {
            // the other slot is a relocated rook
            utils::lemma_one_bit(mov);
            lemma_one_bit_disjoint(mov, rd);
            lemma_bit_calc(mov, rd, 0, 0);
        }
    } else {
        // neither is the mover: at most one slot was relocated
        if a1 != a0 && b1 != b0 {
            // both slots in the departure zone: excluded by castle_ok
        } else if a1 != a0 {
            lemma_outside_mask(c0, rd, s2);
            assert(rd & b1 == 0);
        } else {
            lemma_outside_mask(c0, rd, s1);
            lemma_bit_calc(rd, a1, 0, 0);
        }
    }
}

// ---------------------------------------------------------------------------
// Pseudo-legal move generation: candidate destinations per piece kind,
// respecting blocking and occupancy but ignoring check safety.
// ---------------------------------------------------------------------------

/// Unions disjoint from a board are built from parts disjoint from it.
pub proof fn lemma_or_disjoint(x: u64, y: u64, c: u64)
    requires
        x & c == 0,
        y & c == 0,
    ensures
        (x | y) & c == 0,
{
    lemma_bit_calc(c, x, y, 0);
    lemma_bit_calc(x, c, 0, 0);
    lemma_bit_calc(y, c, 0, 0);
    lemma_bit_calc(x | y, c, 0, 0);
    lemma_bit_calc(c & x, c & y, 0, 0);
}

/// An upward open ray, clipped at the first blocker: squares at or above
/// the first own piece on the ray are cut, squares strictly above the first
/// enemy piece too, so the nearest enemy piece itself stays capturable.
pub open spec fn clip_up(ray: u64, curr: u64, opp: u64) -> u64 {
    let c = ray & curr;
    let o = ray & opp;
    let cb = if c == 0 {
        0u64
    } else {
        utils::fill_left_incl_spec(c)
    };
    let ob = if o == 0 {
        0u64
    } else {
        utils::fill_left_excl_spec(o)
    };
    ray & !(cb | ob)
}

/// A downward open ray, clipped at the first blocker.
pub open spec fn clip_down(ray: u64, curr: u64, opp: u64) -> u64 {
    let c = ray & curr;
    let o = ray & opp;
    let cb = if c == 0 {
        0u64
    } else {
        utils::fill_right_incl_spec(c)
    };
    let ob = if o == 0 {
        0u64
    } else {
        utils::fill_right_excl_spec(o)
    };
    ray & !(cb | ob)
}

/// A clipped upward ray never reaches an own-occupied square.
pub proof fn lemma_clip_up_own(ray: u64, curr: u64, opp: u64)
    ensures
        clip_up(ray, curr, opp) & curr == 0,
{
    let x = clip_up(ray, curr, opp) & curr;
    if x != 0 {
        utils::lemma_low_bit(x);
        let j = low_bit(x);
        let c = ray & curr;
        let cb = if c == 0 {
            0u64
        } else {
            utils::fill_left_incl_spec(c)
        };
        let ob = if (ray & opp) == 0 {
            0u64
        } else {
            utils::fill_left_excl_spec(ray & opp)
        };
        utils::lemma_bit_and(clip_up(ray, curr, opp), curr, j);
        utils::lemma_bit_and(ray, !(cb | ob), j);
        utils::lemma_bit_not(cb | ob, j);
        utils::lemma_bit_or(cb, ob, j);
        utils::lemma_bit_and(ray, curr, j);
        utils::lemma_bit_full_empty(j);
        utils::lemma_low_bit(c);
        utils::lemma_fill_left_incl(c, j);
    }
}

/// A clipped downward ray never reaches an own-occupied square.
pub proof fn lemma_clip_down_own(ray: u64, curr: u64, opp: u64)
    ensures
        clip_down(ray, curr, opp) & curr == 0,
{
    let x = clip_down(ray, curr, opp) & curr;
    if x != 0 {
        utils::lemma_low_bit(x);
        let j = low_bit(x);
        let c = ray & curr;
        let cb = if c == 0 {
            0u64
        } else {
            utils::fill_right_incl_spec(c)
        };
        let ob = if (ray & opp) == 0 {
            0u64
        } else {
            utils::fill_right_excl_spec(ray & opp)
        };
        utils::lemma_bit_and(clip_down(ray, curr, opp), curr, j);
        utils::lemma_bit_and(ray, !(cb | ob), j);
        utils::lemma_bit_not(cb | ob, j);
        utils::lemma_bit_or(cb, ob, j);
        utils::lemma_bit_and(ray, curr, j);
        utils::lemma_bit_full_empty(j);
        utils::lemma_high_bit(c);
        utils::lemma_fill_right_incl(c, j);
    }
}

/// The half-board strictly ahead of a piece, in its side's forward
/// direction.
pub open spec fn forward_mask(p: Player, pos: u64) -> u64 {
    if p is White {
        utils::fill_left_excl_spec(pos)
    } else {
        utils::fill_right_excl_spec(pos)
    }
}

/// Rook-pattern destinations: the four straight open rays from the piece's
/// square, each clipped at its first blocker.
pub open spec fn ortho_moves_spec(m: Moves, pos: u64, curr: u64, opp: u64) -> u64 {
    let i = low_bit(pos) as int;
    clip_up(m.north@[i], curr, opp) | clip_up(m.west@[i], curr, opp) | clip_down(
        m.south@[i],
        curr,
        opp,
    ) | clip_down(m.east@[i], curr, opp)
}

/// Bishop-pattern destinations: the four diagonal open rays from the
/// piece's square, each clipped at its first blocker.
pub open spec fn diag_moves_spec(m: Moves, pos: u64, curr: u64, opp: u64) -> u64 {
    let i = low_bit(pos) as int;
    clip_up(m.north_east@[i], curr, opp) | clip_up(m.north_west@[i], curr, opp) | clip_down(
        m.south_west@[i],
        curr,
        opp,
    ) | clip_down(m.south_east@[i], curr, opp)
}

/// Knight destinations: the jump table minus own-occupied squares.
pub open spec fn knight_moves_spec(m: Moves, pos: u64, curr: u64) -> u64 {
    m.knight_moves@[low_bit(pos) as int] & !curr
}

/// King single-step destinations: the step table minus own-occupied
/// squares, before check filtering.
pub open spec fn king_moves_spec(m: Moves, pos: u64, curr: u64) -> u64 {
    m.king_moves@[low_bit(pos) as int] & !curr
}

/// Pawn destinations: a single step onto an empty square; from the home
/// rank a double step across an empty square onto an empty square; diagonal
/// captures onto enemy squares; and the en-passant capture onto the free
/// square in front of the opponent's just-advanced pawn.
pub open spec fn pawn_moves_spec(
    m: Moves,
    pos: u64,
    curr: u64,
    opp: u64,
    player: Player,
    opp_ep: u64,
) -> u64 {
    let i = low_bit(pos) as int;
    let msk = forward_mask(player, pos);
    let fwd = m.pawn_moves@[i] & msk & !curr & !opp;
    let home = if player is White {
        rank_of(low_bit(pos)) == 1
    } else {
        rank_of(low_bit(pos)) == 6
    };
    let dbl = if fwd != 0 && home {
        (if player is White {
            pos << 16u64
        } else {
            pos >> 16u64
        }) & !curr & !opp
    } else {
        0u64
    };
    let att = m.pawn_attacks@[i] & msk & opp;
    fwd | dbl | att | pawn_ep_term(m, pos, curr, opp, player, opp_ep)
}

/// The en-passant component of a pawn's destinations: the empty square one
/// rank ahead of the opponent's just-advanced pawn, where it lies on this
/// pawn's forward attack pattern. Zero whenever `opp_ep` is zero — the
/// capture in passing is offered exactly while the window is set.
pub open spec fn pawn_ep_term(
    m: Moves,
    pos: u64,
    curr: u64,
    opp: u64,
    player: Player,
    opp_ep: u64,
) -> u64 {
    let i = low_bit(pos) as int;
    let msk = forward_mask(player, pos);
    (if player is White {
        (((m.pawn_attacks@[i] & msk) >> 8u64) & opp_ep) << 8u64
    } else {
        (((m.pawn_attacks@[i] & msk) << 8u64) & opp_ep) >> 8u64
    }) & !curr & !opp
}

/// Law of the en-passant window: once the opponent's `en_passant_pos`
/// reads as cleared, the generator offers no capture in passing at all.
/// With [`play_move_rel`], which clears it on every own move that is not a
/// fresh double pawn advance, the capture exists for exactly one opponent
/// move.
pub proof fn lemma_ep_capture_needs_window(m: Moves, pos: u64, curr: u64, opp: u64, player: Player)
    ensures
        pawn_ep_term(m, pos, curr, opp, player, 0) == 0,
{
    let i = low_bit(pos) as int;
    let msk = forward_mask(player, pos);
    let a = m.pawn_attacks@[i] & msk;
    lemma_bit_calc(a >> 8u64, curr, opp, 0);
    lemma_bit_calc(a << 8u64, curr, opp, 0);
    lemma_bit_calc(!curr, !opp, 0, 0);
    lemma_bit_calc(!opp, 0, 0, 0);
}

/// Law of the en-passant square: a square is offered by the en-passant
/// component exactly when the window is set on the square one rank behind
/// it (toward the opponent), that square-behind holds the recorded pawn,
/// the destination lies on this pawn's forward attack pattern, and no
/// piece of either side stands on it.
pub proof fn lemma_ep_term_bits(
    m: Moves,
    pos: u64,
    curr: u64,
    opp: u64,
    player: Player,
    opp_ep: u64,
    j: u64,
)
    requires
        j < 64,
    ensures
        bit_at(pawn_ep_term(m, pos, curr, opp, player, opp_ep), j) <==> ({
            let a = m.pawn_attacks@[low_bit(pos) as int] & forward_mask(player, pos);
            &&& (if player is White {
                j >= 8 && bit_at(opp_ep, (j - 8) as u64)
            } else {
                j + 8 < 64 && bit_at(opp_ep, (j + 8) as u64)
            })
            &&& bit_at(a, j)
            &&& !bit_at(curr, j)
            &&& !bit_at(opp, j)
        }),
{
    let a = m.pawn_attacks@[low_bit(pos) as int] & forward_mask(player, pos);
    let inner = if player is White {
        ((a >> 8u64) & opp_ep) << 8u64
    } else {
        ((a << 8u64) & opp_ep) >> 8u64
    };
    utils::lemma_bit_and(inner & !curr, !opp, j);
    utils::lemma_bit_and(inner, !curr, j);
    utils::lemma_bit_not(curr, j);
    utils::lemma_bit_not(opp, j);
    if player is White {
        utils::lemma_bit_shl((a >> 8u64) & opp_ep, 8, j);
        if j >= 8 {
            utils::lemma_bit_and(a >> 8u64, opp_ep, (j - 8) as u64);
            utils::lemma_bit_shr(a, 8, (j - 8) as u64);
        }
    } else {
        utils::lemma_bit_shr((a << 8u64) & opp_ep, 8, j);
        if j + 8 < 64 {
            utils::lemma_bit_and(a << 8u64, opp_ep, (j + 8) as u64);
            utils::lemma_bit_shl(a, 8, (j + 8) as u64);
        }
    }
}

impl Board {
    /// Rook-pattern candidate destinations of the piece on `pos`.
    fn ortho_unrestr(m: &Moves, pos: u64, curr: u64, opp: u64) -> (r: u64)
        requires
            pos != 0,
        ensures
            r == ortho_moves_spec(*m, pos, curr, opp),
            r & curr == 0,
    {
        proof {
            utils::lemma_low_bit(pos);
        }
        let i = pos.trailing_zeros() as usize;
        let mut moves: u64 = 0;

        let mray = m.north[i];
        let cint = mray & curr;
        let oint = mray & opp;
        let cb = if cint != 0 {
            utils::fill_left_incl(cint)
        } else {
            0
        };
        let ob = if oint != 0 {
            utils::fill_left_excl(oint)
        } else {
            0
        };
        moves = moves | (mray & !(cb | ob));

        let mray = m.west[i];
        let cint = mray & curr;
        let oint = mray & opp;
        let cb = if cint != 0 {
            utils::fill_left_incl(cint)
        } else {
            0
        };
        let ob = if oint != 0 {
            utils::fill_left_excl(oint)
        } else {
            0
        };
        moves = moves | (mray & !(cb | ob));

        let mray = m.south[i];
        let cint = mray & curr;
        let oint = mray & opp;
        let cb = if cint != 0 {
            utils::fill_right_incl(cint)
        } else {
            0
        };
        let ob = if oint != 0 {
            utils::fill_right_excl(oint)
        } else {
            0
        };
        moves = moves | (mray & !(cb | ob));

        let mray = m.east[i];
        let cint = mray & curr;
        let oint = mray & opp;
        let cb = if cint != 0 {
            utils::fill_right_incl(cint)
        } else {
            0
        };
        let ob = if oint != 0 {
            utils::fill_right_excl(oint)
        } else {
            0
        };
        moves = moves | (mray & !(cb | ob));

        proof {
            let ii = low_bit(pos) as int;
            lemma_clip_up_own(m.north@[ii], curr, opp);
            lemma_clip_up_own(m.west@[ii], curr, opp);
            lemma_clip_down_own(m.south@[ii], curr, opp);
            lemma_clip_down_own(m.east@[ii], curr, opp);
            lemma_bit_calc(clip_up(m.north@[ii], curr, opp), 0, 0, 0);
            lemma_or_disjoint(clip_up(m.north@[ii], curr, opp), clip_up(m.west@[ii], curr, opp), curr);
            lemma_or_disjoint(
                clip_up(m.north@[ii], curr, opp) | clip_up(m.west@[ii], curr, opp),
                clip_down(m.south@[ii], curr, opp),
                curr,
            );
            lemma_or_disjoint(
                clip_up(m.north@[ii], curr, opp) | clip_up(m.west@[ii], curr, opp) | clip_down(
                    m.south@[ii],
                    curr,
                    opp,
                ),
                clip_down(m.east@[ii], curr, opp),
                curr,
            );
        }
        moves
    }

    /// Bishop-pattern candidate destinations of the piece on `pos`.
    fn diag_unrestr(m: &Moves, pos: u64, curr: u64, opp: u64) -> (r: u64)
        requires
            pos != 0,
        ensures
            r == diag_moves_spec(*m, pos, curr, opp),
            r & curr == 0,
    {
        proof {
            utils::lemma_low_bit(pos);
        }
        let i = pos.trailing_zeros() as usize;
        let mut moves: u64 = 0;

        let mray = m.north_east[i];
        let cint = mray & curr;
        let oint = mray & opp;
        let cb = if cint != 0 {
            utils::fill_left_incl(cint)
        } else {
            0
        };
        let ob = if oint != 0 {
            utils::fill_left_excl(oint)
        } else {
            0
        };
        moves = moves | (mray & !(cb | ob));

        let mray = m.north_west[i];
        let cint = mray & curr;
        let oint = mray & opp;
        let cb = if cint != 0 {
            utils::fill_left_incl(cint)
        } else {
            0
        };
        let ob = if oint != 0 {
            utils::fill_left_excl(oint)
        } else {
            0
        };
        moves = moves | (mray & !(cb | ob));

        let mray = m.south_west[i];
        let cint = mray & curr;
        let oint = mray & opp;
        let cb = if cint != 0 {
            utils::fill_right_incl(cint)
        } else {
            0
        };
        let ob = if oint != 0 {
            utils::fill_right_excl(oint)
        } else {
            0
        };
        moves = moves | (mray & !(cb | ob));

        let mray = m.south_east[i];
        let cint = mray & curr;
        let oint = mray & opp;
        let cb = if cint != 0 {
            utils::fill_right_incl(cint)
        } else {
            0
        };
        let ob = if oint != 0 {
            utils::fill_right_excl(oint)
        } else {
            0
        };
        moves = moves | (mray & !(cb | ob));

        proof {
            let ii = low_bit(pos) as int;
            lemma_clip_up_own(m.north_east@[ii], curr, opp);
            lemma_clip_up_own(m.north_west@[ii], curr, opp);
            lemma_clip_down_own(m.south_west@[ii], curr, opp);
            lemma_clip_down_own(m.south_east@[ii], curr, opp);
            lemma_bit_calc(clip_up(m.north_east@[ii], curr, opp), 0, 0, 0);
            lemma_or_disjoint(
                clip_up(m.north_east@[ii], curr, opp),
                clip_up(m.north_west@[ii], curr, opp),
                curr,
            );
            lemma_or_disjoint(
                clip_up(m.north_east@[ii], curr, opp) | clip_up(m.north_west@[ii], curr, opp),
                clip_down(m.south_west@[ii], curr, opp),
                curr,
            );
            lemma_or_disjoint(
                clip_up(m.north_east@[ii], curr, opp) | clip_up(m.north_west@[ii], curr, opp)
                    | clip_down(m.south_west@[ii], curr, opp),
                clip_down(m.south_east@[ii], curr, opp),
                curr,
            );
        }
        moves
    }

    /// Knight candidate destinations of the piece on `pos`.
    fn knight_unrestr(m: &Moves, pos: u64, curr: u64, _opp: u64) -> (r: u64)
        requires
            pos != 0,
        ensures
            r == knight_moves_spec(*m, pos, curr),
            r & curr == 0,
    {
        proof {
            utils::lemma_low_bit(pos);
            lemma_bit_calc(m.knight_moves@[low_bit(pos) as int], curr, 0, 0);
        }
        let i = pos.trailing_zeros() as usize;
        m.knight_moves[i] & !curr
    }

    /// King single-step candidate destinations, before check filtering.
    fn king_unrestr(m: &Moves, pos: u64, curr: u64, _opp: u64) -> (r: u64)
        requires
            pos != 0,
        ensures
            r == king_moves_spec(*m, pos, curr),
            r & curr == 0,
    {
        proof {
            utils::lemma_low_bit(pos);
            lemma_bit_calc(m.king_moves@[low_bit(pos) as int], curr, 0, 0);
        }
        let i = pos.trailing_zeros() as usize;
        m.king_moves[i] & !curr
    }

    /// Pawn candidate destinations of the unpromoted pawn on `pos`.
    fn pawn_unrestr(
        m: &Moves,
        pos: u64,
        curr: u64,
        opp: u64,
        player: Player,
        opp_en_passant: u64,
    ) -> (r: u64)
        requires
            pos != 0,
        ensures
            r == pawn_moves_spec(*m, pos, curr, opp, player, opp_en_passant),
            opp & curr == 0 ==> r & curr == 0,
    {
        proof {
            utils::lemma_low_bit(pos);
        }
        let i = pos.trailing_zeros() as usize;
        let white = match player {
            Player::White => true,
            Player::Black => false,
        };

        let msk = if white {
            utils::fill_left_excl(pos)
        } else {
            utils::fill_right_excl(pos)
        };

        let fwd = m.pawn_moves[i] & msk & !curr & !opp;

        let home = if white {
            i >> 3 == 1
        } else {
            i >> 3 == 6
        };
        proof {
            let k = i as u64;
            assert((k >> 3u64 == 1 <==> k / 8 == 1) && (k >> 3u64 == 6 <==> k / 8 == 6))
                by (bit_vector);
        }
        let dbl = if fwd != 0 && home {
            (if white {
                pos << 16u64
            } else {
                pos >> 16u64
            }) & !curr & !opp
        } else {
            0u64
        };

        let att = m.pawn_attacks[i] & msk & opp;

        let ep = (if white {
            (((m.pawn_attacks[i] & msk) >> 8u64) & opp_en_passant) << 8u64
        } else {
            (((m.pawn_attacks[i] & msk) << 8u64) & opp_en_passant) >> 8u64
        }) & !curr & !opp;

        proof {
            if opp & curr == 0 {
                let ii = low_bit(pos) as int;
                let mska = forward_mask(player, pos);
                let t1 = m.pawn_moves@[ii] & mska;
                lemma_bit_calc(t1, curr, 0, 0);
                lemma_bit_calc(t1 & !curr, curr, !opp, 0);
                let t2 = if player is White {
                    pos << 16u64
                } else {
                    pos >> 16u64
                };
                lemma_bit_calc(t2, curr, 0, 0);
                lemma_bit_calc(t2 & !curr, curr, !opp, 0);
                lemma_bit_calc(curr, 0, 0, 0);
                let t3 = m.pawn_attacks@[ii] & mska;
                lemma_bit_calc(opp, curr, t3, 0);
                let t4 = if player is White {
                    ((t3 >> 8u64) & opp_en_passant) << 8u64
                } else {
                    ((t3 << 8u64) & opp_en_passant) >> 8u64
                };
                lemma_bit_calc(t4, curr, 0, 0);
                lemma_bit_calc(t4 & !curr, curr, !opp, 0);
                lemma_or_disjoint(fwd, dbl, curr);
                lemma_or_disjoint(fwd | dbl, att, curr);
                lemma_or_disjoint(fwd | dbl | att, ep, curr);
            }
        }
        fwd | dbl | att | ep
    }

    /// Keeps only the destinations the pin restriction allows.
    fn restrict(mov: u64, pins: u64) -> (r: u64)
        ensures
            r == (mov & pins),
    {
        mov & pins
    }

    /// Whether a rook-line piece on `pos` reaches `target`: the two squares
    /// share a rank or file and no blocker stands strictly between them.
    fn ortho_can_reach(pos: u64, target: u64, blk: u64) -> (r: bool)
        requires
            pos == 0 || one_bit(pos),
        ensures
            r == ortho_reach_spec(pos, target, blk),
    {
        if pos == 0 {
            return false;
        }
        let ray = utils::ortho_ray_between_incl(pos, target);
        if ray == 0 || blk & (ray & !pos & !target) > 0 {
            false
        } else {
            true
        }
    }

    /// Whether a bishop-line piece on `pos` reaches `target`: the two
    /// squares share a diagonal and no blocker stands strictly between.
    fn diag_can_reach(pos: u64, target: u64, blk: u64) -> (r: bool)
        requires
            pos == 0 || one_bit(pos),
        ensures
            r == diag_reach_spec(pos, target, blk),
    {
        if pos == 0 {
            return false;
        }
        let ray = utils::diag_ray_between_incl(pos, target);
        if ray == 0 || blk & (ray & !pos & !target) > 0 {
            false
        } else {
            true
        }
    }

    /// Whether any opponent piece threatens the square of `pos`. The
    /// squares of `excl` are removed from the blockers: the king's own
    /// square goes there, so that a king retreating along a checking ray
    /// still reads as attacked.
    #[verifier::loop_isolation(false)]
    fn is_attacked(
        m: &Moves,
        pos: u64,
        excl: u64,
        curr: u64,
        opp: u64,
        opp_pos: &[u64; PIECE_COUNT],
        opp_prom: &[Option<Piece>; PIECE_COUNT],
        player: Player,
    ) -> (r: bool)
        requires
            pos != 0,
            forall|s: int|
                0 <= s < 16 ==> (#[trigger] opp_pos@[s]) == 0 || one_bit(opp_pos@[s]),
        ensures
            r == attacked_spec(*m, pos, excl, curr, opp, *opp_pos, *opp_prom, player),
    {
        proof {
            utils::lemma_low_bit(pos);
        }
        let id = pos.trailing_zeros() as usize;

        let fmask = match player {
            Player::White => utils::fill_left_excl(pos),
            Player::Black => utils::fill_right_excl(pos),
        };
        let pwn_att = m.pawn_attacks[id] & fmask;

        // Unpromoted enemy pawns one diagonal step ahead.
        let mut i: usize = 8;
        while i < 16
            invariant
                8 <= i <= 16,
                forall|k: int|
                    8 <= k < i ==> !((#[trigger] opp_prom@[k]) is None && opp_pos@[k] & (
                    m.pawn_attacks@[low_bit(pos) as int] & forward_mask(player, pos)) != 0),
            decreases 16 - i,
        {
            if opp_prom[i].is_none() && opp_pos[i] & pwn_att > 0 {
                return true;
            }
            i += 1;
        }

        // Enemy knights a jump away.
        if m.knight_moves[id] & (opp_pos[1] | opp_pos[2]) > 0 {
            return true;
        }

        // Pawns promoted to knights.
        let mut i: usize = 8;
        while i < 16
            invariant
                8 <= i <= 16,
                forall|k: int|
                    8 <= k < i ==> !((#[trigger] opp_prom@[k]) == Some(Piece::Knight)
                        && opp_pos@[k] != 0 && m.knight_moves@[low_bit(opp_pos@[k]) as int] & pos
                        != 0),
            decreases 16 - i,
        {
            if matches!(opp_prom[i], Some(Piece::Knight)) {
                let p = opp_pos[i];
                if p != 0 {
                    proof {
                        utils::lemma_low_bit(p);
                    }
                    let tz = p.trailing_zeros() as usize;
                    if m.knight_moves[tz] & pos > 0 {
                        return true;
                    }
                }
            }
            i += 1;
        }

        let blk = ((curr & !excl) & !pos) | opp;

        // Enemy rooks and queen along a rank or file.
        let mut i: usize = 3;
        while i < 6
            invariant
                3 <= i <= 6,
                forall|k: int|
                    3 <= k < i ==> !(ortho_reach_spec(#[trigger] opp_pos@[k], pos, ((curr & !excl)
                        & !pos) | opp) && opp_pos@[k] != pos),
            decreases 6 - i,
        {
            let p = opp_pos[i];
            if Self::ortho_can_reach(p, pos, blk) && p != pos {
                return true;
            }
            i += 1;
        }

        // Enemy queen and bishops along a diagonal.
        let mut i: usize = 5;
        while i < 8
            invariant
                5 <= i <= 8,
                forall|k: int|
                    5 <= k < i ==> !(diag_reach_spec(#[trigger] opp_pos@[k], pos, ((curr & !excl)
                        & !pos) | opp) && opp_pos@[k] != pos),
            decreases 8 - i,
        {
            let p = opp_pos[i];
            if Self::diag_can_reach(p, pos, blk) && p != pos {
                return true;
            }
            i += 1;
        }

        // Pawns promoted to line pieces.
        let mut i: usize = 8;
        while i < 16
            invariant
                8 <= i <= 16,
                forall|k: int|
                    8 <= k < i ==> !(((#[trigger] opp_prom@[k]) == Some(Piece::Rook)
                        || opp_prom@[k] == Some(Piece::Queen)) && ortho_reach_spec(
                        opp_pos@[k],
                        pos,
                        ((curr & !excl) & !pos) | opp,
                    ) && opp_pos@[k] != pos),
                forall|k: int|
                    8 <= k < i ==> !(((#[trigger] opp_prom@[k]) == Some(Piece::Bishop)
                        || opp_prom@[k] == Some(Piece::Queen)) && diag_reach_spec(
                        opp_pos@[k],
                        pos,
                        ((curr & !excl) & !pos) | opp,
                    ) && opp_pos@[k] != pos),
            decreases 16 - i,
        {
            let p = opp_pos[i];
            if matches!(opp_prom[i], Some(Piece::Rook)) || matches!(opp_prom[i], Some(Piece::Queen))
                {
                if Self::ortho_can_reach(p, pos, blk) && p != pos {
                    return true;
                }
            }
            if matches!(opp_prom[i], Some(Piece::Bishop)) || matches!(
                opp_prom[i],
                Some(Piece::Queen),
            ) {
                if Self::diag_can_reach(p, pos, blk) && p != pos {
                    return true;
                }
            }
            i += 1;
        }

        false
    }

    /// Removes from a king's candidate destinations every square the
    /// opponent attacks, with the king's current square (`excl`) seen
    /// through: he cannot shelter behind his own origin.
    #[verifier::loop_isolation(false)]
    fn restrict_king(
        m: &Moves,
        moves: u64,
        excl: u64,
        curr: u64,
        opp: u64,
        opp_pos: &[u64; PIECE_COUNT],
        opp_prom: &[Option<Piece>; PIECE_COUNT],
        player: Player,
    ) -> (r: u64)
        requires
            forall|s: int|
                0 <= s < 16 ==> (#[trigger] opp_pos@[s]) == 0 || one_bit(opp_pos@[s]),
        ensures
            r == king_filter(*m, moves, excl, curr, opp, *opp_pos, *opp_prom, player, 64),
            forall|j: u64|
                j < 64 ==> (#[trigger] bit_at(r, j) <==> bit_at(moves, j) && !attacked_spec(
                    *m,
                    1u64 << j,
                    excl,
                    curr,
                    opp,
                    *opp_pos,
                    *opp_prom,
                    player,
                )),
    {
        let mut r: u64 = 0;
        let mut j: usize = 0;
        proof {
            assert forall|k: u64| k < 64 implies !bit_at(0u64, k) by {
                utils::lemma_bit_full_empty(k);
            }
        }
        while j < 64
            invariant
                j <= 64,
                r == king_filter(*m, moves, excl, curr, opp, *opp_pos, *opp_prom, player, j as int),
                forall|k: u64|
                    k < j ==> (#[trigger] bit_at(r, k) <==> bit_at(moves, k) && !attacked_spec(
                        *m,
                        1u64 << k,
                        excl,
                        curr,
                        opp,
                        *opp_pos,
                        *opp_prom,
                        player,
                    )),
                forall|k: u64| j <= k < 64 ==> !(#[trigger] bit_at(r, k)),
            decreases 64 - j,
        {
            let b: u64 = 1u64 << (j as u64);
            proof {
                utils::lemma_bit_test(moves, j as u64);
                utils::lemma_bit_sq(j as u64, j as u64);
            }
            let keep = if moves & b != 0 {
                !Self::is_attacked(m, b, excl, curr, opp, opp_pos, opp_prom, player)
            } else {
                false
            };
            let ghost r0 = r;
            if keep {
                r = r | b;
            }
            proof {
                lemma_bit_calc(r0, 0, 0, 0);
                assert forall|k: u64| k < 64 implies ((#[trigger] bit_at(r, k)) <==> (bit_at(
                    r0,
                    k,
                ) || (keep && k == j))) by {
                    if keep {
                        utils::lemma_bit_or(r0, b, k);
                        utils::lemma_bit_sq(j as u64, k);
                    }
                }
            }
            j += 1;
        }
        r
    }
}

/// A king's single-step destinations among the first `n` squares: the
/// candidate squares the opponent does not attack, his own current square
/// (`excl`) counting as vacated.
pub open spec fn king_filter(
    m: Moves,
    moves: u64,
    excl: u64,
    curr: u64,
    opp: u64,
    opp_pos: [u64; PIECE_COUNT],
    opp_prom: [Option<Piece>; PIECE_COUNT],
    player: Player,
    n: int,
) -> u64
    decreases n,
{
    if n <= 0 {
        0u64
    } else {
        king_filter(m, moves, excl, curr, opp, opp_pos, opp_prom, player, n - 1) | (if bit_at(
            moves,
            (n - 1) as u64,
        ) && !attacked_spec(
            m,
            1u64 << ((n - 1) as u64),
            excl,
            curr,
            opp,
            opp_pos,
            opp_prom,
            player,
        ) {
            1u64 << ((n - 1) as u64)
        } else {
            0u64
        })
    }
}

/// A rook-line piece on the square of `p` reaches `target` over blockers
/// `blk`: the squares are colinear along a rank or file and nothing stands
/// strictly between them.
pub open spec fn ortho_reach_spec(p: u64, target: u64, blk: u64) -> bool {
    let ray = utils::ortho_ray_between_incl_spec(p, target);
    p != 0 && ray != 0 && blk & (ray & !p & !target) == 0
}

/// A bishop-line piece on the square of `p` reaches `target` over blockers
/// `blk`.
pub open spec fn diag_reach_spec(p: u64, target: u64, blk: u64) -> bool {
    let ray = utils::diag_ray_between_incl_spec(p, target);
    p != 0 && ray != 0 && blk & (ray & !p & !target) == 0
}

/// An opponent piece threatens the square of `pos`: a pawn one forward
/// diagonal away, a knight a jump away, or a line piece with a clear rank,
/// file or diagonal to it — promoted pawns counted under their replacement
/// kinds. The squares of `excl` do not block: the king's current square is
/// passed there so that he cannot shelter behind his own origin along a
/// checking ray. A piece standing on the square itself does not block
/// either, since a capture removes it.
pub open spec fn attacked_spec(
    m: Moves,
    pos: u64,
    excl: u64,
    curr: u64,
    opp: u64,
    opp_pos: [u64; PIECE_COUNT],
    opp_prom: [Option<Piece>; PIECE_COUNT],
    player: Player,
) -> bool {
    let id = low_bit(pos) as int;
    let pwn_att = m.pawn_attacks@[id] & forward_mask(player, pos);
    let blk = ((curr & !excl) & !pos) | opp;
    ||| (exists|i: int|
        8 <= i < 16 && (#[trigger] opp_prom@[i]) is None && opp_pos@[i] & pwn_att != 0)
    ||| m.knight_moves@[id] & (opp_pos@[1] | opp_pos@[2]) != 0
    ||| (exists|i: int|
        8 <= i < 16 && (#[trigger] opp_prom@[i]) == Some(Piece::Knight) && opp_pos@[i] != 0
            && m.knight_moves@[low_bit(opp_pos@[i]) as int] & pos != 0)
    ||| (exists|i: int|
        3 <= i < 6 && ortho_reach_spec(#[trigger] opp_pos@[i], pos, blk) && opp_pos@[i] != pos)
    ||| (exists|i: int|
        5 <= i < 8 && diag_reach_spec(#[trigger] opp_pos@[i], pos, blk) && opp_pos@[i] != pos)
    ||| (exists|i: int|
        8 <= i < 16 && ((#[trigger] opp_prom@[i]) == Some(Piece::Rook) || opp_prom@[i] == Some(
            Piece::Queen,
        )) && ortho_reach_spec(opp_pos@[i], pos, blk) && opp_pos@[i] != pos)
    ||| (exists|i: int|
        8 <= i < 16 && ((#[trigger] opp_prom@[i]) == Some(Piece::Bishop) || opp_prom@[i] == Some(
            Piece::Queen,
        )) && diag_reach_spec(opp_pos@[i], pos, blk) && opp_pos@[i] != pos)
}

// ---------------------------------------------------------------------------
// The pin engine: a restriction mask for one piece of the side to move.
// ---------------------------------------------------------------------------

/// A board with no square under 64 set is empty.
pub proof fn lemma_empty64(x: u64)
    requires
        forall|j: u64| j < 64 ==> !bit_at(x, j),
    ensures
        x == 0,
{
    if x != 0 {
        utils::lemma_low_bit(x);
    }
}

/// A single square drawn from a board that avoids a mask avoids it too.
pub proof fn lemma_member_disjoint(r: u64, mask: u64, j: u64)
    requires
        j < 64,
        bit_at(r, j),
        r & mask == 0,
    ensures
        (1u64 << j) & mask == 0,
{
    utils::lemma_bit_and(r, mask, j);
    utils::lemma_bit_full_empty(j);
    assert forall|k: u64| k < 64 implies !bit_at((1u64 << j) & mask, k) by {
        utils::lemma_bit_and(1u64 << j, mask, k);
        utils::lemma_bit_sq(j, k);
    }
    lemma_empty64((1u64 << j) & mask);
}

/// Narrowing a restriction keeps every bound it already meets.
pub proof fn lemma_keep_bound(p: u64, x: u64, y: u64)
    requires
        p & !y == 0,
    ensures
        (p & x) & !y == 0,
        (x & p) & !y == 0,
{
    lemma_bit_calc(p, !y, x, 0);
}

/// An enemy line piece on the square of `o` pins along its line to the
/// king, or checks him directly: the squares strictly between are empty
/// but for at most the moving piece itself.
pub open spec fn pin_line_ortho(kp: u64, o: u64, curr: u64, opp: u64, pos: u64) -> bool {
    let ray = utils::ortho_ray_between_excl_spec(kp, o);
    ray != 0 && ((ray & (curr | opp)) == 0 || (ray & (curr | opp)) == pos)
}

/// As [`pin_line_ortho`], along a diagonal.
pub open spec fn pin_line_diag(kp: u64, o: u64, curr: u64, opp: u64, pos: u64) -> bool {
    let ray = utils::diag_ray_between_excl_spec(kp, o);
    ray != 0 && ((ray & (curr | opp)) == 0 || (ray & (curr | opp)) == pos)
}

/// The restriction a rank-or-file attacker on the square of `o` imposes:
/// while it pins through the moving piece or checks the king, the piece may
/// only stay on the line or capture the attacker; an attacker directly
/// beside the king leaves only its own square.
pub open spec fn ortho_pin_bound(r: u64, kp: u64, o: u64, curr: u64, opp: u64, pos: u64) -> bool {
    &&& (pin_line_ortho(kp, o, curr, opp, pos) ==> r & !(utils::ortho_ray_between_excl_spec(kp, o)
        | o) == 0)
    &&& (utils::ortho_ray_between_excl_spec(kp, o) == 0 && utils::ortho_ray_between_incl_spec(
        kp,
        o,
    ) != 0 ==> r & !o == 0)
}

/// As [`ortho_pin_bound`], along a diagonal.
pub open spec fn diag_pin_bound(r: u64, kp: u64, o: u64, curr: u64, opp: u64, pos: u64) -> bool {
    &&& (pin_line_diag(kp, o, curr, opp, pos) ==> r & !(utils::diag_ray_between_excl_spec(kp, o)
        | o) == 0)
    &&& (utils::diag_ray_between_excl_spec(kp, o) == 0 && utils::diag_ray_between_incl_spec(kp, o)
        != 0 ==> r & !o == 0)
}

/// The squares from which an enemy pawn would check the king.
pub open spec fn pawn_check_mask(m: Moves, kp: u64, player: Player) -> u64 {
    m.pawn_attacks@[low_bit(kp) as int] & forward_mask(player, kp)
}

/// All the restrictions the pin engine promises of its result, over every
/// enemy slot: line pieces pin or check along their line, and a knight or
/// pawn checking the king leaves only its own square — promoted pawns
/// counted under their replacement kinds.
pub open spec fn pin_bounds(
    r: u64,
    m: Moves,
    pos: u64,
    curr: u64,
    opp: u64,
    opp_pos: [u64; PIECE_COUNT],
    opp_prom: [Option<Piece>; PIECE_COUNT],
    kp: u64,
    player: Player,
) -> bool {
    &&& forall|i: int|
        8 <= i < 16 && (#[trigger] opp_prom@[i]) is None && opp_pos@[i] & pawn_check_mask(
            m,
            kp,
            player,
        ) != 0 ==> r & !opp_pos@[i] == 0
    &&& forall|i: int|
        1 <= i < 3 && m.knight_moves@[low_bit(kp) as int] & (#[trigger] opp_pos@[i]) != 0 ==> r
            & !opp_pos@[i] == 0
    &&& forall|i: int| 3 <= i < 6 ==> ortho_pin_bound(r, kp, #[trigger] opp_pos@[i], curr, opp, pos)
    &&& forall|i: int| 5 <= i < 8 ==> diag_pin_bound(r, kp, #[trigger] opp_pos@[i], curr, opp, pos)
    &&& forall|i: int|
        8 <= i < 16 && (#[trigger] opp_prom@[i]) == Some(Piece::Knight)
            && m.knight_moves@[low_bit(kp) as int] & opp_pos@[i] != 0 ==> r & !opp_pos@[i] == 0
    &&& forall|i: int|
        8 <= i < 16 && ((#[trigger] opp_prom@[i]) == Some(Piece::Rook) || opp_prom@[i] == Some(
            Piece::Queen,
        )) ==> ortho_pin_bound(r, kp, opp_pos@[i], curr, opp, pos)
    &&& forall|i: int|
        8 <= i < 16 && ((#[trigger] opp_prom@[i]) == Some(Piece::Bishop) || opp_prom@[i] == Some(
            Piece::Queen,
        )) ==> diag_pin_bound(r, kp, opp_pos@[i], curr, opp, pos)
}

/// The whole board: no restriction.
pub const OPEN: u64 = 0xffff_ffff_ffff_ffff;

/// The restriction one enemy rank-or-file attacker imposes: its pinning
/// line and its own square while it pins or checks, its own square alone
/// when it stands beside the king, and no restriction otherwise.
pub open spec fn ortho_slot_mask(kp: u64, o: u64, curr: u64, opp: u64, pos: u64) -> u64 {
    let ray = utils::ortho_ray_between_excl_spec(kp, o);
    if ray == 0 {
        if utils::ortho_ray_between_incl_spec(kp, o) != 0 {
            o
        } else {
            OPEN
        }
    } else {
        let blk = ray & (curr | opp);
        if blk == 0 || blk == pos {
            ray | o
        } else {
            OPEN
        }
    }
}

/// As [`ortho_slot_mask`], along a diagonal.
pub open spec fn diag_slot_mask(kp: u64, o: u64, curr: u64, opp: u64, pos: u64) -> u64 {
    let ray = utils::diag_ray_between_excl_spec(kp, o);
    if ray == 0 {
        if utils::diag_ray_between_incl_spec(kp, o) != 0 {
            o
        } else {
            OPEN
        }
    } else {
        let blk = ray & (curr | opp);
        if blk == 0 || blk == pos {
            ray | o
        } else {
            OPEN
        }
    }
}

/// The restriction one enemy knight imposes: its own square while it
/// checks the king.
pub open spec fn knight_slot_mask(m: Moves, kp: u64, o: u64) -> u64 {
    if m.knight_moves@[low_bit(kp) as int] & o != 0 {
        o
    } else {
        OPEN
    }
}

/// The restriction one enemy pawn slot imposes: its own square while it is
/// unpromoted and checks the king.
pub open spec fn pawn_slot_mask(
    m: Moves,
    kp: u64,
    player: Player,
    prom: Option<Piece>,
    o: u64,
) -> u64 {
    if prom is None && o & pawn_check_mask(m, kp, player) != 0 {
        o
    } else {
        OPEN
    }
}

/// The restriction one promoted enemy pawn imposes, under its replacement
/// kind.
pub open spec fn promoted_slot_mask(
    m: Moves,
    kp: u64,
    curr: u64,
    opp: u64,
    pos: u64,
    prom: Option<Piece>,
    o: u64,
) -> u64 {
    let s1 = if prom == Some(Piece::Knight) && m.knight_moves@[low_bit(kp) as int] & o != 0 {
        o
    } else {
        OPEN
    };
    let s2 = if prom == Some(Piece::Rook) || prom == Some(Piece::Queen) {
        ortho_slot_mask(kp, o, curr, opp, pos)
    } else {
        OPEN
    };
    let s3 = if prom == Some(Piece::Bishop) || prom == Some(Piece::Queen) {
        diag_slot_mask(kp, o, curr, opp, pos)
    } else {
        OPEN
    };
    s1 & (s2 & s3)
}

/// The pawn-check restrictions over the first `n` slots.
pub open spec fn pins_pawn_upto(
    m: Moves,
    opp_pos: [u64; PIECE_COUNT],
    opp_prom: [Option<Piece>; PIECE_COUNT],
    kp: u64,
    player: Player,
    n: int,
) -> u64
    decreases n,
{
    if n <= 8 {
        OPEN
    } else {
        pins_pawn_upto(m, opp_pos, opp_prom, kp, player, n - 1) & pawn_slot_mask(
            m,
            kp,
            player,
            opp_prom@[n - 1],
            opp_pos@[n - 1],
        )
    }
}

/// The knight-check restrictions of the two knight slots.
pub open spec fn pins_knights(m: Moves, opp_pos: [u64; PIECE_COUNT], kp: u64) -> u64 {
    knight_slot_mask(m, kp, opp_pos@[1]) & knight_slot_mask(m, kp, opp_pos@[2])
}

/// The rank-and-file restrictions of the rook and queen slots up to `n`.
pub open spec fn pins_ortho_upto(
    kp: u64,
    curr: u64,
    opp: u64,
    pos: u64,
    opp_pos: [u64; PIECE_COUNT],
    n: int,
) -> u64
    decreases n,
{
    if n <= 3 {
        OPEN
    } else {
        pins_ortho_upto(kp, curr, opp, pos, opp_pos, n - 1) & ortho_slot_mask(
            kp,
            opp_pos@[n - 1],
            curr,
            opp,
            pos,
        )
    }
}

/// The diagonal restrictions of the queen and bishop slots up to `n`.
pub open spec fn pins_diag_upto(
    kp: u64,
    curr: u64,
    opp: u64,
    pos: u64,
    opp_pos: [u64; PIECE_COUNT],
    n: int,
) -> u64
    decreases n,
{
    if n <= 5 {
        OPEN
    } else {
        pins_diag_upto(kp, curr, opp, pos, opp_pos, n - 1) & diag_slot_mask(
            kp,
            opp_pos@[n - 1],
            curr,
            opp,
            pos,
        )
    }
}

/// The promoted-pawn restrictions over the first `n` slots.
pub open spec fn pins_promoted_upto(
    m: Moves,
    kp: u64,
    curr: u64,
    opp: u64,
    pos: u64,
    opp_pos: [u64; PIECE_COUNT],
    opp_prom: [Option<Piece>; PIECE_COUNT],
    n: int,
) -> u64
    decreases n,
{
    if n <= 8 {
        OPEN
    } else {
        pins_promoted_upto(m, kp, curr, opp, pos, opp_pos, opp_prom, n - 1) & promoted_slot_mask(
            m,
            kp,
            curr,
            opp,
            pos,
            opp_prom@[n - 1],
            opp_pos@[n - 1],
        )
    }
}

/// The whole pin restriction: the intersection of the restriction every
/// enemy slot imposes.
pub open spec fn pins_spec(
    m: Moves,
    pos: u64,
    curr: u64,
    opp: u64,
    opp_pos: [u64; PIECE_COUNT],
    opp_prom: [Option<Piece>; PIECE_COUNT],
    kp: u64,
    player: Player,
) -> u64 {
    pins_pawn_upto(m, opp_pos, opp_prom, kp, player, 16) & pins_knights(m, opp_pos, kp)
        & pins_ortho_upto(kp, curr, opp, pos, opp_pos, 6) & pins_diag_upto(
        kp,
        curr,
        opp,
        pos,
        opp_pos,
        8,
    ) & pins_promoted_upto(m, kp, curr, opp, pos, opp_pos, opp_prom, 16)
}

impl Board {
    /// The pin restriction for the piece of the side to move on `pos`:
    /// intersected with its pseudo-legal destinations it yields the fully
    /// legal ones. Checks by knights or pawns collapse the restriction to
    /// the checker's square; line attackers pinning through the piece, or
    /// checking the king, restrict it to their line and their square.
    #[verifier::loop_isolation(false)]
    fn comp_pins(
        m: &Moves,
        pos: u64,
        curr: u64,
        opp: u64,
        opp_pos: &[u64; PIECE_COUNT],
        opp_prom: &[Option<Piece>; PIECE_COUNT],
        king_pos: u64,
        player: Player,
    ) -> (r: u64)
        requires
            one_bit(king_pos),
            forall|s: int| 0 <= s < 16 ==> (#[trigger] opp_pos@[s]) == 0 || one_bit(opp_pos@[s]),
        ensures
            r == pins_spec(*m, pos, curr, opp, *opp_pos, *opp_prom, king_pos, player),
            pin_bounds(r, *m, pos, curr, opp, *opp_pos, *opp_prom, king_pos, player),
    {
        proof {
            utils::lemma_one_bit(king_pos);
        }
        let king_id = king_pos.trailing_zeros() as usize;

        let fmask = match player {
            Player::White => utils::fill_left_excl(king_pos),
            Player::Black => utils::fill_right_excl(king_pos),
        };
        let pwn_att = m.pawn_attacks[king_id] & fmask;
        let kn_mov = m.knight_moves[king_id];

        // Checks by unpromoted enemy pawns.
        let mut a1: u64 = OPEN;
        let mut i: usize = 8;
        while i < 16
            invariant
                8 <= i <= 16,
                a1 == pins_pawn_upto(*m, *opp_pos, *opp_prom, king_pos, player, i as int),
                forall|k: int|
                    8 <= k < i && (#[trigger] opp_prom@[k]) is None && opp_pos@[k]
                        & pawn_check_mask(*m, king_pos, player) != 0 ==> a1 & !opp_pos@[k] == 0,
            decreases 16 - i,
        {
            let ghost a1_old = a1;
            if opp_prom[i].is_none() && pwn_att & opp_pos[i] > 0 {
                a1 = a1 & opp_pos[i];
            }
            proof {
                lemma_bit_calc(pawn_check_mask(*m, king_pos, player), opp_pos@[i as int], 0, 0);
                lemma_bit_calc(a1_old, 0, 0, 0);
                assert(a1 == a1_old & pawn_slot_mask(
                    *m,
                    king_pos,
                    player,
                    opp_prom@[i as int],
                    opp_pos@[i as int],
                ));
                assert forall|k: int|
                    8 <= k < i + 1 && (#[trigger] opp_prom@[k]) is None && opp_pos@[k]
                        & pawn_check_mask(*m, king_pos, player) != 0 implies a1 & !opp_pos@[k]
                    == 0 by {
                    lemma_bit_calc(a1_old, opp_pos@[i as int], 0, 0);
                    lemma_bit_calc(pawn_check_mask(*m, king_pos, player), opp_pos@[k], 0, 0);
                    if k < i {
                        lemma_keep_bound(a1_old, opp_pos@[i as int], opp_pos@[k]);
                    }
                }
            }
            i += 1;
        }

        // Checks by enemy knights.
        let mut a2: u64 = OPEN;
        if kn_mov & opp_pos[1] > 0 {
            a2 = a2 & opp_pos[1];
        }
        let ghost a2_mid = a2;
        if kn_mov & opp_pos[2] > 0 {
            a2 = a2 & opp_pos[2];
        }
        proof {
            lemma_bit_calc(OPEN, opp_pos@[1], 0, 0);
            lemma_bit_calc(a2_mid, opp_pos@[2], 0, 0);
            lemma_bit_calc(knight_slot_mask(*m, king_pos, opp_pos@[1]), 0, 0, 0);
            lemma_bit_calc(knight_slot_mask(*m, king_pos, opp_pos@[2]), 0, 0, 0);
            if kn_mov & opp_pos@[1] != 0 {
                lemma_keep_bound(a2_mid, opp_pos@[2], opp_pos@[1]);
            }
            assert(a2 == pins_knights(*m, *opp_pos, king_pos));
        }

        // Enemy rooks and queen along ranks and files.
        let mut a3: u64 = OPEN;
        let mut i: usize = 3;
        while i < 6
            invariant
                3 <= i <= 6,
                a3 == pins_ortho_upto(king_pos, curr, opp, pos, *opp_pos, i as int),
                forall|k: int|
                    3 <= k < i ==> ortho_pin_bound(a3, king_pos, #[trigger] opp_pos@[k], curr, opp, pos),
            decreases 6 - i,
        {
            let ghost a3_old = a3;
            let o = opp_pos[i];
            let ray = utils::ortho_ray_between_excl(king_pos, o);
            if ray == 0 {
                if utils::ortho_ray_between_incl(king_pos, o) > 0 {
                    a3 = a3 & o;
                }
            } else {
                let blockers = ray & (curr | opp);
                if blockers == 0 || blockers == pos {
                    a3 = a3 & (ray | o);
                }
            }
            proof {
                lemma_bit_calc(a3_old, 0, 0, 0);
                assert(a3 == a3_old & ortho_slot_mask(king_pos, o, curr, opp, pos));
                assert forall|k: int|
                    3 <= k < i + 1 implies ortho_pin_bound(
                    a3,
                    king_pos,
                    #[trigger] opp_pos@[k],
                    curr,
                    opp,
                    pos,
                ) by {
                    lemma_bit_calc(a3_old, o, 0, 0);
                    lemma_bit_calc(a3_old, utils::ortho_ray_between_excl_spec(king_pos, o) | o, 0, 0);
                    if k < i {
                        let yk1 = utils::ortho_ray_between_excl_spec(king_pos, opp_pos@[k])
                            | opp_pos@[k];
                        if pin_line_ortho(king_pos, opp_pos@[k], curr, opp, pos) {
                            lemma_keep_bound(a3_old, o, yk1);
                            lemma_keep_bound(
                                a3_old,
                                utils::ortho_ray_between_excl_spec(king_pos, o) | o,
                                yk1,
                            );
                        }
                        if utils::ortho_ray_between_excl_spec(king_pos, opp_pos@[k]) == 0
                            && utils::ortho_ray_between_incl_spec(king_pos, opp_pos@[k]) != 0 {
                            lemma_keep_bound(a3_old, o, opp_pos@[k]);
                            lemma_keep_bound(
                                a3_old,
                                utils::ortho_ray_between_excl_spec(king_pos, o) | o,
                                opp_pos@[k],
                            );
                        }
                    }
                }
            }
            i += 1;
        }

        // Enemy queen and bishops along diagonals.
        let mut a4: u64 = OPEN;
        let mut i: usize = 5;
        while i < 8
            invariant
                5 <= i <= 8,
                a4 == pins_diag_upto(king_pos, curr, opp, pos, *opp_pos, i as int),
                forall|k: int|
                    5 <= k < i ==> diag_pin_bound(a4, king_pos, #[trigger] opp_pos@[k], curr, opp, pos),
            decreases 8 - i,
        {
            let ghost a4_old = a4;
            let o = opp_pos[i];
            let ray = utils::diag_ray_between_excl(king_pos, o);
            if ray == 0 {
                if utils::diag_ray_between_incl(king_pos, o) > 0 {
                    a4 = a4 & o;
                }
            } else {
                let blockers = ray & (curr | opp);
                if blockers == 0 || blockers == pos {
                    a4 = a4 & (ray | o);
                }
            }
            proof {
                lemma_bit_calc(a4_old, 0, 0, 0);
                assert(a4 == a4_old & diag_slot_mask(king_pos, o, curr, opp, pos));
                assert forall|k: int|
                    5 <= k < i + 1 implies diag_pin_bound(
                    a4,
                    king_pos,
                    #[trigger] opp_pos@[k],
                    curr,
                    opp,
                    pos,
                ) by {
                    lemma_bit_calc(a4_old, o, 0, 0);
                    lemma_bit_calc(a4_old, utils::diag_ray_between_excl_spec(king_pos, o) | o, 0, 0);
                    if k < i {
                        let yk1 = utils::diag_ray_between_excl_spec(king_pos, opp_pos@[k])
                            | opp_pos@[k];
                        if pin_line_diag(king_pos, opp_pos@[k], curr, opp, pos) {
                            lemma_keep_bound(a4_old, o, yk1);
                            lemma_keep_bound(
                                a4_old,
                                utils::diag_ray_between_excl_spec(king_pos, o) | o,
                                yk1,
                            );
                        }
                        if utils::diag_ray_between_excl_spec(king_pos, opp_pos@[k]) == 0
                            && utils::diag_ray_between_incl_spec(king_pos, opp_pos@[k]) != 0 {
                            lemma_keep_bound(a4_old, o, opp_pos@[k]);
                            lemma_keep_bound(
                                a4_old,
                                utils::diag_ray_between_excl_spec(king_pos, o) | o,
                                opp_pos@[k],
                            );
                        }
                    }
                }
            }
            i += 1;
        }

        // Promoted enemy pawns, under their replacement kinds.
        let mut a5: u64 = OPEN;
        let mut i: usize = 8;
        while i < 16
            invariant
                8 <= i <= 16,
                a5 == pins_promoted_upto(*m, king_pos, curr, opp, pos, *opp_pos, *opp_prom, i as int),
                forall|k: int|
                    8 <= k < i && (#[trigger] opp_prom@[k]) == Some(Piece::Knight)
                        && m.knight_moves@[low_bit(king_pos) as int] & opp_pos@[k] != 0 ==> a5
                        & !opp_pos@[k] == 0,
                forall|k: int|
                    8 <= k < i && ((#[trigger] opp_prom@[k]) == Some(Piece::Rook) || opp_prom@[k]
                        == Some(Piece::Queen)) ==> ortho_pin_bound(
                        a5,
                        king_pos,
                        opp_pos@[k],
                        curr,
                        opp,
                        pos,
                    ),
                forall|k: int|
                    8 <= k < i && ((#[trigger] opp_prom@[k]) == Some(Piece::Bishop) || opp_prom@[k]
                        == Some(Piece::Queen)) ==> diag_pin_bound(
                        a5,
                        king_pos,
                        opp_pos@[k],
                        curr,
                        opp,
                        pos,
                    ),
            decreases 16 - i,
        {
            let ghost a5_old = a5;
            let o = opp_pos[i];
            let is_knight = matches!(opp_prom[i], Some(Piece::Knight));
            let is_ortho = matches!(opp_prom[i], Some(Piece::Rook)) || matches!(
                opp_prom[i],
                Some(Piece::Queen),
            );
            let is_diag = matches!(opp_prom[i], Some(Piece::Bishop)) || matches!(
                opp_prom[i],
                Some(Piece::Queen),
            );
            if is_knight {
                if kn_mov & o > 0 {
                    a5 = a5 & o;
                }
            }
            let ghost a5_mid = a5;
            if is_ortho {
                let ray = utils::ortho_ray_between_excl(king_pos, o);
                if ray == 0 {
                    if utils::ortho_ray_between_incl(king_pos, o) > 0 {
                        a5 = a5 & o;
                    }
                } else {
                    let blockers = ray & (curr | opp);
                    if blockers == 0 || blockers == pos {
                        a5 = a5 & (ray | o);
                    }
                }
            }
            let ghost a5_mid2 = a5;
            if is_diag {
                let ray = utils::diag_ray_between_excl(king_pos, o);
                if ray == 0 {
                    if utils::diag_ray_between_incl(king_pos, o) > 0 {
                        a5 = a5 & o;
                    }
                } else {
                    let blockers = ray & (curr | opp);
                    if blockers == 0 || blockers == pos {
                        a5 = a5 & (ray | o);
                    }
                }
            }
            proof {
                let oray = utils::ortho_ray_between_excl_spec(king_pos, o) | o;
                let dray = utils::diag_ray_between_excl_spec(king_pos, o) | o;
                // where a narrowing fired, it established its own bound ...
                lemma_bit_calc(a5_old, o, 0, 0);
                lemma_bit_calc(a5_mid, o, 0, 0);
                lemma_bit_calc(a5_mid, oray, 0, 0);
                lemma_bit_calc(a5_mid2, o, 0, 0);
                lemma_bit_calc(a5_mid2, dray, 0, 0);
                // the three stages together apply the slot's whole mask
                let prom = opp_prom@[i as int];
                let s1 = if prom == Some(Piece::Knight) && m.knight_moves@[low_bit(
                    king_pos,
                ) as int] & o != 0 {
                    o
                } else {
                    OPEN
                };
                let s2 = if prom == Some(Piece::Rook) || prom == Some(Piece::Queen) {
                    ortho_slot_mask(king_pos, o, curr, opp, pos)
                } else {
                    OPEN
                };
                let s3 = if prom == Some(Piece::Bishop) || prom == Some(Piece::Queen) {
                    diag_slot_mask(king_pos, o, curr, opp, pos)
                } else {
                    OPEN
                };
                assert(a5_mid == a5_old & s1);
                assert(a5_mid2 == a5_mid & s2);
                assert(a5 == a5_mid2 & s3);
                lemma_bit_calc(a5_old & s1, s2, s3, 0);
                lemma_bit_calc(a5_old, s1, s2 & s3, 0);
                assert(a5 == a5_old & promoted_slot_mask(*m, king_pos, curr, opp, pos, prom, o));
                // ... and the narrowings after it kept it
                assert forall|k: int|
                    8 <= k < i + 1 && (#[trigger] opp_prom@[k]) == Some(Piece::Knight)
                        && m.knight_moves@[low_bit(king_pos) as int] & opp_pos@[k] != 0 implies a5
                    & !opp_pos@[k] == 0 by {
                    if k < i {
                        lemma_keep_bound_chain(a5_old, a5_mid, a5_mid2, a5, o, oray, dray, opp_pos@[k]);
                    } else {
                        lemma_keep_bound_pair(a5_mid, a5_mid2, a5, o, oray, dray, o);
                    }
                }
                assert forall|k: int|
                    8 <= k < i + 1 && ((#[trigger] opp_prom@[k]) == Some(Piece::Rook)
                        || opp_prom@[k] == Some(Piece::Queen)) implies ortho_pin_bound(
                    a5,
                    king_pos,
                    opp_pos@[k],
                    curr,
                    opp,
                    pos,
                ) by {
                    if k < i {
                        let yk1 = utils::ortho_ray_between_excl_spec(king_pos, opp_pos@[k])
                            | opp_pos@[k];
                        if pin_line_ortho(king_pos, opp_pos@[k], curr, opp, pos) {
                            lemma_keep_bound_chain(a5_old, a5_mid, a5_mid2, a5, o, oray, dray, yk1);
                        }
                        if utils::ortho_ray_between_excl_spec(king_pos, opp_pos@[k]) == 0
                            && utils::ortho_ray_between_incl_spec(king_pos, opp_pos@[k]) != 0 {
                            lemma_keep_bound_chain(
                                a5_old,
                                a5_mid,
                                a5_mid2,
                                a5,
                                o,
                                oray,
                                dray,
                                opp_pos@[k],
                            );
                        }
                    } else {
                        if pin_line_ortho(king_pos, o, curr, opp, pos) {
                            lemma_keep_bound_last(a5_mid2, a5, o, dray, oray);
                        }
                        if utils::ortho_ray_between_excl_spec(king_pos, o) == 0
                            && utils::ortho_ray_between_incl_spec(king_pos, o) != 0 {
                            lemma_keep_bound_last(a5_mid2, a5, o, dray, o);
                        }
                    }
                }
                assert forall|k: int|
                    8 <= k < i + 1 && ((#[trigger] opp_prom@[k]) == Some(Piece::Bishop)
                        || opp_prom@[k] == Some(Piece::Queen)) implies diag_pin_bound(
                    a5,
                    king_pos,
                    opp_pos@[k],
                    curr,
                    opp,
                    pos,
                ) by {
                    if k < i {
                        let yk1 = utils::diag_ray_between_excl_spec(king_pos, opp_pos@[k])
                            | opp_pos@[k];
                        if pin_line_diag(king_pos, opp_pos@[k], curr, opp, pos) {
                            lemma_keep_bound_chain(a5_old, a5_mid, a5_mid2, a5, o, oray, dray, yk1);
                        }
                        if utils::diag_ray_between_excl_spec(king_pos, opp_pos@[k]) == 0
                            && utils::diag_ray_between_incl_spec(king_pos, opp_pos@[k]) != 0 {
                            lemma_keep_bound_chain(
                                a5_old,
                                a5_mid,
                                a5_mid2,
                                a5,
                                o,
                                oray,
                                dray,
                                opp_pos@[k],
                            );
                        }
                    }
                }
            }
            i += 1;
        }

        let pins = a1 & a2 & a3 & a4 & a5;
        proof {
            lemma_family_bounds(a1, a2, a3, a4, a5, *m, pos, curr, opp, *opp_pos, *opp_prom, king_pos, player);
        }
        pins
    }
}

/// A bound met after the first of three narrowing stages is met at the end.
pub proof fn lemma_keep_bound_pair(
    m1: u64,
    m2: u64,
    end: u64,
    o: u64,
    oray: u64,
    dray: u64,
    y: u64,
)
    requires
        m1 & !y == 0,
        m2 == m1 || m2 == (m1 & o) || m2 == (m1 & oray),
        end == m2 || end == (m2 & o) || end == (m2 & dray),
    ensures
        end & !y == 0,
{
    lemma_keep_bound(m1, o, y);
    lemma_keep_bound(m1, oray, y);
    lemma_keep_bound(m2, o, y);
    lemma_keep_bound(m2, dray, y);
}

/// A bound met after the second of three narrowing stages is met at the end.
pub proof fn lemma_keep_bound_last(m2: u64, end: u64, o: u64, dray: u64, y: u64)
    requires
        m2 & !y == 0,
        end == m2 || end == (m2 & o) || end == (m2 & dray),
    ensures
        end & !y == 0,
{
    lemma_keep_bound(m2, o, y);
    lemma_keep_bound(m2, dray, y);
}

/// A bound met before up to three narrowings is met after them.
pub proof fn lemma_keep_bound_chain(
    start: u64,
    m1: u64,
    m2: u64,
    end: u64,
    o: u64,
    oray: u64,
    dray: u64,
    y: u64,
)
    requires
        start & !y == 0,
        m1 == start || m1 == (start & o),
        m2 == m1 || m2 == (m1 & o) || m2 == (m1 & oray),
        end == m2 || end == (m2 & o) || end == (m2 & dray),
    ensures
        end & !y == 0,
{
    lemma_keep_bound(start, o, y);
    lemma_keep_bound(m1, o, y);
    lemma_keep_bound(m1, oray, y);
    lemma_keep_bound(m2, o, y);
    lemma_keep_bound(m2, dray, y);
}

/// Every family bound carries over to the intersection of the family
/// restrictions.
proof fn lemma_family_bounds(
    a1: u64,
    a2: u64,
    a3: u64,
    a4: u64,
    a5: u64,
    m: Moves,
    pos: u64,
    curr: u64,
    opp: u64,
    opp_pos: [u64; PIECE_COUNT],
    opp_prom: [Option<Piece>; PIECE_COUNT],
    kp: u64,
    player: Player,
)
    requires
        forall|k: int|
            8 <= k < 16 && (#[trigger] opp_prom@[k]) is None && opp_pos@[k] & pawn_check_mask(
                m,
                kp,
                player,
            ) != 0 ==> a1 & !opp_pos@[k] == 0,
        (m.knight_moves@[low_bit(kp) as int] & opp_pos@[1] != 0 ==> a2 & !opp_pos@[1] == 0),
        (m.knight_moves@[low_bit(kp) as int] & opp_pos@[2] != 0 ==> a2 & !opp_pos@[2] == 0),
        forall|k: int| 3 <= k < 6 ==> ortho_pin_bound(a3, kp, #[trigger] opp_pos@[k], curr, opp, pos),
        forall|k: int| 5 <= k < 8 ==> diag_pin_bound(a4, kp, #[trigger] opp_pos@[k], curr, opp, pos),
        forall|k: int|
            8 <= k < 16 && (#[trigger] opp_prom@[k]) == Some(Piece::Knight)
                && m.knight_moves@[low_bit(kp) as int] & opp_pos@[k] != 0 ==> a5 & !opp_pos@[k]
                == 0,
        forall|k: int|
            8 <= k < 16 && ((#[trigger] opp_prom@[k]) == Some(Piece::Rook) || opp_prom@[k] == Some(
                Piece::Queen,
            )) ==> ortho_pin_bound(a5, kp, opp_pos@[k], curr, opp, pos),
        forall|k: int|
            8 <= k < 16 && ((#[trigger] opp_prom@[k]) == Some(Piece::Bishop) || opp_prom@[k]
                == Some(Piece::Queen)) ==> diag_pin_bound(a5, kp, opp_pos@[k], curr, opp, pos),
    ensures
        pin_bounds(a1 & a2 & a3 & a4 & a5, m, pos, curr, opp, opp_pos, opp_prom, kp, player),
{
    let r = a1 & a2 & a3 & a4 & a5;
    assert forall|k: int|
        8 <= k < 16 && (#[trigger] opp_prom@[k]) is None && opp_pos@[k] & pawn_check_mask(
            m,
            kp,
            player,
        ) != 0 implies r & !opp_pos@[k] == 0 by {
        lemma_chain_to_r(a1, a2, a3, a4, a5, 0, opp_pos@[k]);
    }
    assert forall|k: int|
        1 <= k < 3 && m.knight_moves@[low_bit(kp) as int] & (#[trigger] opp_pos@[k]) != 0 implies r
        & !opp_pos@[k] == 0 by {
        lemma_chain_to_r(a1, a2, a3, a4, a5, 1, opp_pos@[k]);
    }
    assert forall|k: int| 3 <= k < 6 implies ortho_pin_bound(
        r,
        kp,
        #[trigger] opp_pos@[k],
        curr,
        opp,
        pos,
    ) by {
        if pin_line_ortho(kp, opp_pos@[k], curr, opp, pos) {
            lemma_chain_to_r(
                a1,
                a2,
                a3,
                a4,
                a5,
                2,
                utils::ortho_ray_between_excl_spec(kp, opp_pos@[k]) | opp_pos@[k],
            );
        }
        if utils::ortho_ray_between_excl_spec(kp, opp_pos@[k]) == 0
            && utils::ortho_ray_between_incl_spec(kp, opp_pos@[k]) != 0 {
            lemma_chain_to_r(a1, a2, a3, a4, a5, 2, opp_pos@[k]);
        }
    }
    assert forall|k: int| 5 <= k < 8 implies diag_pin_bound(
        r,
        kp,
        #[trigger] opp_pos@[k],
        curr,
        opp,
        pos,
    ) by {
        if pin_line_diag(kp, opp_pos@[k], curr, opp, pos) {
            lemma_chain_to_r(
                a1,
                a2,
                a3,
                a4,
                a5,
                3,
                utils::diag_ray_between_excl_spec(kp, opp_pos@[k]) | opp_pos@[k],
            );
        }
        if utils::diag_ray_between_excl_spec(kp, opp_pos@[k]) == 0
            && utils::diag_ray_between_incl_spec(kp, opp_pos@[k]) != 0 {
            lemma_chain_to_r(a1, a2, a3, a4, a5, 3, opp_pos@[k]);
        }
    }
    assert forall|k: int|
        8 <= k < 16 && (#[trigger] opp_prom@[k]) == Some(Piece::Knight)
            && m.knight_moves@[low_bit(kp) as int] & opp_pos@[k] != 0 implies r & !opp_pos@[k]
        == 0 by {
        lemma_chain_to_r(a1, a2, a3, a4, a5, 4, opp_pos@[k]);
    }
    assert forall|k: int|
        8 <= k < 16 && ((#[trigger] opp_prom@[k]) == Some(Piece::Rook) || opp_prom@[k] == Some(
            Piece::Queen,
        )) implies ortho_pin_bound(r, kp, opp_pos@[k], curr, opp, pos) by {
        if pin_line_ortho(kp, opp_pos@[k], curr, opp, pos) {
            lemma_chain_to_r(
                a1,
                a2,
                a3,
                a4,
                a5,
                4,
                utils::ortho_ray_between_excl_spec(kp, opp_pos@[k]) | opp_pos@[k],
            );
        }
        if utils::ortho_ray_between_excl_spec(kp, opp_pos@[k]) == 0
            && utils::ortho_ray_between_incl_spec(kp, opp_pos@[k]) != 0 {
            lemma_chain_to_r(a1, a2, a3, a4, a5, 4, opp_pos@[k]);
        }
    }
    assert forall|k: int|
        8 <= k < 16 && ((#[trigger] opp_prom@[k]) == Some(Piece::Bishop) || opp_prom@[k] == Some(
            Piece::Queen,
        )) implies diag_pin_bound(r, kp, opp_pos@[k], curr, opp, pos) by {
        if pin_line_diag(kp, opp_pos@[k], curr, opp, pos) {
            lemma_chain_to_r(
                a1,
                a2,
                a3,
                a4,
                a5,
                4,
                utils::diag_ray_between_excl_spec(kp, opp_pos@[k]) | opp_pos@[k],
            );
        }
        if utils::diag_ray_between_excl_spec(kp, opp_pos@[k]) == 0
            && utils::diag_ray_between_incl_spec(kp, opp_pos@[k]) != 0 {
            lemma_chain_to_r(a1, a2, a3, a4, a5, 4, opp_pos@[k]);
        }
    }
}

/// A bound met by one of the five family restrictions is met by their
/// intersection.
pub proof fn lemma_chain_to_r(a1: u64, a2: u64, a3: u64, a4: u64, a5: u64, n: int, y: u64)
    requires
        0 <= n < 5,
        n == 0 ==> a1 & !y == 0,
        n == 1 ==> a2 & !y == 0,
        n == 2 ==> a3 & !y == 0,
        n == 3 ==> a4 & !y == 0,
        n == 4 ==> a5 & !y == 0,
    ensures
        (a1 & a2 & a3 & a4 & a5) & !y == 0,
{
    if n == 0 {
        lemma_keep_bound(a1, a2, y);
        lemma_keep_bound(a1 & a2, a3, y);
        lemma_keep_bound(a1 & a2 & a3, a4, y);
        lemma_keep_bound(a1 & a2 & a3 & a4, a5, y);
    } else if n == 1 {
        lemma_keep_bound(a2, a1, y);
        lemma_keep_bound(a1 & a2, a3, y);
        lemma_keep_bound(a1 & a2 & a3, a4, y);
        lemma_keep_bound(a1 & a2 & a3 & a4, a5, y);
    } else if n == 2 {
        lemma_keep_bound(a3, a1 & a2, y);
        lemma_keep_bound(a1 & a2 & a3, a4, y);
        lemma_keep_bound(a1 & a2 & a3 & a4, a5, y);
    } else if n == 3 {
        lemma_keep_bound(a4, a1 & a2 & a3, y);
        lemma_keep_bound(a1 & a2 & a3 & a4, a5, y);
    } else {
        lemma_keep_bound(a5, a1 & a2 & a3 & a4, y);
    }
}


// ---------------------------------------------------------------------------
// Castling
// ---------------------------------------------------------------------------

/// The king's two-square destination toward the rook on the square of
/// `rk`: empty unless the rook shares his rank and stands far enough away.
pub open spec fn castle_dest_spec(kpos: u64, rk: u64) -> u64 {
    ((kpos << 2u64) | (kpos >> 2u64)) & utils::ortho_ray_between_excl_spec(rk, kpos)
}

/// A castling move through the rook on the square of `rk` is available:
/// the king has not moved, the rook sits on his rank, has never moved, and
/// only empty squares stand between them; the rook's landing square is
/// free, no second rook stands in the departure zone, and no square the
/// king crosses — his destination included — is attacked.
pub open spec fn castle_move_ok(
    m: Moves,
    t: Team,
    o: Team,
    kpos: u64,
    rk: u64,
    player: Player,
) -> bool {
    let between = utils::ortho_ray_between_excl_spec(rk, kpos);
    let mov = castle_dest_spec(kpos, rk);
    let crossed = utils::ortho_ray_between_excl_spec(kpos, mov) | mov;
    &&& !t.king_moved
    &&& rk != 0
    &&& rk & utils::byte_mask_spec(low_bit(kpos)) != 0
    &&& rk & t.did_move == 0
    &&& between & (team_mask_spec(t) | team_mask_spec(o)) == 0
    &&& mov != 0
    &&& one_bit(mov)
    &&& castle_rook_dest(kpos, mov) & (team_mask_spec(t) | team_mask_spec(o)) == 0
    &&& !(t.positions@[3] & castle_zone(kpos, mov) != 0 && t.positions@[4] & castle_zone(kpos, mov)
        != 0)
    &&& forall|b: u64|
        b < 64 && #[trigger] bit_at(crossed, b) ==> !attacked_spec(
            m,
            1u64 << b,
            kpos,
            team_mask_spec(t),
            team_mask_spec(o),
            o.positions,
            o.promotions,
            player,
        )
}

impl Board {
    /// The castling destination offered through one rook slot, or zero.
    #[verifier::loop_isolation(false)]
    fn castle_for_rook(m: &Moves, t: &Team, o: &Team, kpos: u64, rk: u64, player: Player) -> (r:
        u64)
        requires
            one_bit(kpos),
            team_wf(*t),
            team_wf(*o),
            rk == t.positions@[3] || rk == t.positions@[4],
        ensures
            r == (if castle_move_ok(*m, *t, *o, kpos, rk, player) {
                castle_dest_spec(kpos, rk)
            } else {
                0u64
            }),
    {
        if t.king_moved {
            return 0;
        }
        if rk == 0 {
            return 0;
        }
        proof {
            utils::lemma_one_bit(kpos);
        }
        let ktz = kpos.trailing_zeros() as usize;
        if rk & utils::byte_mask(ktz) == 0 {
            return 0;
        }
        if rk & t.did_move != 0 {
            return 0;
        }
        let between = utils::ortho_ray_between_excl(rk, kpos);
        if between & (t.mask() | o.mask()) != 0 {
            return 0;
        }
        let mov = ((kpos << 2u64) | (kpos >> 2u64)) & between;
        if mov == 0 {
            return 0;
        }
        proof {
            lemma_one_bit_test(mov);
        }
        if mov & (mov - 1) != 0 {
            return 0;
        }
        let rd = if kpos < mov {
            mov >> 1u64
        } else {
            mov << 1u64
        };
        proof {
            utils::lemma_one_bit(mov);
            utils::lemma_low_bit(kpos);
            lemma_low_bit_order(kpos, mov);
        }
        if rd & (t.mask() | o.mask()) != 0 {
            return 0;
        }
        let zone3 = t.positions[3] & castle_zone_at(kpos, mov);
        let zone4 = t.positions[4] & castle_zone_at(kpos, mov);
        if zone3 != 0 && zone4 != 0 {
            return 0;
        }
        let crossed = utils::ortho_ray_between_excl(kpos, mov) | mov;
        let tmask = t.mask();
        let omask = o.mask();
        let mut j: usize = 0;
        while j < 64
            invariant
                j <= 64,
                forall|b: u64|
                    b < j && #[trigger] bit_at(crossed, b) ==> !attacked_spec(
                        *m,
                        1u64 << b,
                        kpos,
                        team_mask_spec(*t),
                        team_mask_spec(*o),
                        o.positions,
                        o.promotions,
                        player,
                    ),
            decreases 64 - j,
        {
            proof {
                utils::lemma_bit_test(crossed, j as u64);
            }
            if crossed & (1u64 << (j as u64)) != 0 {
                let b: u64 = 1u64 << (j as u64);
                proof {
                    utils::lemma_bit_sq(j as u64, j as u64);
                }
                if Self::is_attacked(m, b, kpos, tmask, omask, &o.positions, &o.promotions, player) {
                    return 0;
                }
            }
            j += 1;
        }
        mov
    }
}

/// Every castling destination available to the king on `kpos`: one per
/// eligible rook slot.
pub open spec fn castle_moves_spec(m: Moves, t: Team, o: Team, kpos: u64, player: Player) -> u64 {
    (if castle_move_ok(m, t, o, kpos, t.positions@[3], player) {
        castle_dest_spec(kpos, t.positions@[3])
    } else {
        0u64
    }) | (if castle_move_ok(m, t, o, kpos, t.positions@[4], player) {
        castle_dest_spec(kpos, t.positions@[4])
    } else {
        0u64
    })
}

impl Board {
    /// Every castling destination available to the king on `kpos`: one per
    /// eligible rook, and none at all once the king has moved.
    fn castling_moves(m: &Moves, kpos: u64, curr_team: &Team, opp_team: &Team, player: Player) -> (
        r: u64)
        requires
            one_bit(kpos),
            team_wf(*curr_team),
            team_wf(*opp_team),
        ensures
            r == castle_moves_spec(*m, *curr_team, *opp_team, kpos, player),
            curr_team.king_moved ==> r == 0,
            r & !((kpos << 2u64) | (kpos >> 2u64)) == 0,
            forall|j: u64|
                j < 64 ==> (#[trigger] bit_at(r, j) <==> exists|rs: int|
                    (rs == 3 || rs == 4) && castle_move_ok(
                        *m,
                        *curr_team,
                        *opp_team,
                        kpos,
                        #[trigger] curr_team.positions@[rs],
                        player,
                    ) && (1u64 << j) == castle_dest_spec(kpos, curr_team.positions@[rs])),
    {
        if curr_team.king_moved {
            proof {
                lemma_bit_calc(0, 0, 0, 0);
                lemma_bit_calc(!((kpos << 2u64) | (kpos >> 2u64)), 0, 0, 0);
                assert forall|j: u64| j < 64 implies !bit_at(0u64, j) by {
                    utils::lemma_bit_full_empty(j);
                }
            }
            return 0;
        }
        let c3 = Self::castle_for_rook(m, curr_team, opp_team, kpos, curr_team.positions[3], player);
        let c4 = Self::castle_for_rook(m, curr_team, opp_team, kpos, curr_team.positions[4], player);
        let r = c3 | c4;
        proof {
            assert forall|j: u64| j < 64 implies (#[trigger] bit_at(r, j) <==> exists|rs: int|
                (rs == 3 || rs == 4) && castle_move_ok(
                    *m,
                    *curr_team,
                    *opp_team,
                    kpos,
                    #[trigger] curr_team.positions@[rs],
                    player,
                ) && (1u64 << j) == castle_dest_spec(kpos, curr_team.positions@[rs])) by {
                utils::lemma_bit_or(c3, c4, j);
                utils::lemma_bit_full_empty(j);
                utils::lemma_bit_sq(j, j);
                if c3 != 0 {
                    utils::lemma_one_bit(c3);
                    utils::lemma_bit_sq(low_bit(c3), j);
                }
                if c4 != 0 {
                    utils::lemma_one_bit(c4);
                    utils::lemma_bit_sq(low_bit(c4), j);
                }
                if bit_at(r, j) {
                    if bit_at(c3, j) {
                        assert(castle_move_ok(
                            *m,
                            *curr_team,
                            *opp_team,
                            kpos,
                            curr_team.positions@[3],
                            player,
                        ) && (1u64 << j) == castle_dest_spec(kpos, curr_team.positions@[3]));
                    } else {
                        assert(castle_move_ok(
                            *m,
                            *curr_team,
                            *opp_team,
                            kpos,
                            curr_team.positions@[4],
                            player,
                        ) && (1u64 << j) == castle_dest_spec(kpos, curr_team.positions@[4]));
                    }
                }
            }
            // every offered destination is one of the king's two-square steps
            let km = (kpos << 2u64) | (kpos >> 2u64);
            assert forall|j: u64| j < 64 implies !bit_at(r & !km, j) by {
                utils::lemma_bit_and(r, !km, j);
                utils::lemma_bit_not(km, j);
                if bit_at(r, j) {
                    let rs = choose|rs: int|
                        (rs == 3 || rs == 4) && castle_move_ok(
                            *m,
                            *curr_team,
                            *opp_team,
                            kpos,
                            #[trigger] curr_team.positions@[rs],
                            player,
                        ) && (1u64 << j) == castle_dest_spec(kpos, curr_team.positions@[rs]);
                    let bt = utils::ortho_ray_between_excl_spec(curr_team.positions@[rs], kpos);
                    utils::lemma_bit_sq(j, j);
                    utils::lemma_bit_and(km, bt, j);
                }
            }
            lemma_empty64(r & !km);
        }
        r
    }
}

// ---------------------------------------------------------------------------
// Legal moves
// ---------------------------------------------------------------------------

/// The pseudo-legal destinations of a slot of the side to move: its
/// movement pattern applied to the current occupancy, promotions included,
/// before check and pin filtering.
pub open spec fn pseudo_moves_spec(b: Board, id: int) -> u64 {
    let t = b.cur();
    let o = b.opp();
    let pos = t.positions@[id];
    let curr = team_mask_spec(t);
    let opp = team_mask_spec(o);
    match shown_kind(t, id) {
        Piece::Pawn => pawn_moves_spec(b.moves, pos, curr, opp, b.player, o.en_passant_pos),
        Piece::Knight => knight_moves_spec(b.moves, pos, curr),
        Piece::King => king_moves_spec(b.moves, pos, curr),
        Piece::Bishop => diag_moves_spec(b.moves, pos, curr, opp),
        Piece::Rook => ortho_moves_spec(b.moves, pos, curr, opp),
        Piece::Queen => ortho_moves_spec(b.moves, pos, curr, opp) | diag_moves_spec(
            b.moves,
            pos,
            curr,
            opp,
        ),
    }
}

/// The fully legal destination set of a slot of the side to move: for the
/// king, his unattacked single steps plus the available castling moves;
/// for any other piece, its pseudo-legal moves narrowed by the pin
/// restriction.
pub open spec fn legal_moves_spec(b: Board, id: int) -> u64 {
    let t = b.cur();
    let o = b.opp();
    let curr = team_mask_spec(t);
    let opp = team_mask_spec(o);
    if id == 0 {
        king_filter(
            b.moves,
            pseudo_moves_spec(b, 0),
            t.positions@[0],
            curr,
            opp,
            o.positions,
            o.promotions,
            b.player,
            64,
        ) | castle_moves_spec(b.moves, t, o, t.positions@[0], b.player)
    } else {
        pseudo_moves_spec(b, id) & pins_spec(
            b.moves,
            t.positions@[id],
            curr,
            opp,
            o.positions,
            o.promotions,
            t.positions@[0],
            b.player,
        )
    }
}

/// Restricting a move set keeps every pin bound the restriction meets.
proof fn lemma_pin_bounds_restrict(
    p: u64,
    moves0: u64,
    m: Moves,
    pos: u64,
    curr: u64,
    opp: u64,
    opp_pos: [u64; PIECE_COUNT],
    opp_prom: [Option<Piece>; PIECE_COUNT],
    kp: u64,
    player: Player,
)
    requires
        pin_bounds(p, m, pos, curr, opp, opp_pos, opp_prom, kp, player),
    ensures
        pin_bounds(moves0 & p, m, pos, curr, opp, opp_pos, opp_prom, kp, player),
{
    let r = moves0 & p;
    assert forall|k: int|
        8 <= k < 16 && (#[trigger] opp_prom@[k]) is None && opp_pos@[k] & pawn_check_mask(
            m,
            kp,
            player,
        ) != 0 implies r & !opp_pos@[k] == 0 by {
        lemma_bit_calc(p, !opp_pos@[k], moves0, 0);
    }
    assert forall|k: int|
        1 <= k < 3 && m.knight_moves@[low_bit(kp) as int] & (#[trigger] opp_pos@[k]) != 0 implies r
        & !opp_pos@[k] == 0 by {
        lemma_bit_calc(p, !opp_pos@[k], moves0, 0);
    }
    assert forall|k: int| 3 <= k < 6 implies ortho_pin_bound(
        r,
        kp,
        #[trigger] opp_pos@[k],
        curr,
        opp,
        pos,
    ) by {
        lemma_bit_calc(
            p,
            !(utils::ortho_ray_between_excl_spec(kp, opp_pos@[k]) | opp_pos@[k]),
            moves0,
            0,
        );
        lemma_bit_calc(p, !opp_pos@[k], moves0, 0);
    }
    assert forall|k: int| 5 <= k < 8 implies diag_pin_bound(
        r,
        kp,
        #[trigger] opp_pos@[k],
        curr,
        opp,
        pos,
    ) by {
        lemma_bit_calc(
            p,
            !(utils::diag_ray_between_excl_spec(kp, opp_pos@[k]) | opp_pos@[k]),
            moves0,
            0,
        );
        lemma_bit_calc(p, !opp_pos@[k], moves0, 0);
    }
    assert forall|k: int|
        8 <= k < 16 && (#[trigger] opp_prom@[k]) == Some(Piece::Knight)
            && m.knight_moves@[low_bit(kp) as int] & opp_pos@[k] != 0 implies r & !opp_pos@[k]
        == 0 by {
        lemma_bit_calc(p, !opp_pos@[k], moves0, 0);
    }
    assert forall|k: int|
        8 <= k < 16 && ((#[trigger] opp_prom@[k]) == Some(Piece::Rook) || opp_prom@[k] == Some(
            Piece::Queen,
        )) implies ortho_pin_bound(r, kp, opp_pos@[k], curr, opp, pos) by {
        lemma_bit_calc(
            p,
            !(utils::ortho_ray_between_excl_spec(kp, opp_pos@[k]) | opp_pos@[k]),
            moves0,
            0,
        );
        lemma_bit_calc(p, !opp_pos@[k], moves0, 0);
    }
    assert forall|k: int|
        8 <= k < 16 && ((#[trigger] opp_prom@[k]) == Some(Piece::Bishop) || opp_prom@[k] == Some(
            Piece::Queen,
        )) implies diag_pin_bound(r, kp, opp_pos@[k], curr, opp, pos) by {
        lemma_bit_calc(
            p,
            !(utils::diag_ray_between_excl_spec(kp, opp_pos@[k]) | opp_pos@[k]),
            moves0,
            0,
        );
        lemma_bit_calc(p, !opp_pos@[k], moves0, 0);
    }
}

/// A king's single step never covers two square indices: that distance
/// marks a castling move alone.
proof fn lemma_king_step_not_castle(i: u64, j: u64)
    requires
        i < 64,
        j < 64,
        crate::moves::king_adj(i, j),
    ensures
        crate::moves::dist(i, j) != 2,
{
    assert(!(i < 64 && j < 64 && i != j && (if i % 8 >= j % 8 {
        i % 8 - j % 8
    } else {
        j % 8 - i % 8
    }) <= 1 && (if i / 8 >= j / 8 {
        i / 8 - j / 8
    } else {
        j / 8 - i / 8
    }) <= 1 && (if i >= j {
        i - j
    } else {
        j - i
    }) == 2)) by (bit_vector);
}

/// The exec form of the castling departure zone, shared with the spec.
fn castle_zone_at(kpos: u64, mov: u64) -> (r: u64)
    requires
        kpos != 0,
        mov != 0,
    ensures
        r == castle_zone(kpos, mov),
{
    proof {
        utils::lemma_low_bit(kpos);
        utils::lemma_low_bit(mov);
    }
    let fill = if mov.trailing_zeros() > kpos.trailing_zeros() {
        utils::fill_left_excl(kpos)
    } else {
        utils::fill_right_excl(kpos)
    };
    fill & utils::byte_mask(kpos.trailing_zeros() as usize)
}

/// Square order of one-square boards follows their values.
proof fn lemma_low_bit_order(a: u64, b: u64)
    requires
        one_bit(a),
        one_bit(b),
    ensures
        a < b <==> low_bit(a) < low_bit(b),
{
    utils::lemma_one_bit(a);
    utils::lemma_one_bit(b);
    let x = low_bit(a);
    let y = low_bit(b);
    assert(x < 64 && y < 64 ==> ((1u64 << x) < (1u64 << y) <==> x < y)) by (bit_vector);
}

impl Board {
    /// The fully legal destination set of a slot of the side to move: its
    /// pseudo-legal moves narrowed by the pin restriction, or, for the
    /// king, its single steps onto unattacked squares plus the available
    /// castling moves.
    pub fn get_legal_moves(&self, id: usize) -> (r: u64)
        requires
            board_ok(*self),
            id < 16,
            self.cur().positions@[id as int] != 0,
            self.cur().positions@[0] != 0,
        ensures
            r == legal_moves_spec(*self, id as int),
            r & team_mask_spec(self.cur()) == 0,
            id != 0 ==> r & !pseudo_moves_spec(*self, id as int) == 0,
            id != 0 ==> pin_bounds(
                r,
                self.moves,
                self.cur().positions@[id as int],
                team_mask_spec(self.cur()),
                team_mask_spec(self.opp()),
                self.opp().positions,
                self.opp().promotions,
                self.cur().positions@[0],
                self.player,
            ),
            id == 0 ==> forall|j: u64|
                j < 64 && #[trigger] bit_at(r, j) ==> !attacked_spec(
                    self.moves,
                    1u64 << j,
                    self.cur().positions@[0],
                    team_mask_spec(self.cur()),
                    team_mask_spec(self.opp()),
                    self.opp().positions,
                    self.opp().promotions,
                    self.player,
                ),
            id == 0 ==> forall|j: u64|
                j < 64 && #[trigger] bit_at(r, j) ==> (bit_at(
                    king_moves_spec(
                        self.moves,
                        self.cur().positions@[0],
                        team_mask_spec(self.cur()),
                    ),
                    j,
                ) || (exists|rs: int|
                    (rs == 3 || rs == 4) && castle_move_ok(
                        self.moves,
                        self.cur(),
                        self.opp(),
                        self.cur().positions@[0],
                        #[trigger] self.cur().positions@[rs],
                        self.player,
                    ) && (1u64 << j) == castle_dest_spec(
                        self.cur().positions@[0],
                        self.cur().positions@[rs],
                    ))),
            forall|j: u64|
                j < 64 && #[trigger] bit_at(r, j) && id == 0 && is_castle_step(
                    self.cur().positions@[0],
                    1u64 << j,
                ) ==> castle_ok(self.cur(), self.opp(), self.cur().positions@[0], 1u64 << j),
    {
        let curr_team = match self.player {
            Player::White => self.white,
            Player::Black => self.black,
        };
        let opp_team = match self.player {
            Player::White => self.black,
            Player::Black => self.white,
        };
        let m = &self.moves;
        let pos = curr_team.positions[id];
        let curr = curr_team.mask();
        let opp = opp_team.mask();
        proof {
            lemma_bit_calc(curr, opp, 0, 0);
            utils::lemma_one_bit(pos);
        }

        let moves0: u64 = match into_piece(id) {
            Piece::Pawn => match curr_team.promotions[id] {
                Some(piece) => match piece {
                    Piece::Rook => Self::ortho_unrestr(m, pos, curr, opp),
                    Piece::Bishop => Self::diag_unrestr(m, pos, curr, opp),
                    Piece::Knight => Self::knight_unrestr(m, pos, curr, opp),
                    _ => {
                        let a = Self::ortho_unrestr(m, pos, curr, opp);
                        let b = Self::diag_unrestr(m, pos, curr, opp);
                        proof {
                            lemma_or_disjoint(a, b, curr);
                        }
                        a | b
                    },
                },
                None => Self::pawn_unrestr(m, pos, curr, opp, self.player, opp_team.en_passant_pos),
            },
            Piece::Knight => Self::knight_unrestr(m, pos, curr, opp),
            Piece::King => Self::king_unrestr(m, pos, curr, opp),
            Piece::Bishop => Self::diag_unrestr(m, pos, curr, opp),
            Piece::Rook => Self::ortho_unrestr(m, pos, curr, opp),
            Piece::Queen => {
                let a = Self::ortho_unrestr(m, pos, curr, opp);
                let b = Self::diag_unrestr(m, pos, curr, opp);
                proof {
                    lemma_or_disjoint(a, b, curr);
                }
                a | b
            },
        };
        proof {
            if id != 0 {
                assert(moves0 == pseudo_moves_spec(*self, id as int));
            }
            assert(moves0 & curr == 0);
        }

        if id == 0 {
            let rk = Self::restrict_king(
                m,
                moves0,
                pos,
                curr,
                opp,
                &opp_team.positions,
                &opp_team.promotions,
                self.player,
            );
            let cm = Self::castling_moves(m, pos, &curr_team, &opp_team, self.player);
            let r = rk | cm;
            proof {
                let kp = pos;
                // every kept single step and every castling destination is
                // free of own pieces and unattacked
                assert forall|j: u64| j < 64 implies !bit_at(rk & curr, j) by {
                    utils::lemma_bit_and(rk, curr, j);
                    utils::lemma_bit_and(moves0, curr, j);
                    utils::lemma_bit_full_empty(j);
                }
                assert forall|j: u64| j < 64 implies !bit_at(cm & curr, j) by {
                    utils::lemma_bit_and(cm, curr, j);
                    utils::lemma_bit_full_empty(j);
                    if bit_at(cm, j) && bit_at(curr, j) {
                        let rs = choose|rs: int|
                            (rs == 3 || rs == 4) && castle_move_ok(
                                *m,
                                curr_team,
                                opp_team,
                                kp,
                                #[trigger] curr_team.positions@[rs],
                                self.player,
                            ) && (1u64 << j) == castle_dest_spec(kp, curr_team.positions@[rs]);
                        let rkp = curr_team.positions@[rs];
                        let between = utils::ortho_ray_between_excl_spec(rkp, kp);
                        lemma_and_or_zero(between, team_mask_spec(curr_team), team_mask_spec(opp_team));
                        lemma_bit_calc(between, curr, (kp << 2u64) | (kp >> 2u64), 0);
                        utils::lemma_bit_sq(j, j);
                        utils::lemma_bit_and(1u64 << j, curr, j);
                    }
                }
                lemma_empty64(rk & curr);
                lemma_empty64(cm & curr);
                lemma_or_disjoint(rk, cm, curr);
                assert forall|j: u64| j < 64 && #[trigger] bit_at(r, j) implies !attacked_spec(
                    *m,
                    1u64 << j,
                    kp,
                    curr,
                    opp,
                    opp_team.positions,
                    opp_team.promotions,
                    self.player,
                ) && (bit_at(king_moves_spec(*m, kp, curr), j) || (exists|rs: int|
                    (rs == 3 || rs == 4) && castle_move_ok(
                        *m,
                        curr_team,
                        opp_team,
                        kp,
                        #[trigger] curr_team.positions@[rs],
                        self.player,
                    ) && (1u64 << j) == castle_dest_spec(kp, curr_team.positions@[rs]))) && (
                is_castle_step(kp, 1u64 << j) ==> castle_ok(
                    curr_team,
                    opp_team,
                    kp,
                    1u64 << j,
                )) by {
                    utils::lemma_bit_or(rk, cm, j);
                    utils::lemma_one_bit_intro(j);
                    if bit_at(cm, j) {
                        let rs = choose|rs: int|
                            (rs == 3 || rs == 4) && castle_move_ok(
                                *m,
                                curr_team,
                                opp_team,
                                kp,
                                #[trigger] curr_team.positions@[rs],
                                self.player,
                            ) && (1u64 << j) == castle_dest_spec(kp, curr_team.positions@[rs]);
                        let rkp = curr_team.positions@[rs];
                        let mov = castle_dest_spec(kp, rkp);
                        let crossed = utils::ortho_ray_between_excl_spec(kp, mov) | mov;
                        utils::lemma_one_bit(mov);
                        utils::lemma_bit_or(utils::ortho_ray_between_excl_spec(kp, mov), mov, j);
                        utils::lemma_bit_sq(j, j);
                        assert(bit_at(crossed, j));
                    } else {
                        // a single step: the step table excludes a two-file move
                        if is_castle_step(kp, 1u64 << j) {
                            utils::lemma_bit_and(
                                m.king_moves@[low_bit(kp) as int],
                                !curr,
                                j,
                            );
                            utils::lemma_one_bit(kp);
                            lemma_king_step_not_castle(low_bit(kp), j);
                        }
                    }
                }
            }
            r
        } else {
            let pins = Self::comp_pins(
                m,
                pos,
                curr,
                opp,
                &opp_team.positions,
                &opp_team.promotions,
                curr_team.positions[0],
                self.player,
            );
            let r = Self::restrict(moves0, pins);
            proof {
                utils::lemma_one_bit(curr_team.positions@[0]);
                lemma_pin_bounds_restrict(
                    pins,
                    moves0,
                    *m,
                    pos,
                    curr,
                    opp,
                    opp_team.positions,
                    opp_team.promotions,
                    curr_team.positions@[0],
                    self.player,
                );
                lemma_bit_calc(moves0, curr, pins, 0);
                lemma_bit_calc(pins, moves0, 0, 0);
            }
            r
        }
    }

    /// True exactly when no live piece of the side to move has any legal
    /// move. A position with no legal moves and the king not attacked is a
    /// stalemate; a caller who must tell the two apart additionally asks
    /// whether the king's square is attacked.
    pub fn is_checkmate(&self) -> (r: bool)
        requires
            board_ok(*self),
            self.cur().positions@[0] != 0,
        ensures
            r <==> forall|s: int|
                0 <= s < 16 && (#[trigger] self.cur().positions@[s]) != 0 ==> legal_moves_spec(
                    *self,
                    s,
                ) == 0,
    {
        let t = match self.player {
            Player::White => self.white,
            Player::Black => self.black,
        };
        let mut id: usize = 0;
        while id < PIECE_COUNT
            invariant
                id <= 16,
                board_ok(*self),
                self.cur().positions@[0] != 0,
                t == self.cur(),
                forall|s: int|
                    0 <= s < id && (#[trigger] self.cur().positions@[s]) != 0
                        ==> legal_moves_spec(*self, s) == 0,
            decreases 16 - id,
        {
            if t.positions[id] != 0 {
                if self.get_legal_moves(id) > 0 {
                    return false;
                }
            }
            id += 1;
        }
        true
    }
}

/// Law of pins: when the king and exactly one piece of the side to move
/// stand on a line with an enemy rook or queen and nothing else between
/// them, every destination the pin engine allows that piece lies on the
/// line between king and attacker or on the attacker's own square. The
/// legal-move set inherits the bound, since it is the pseudo-legal set
/// narrowed by the pin restriction.
pub proof fn lemma_pin_on_line_ortho(
    r: u64,
    m: Moves,
    pos: u64,
    curr: u64,
    opp: u64,
    opp_pos: [u64; PIECE_COUNT],
    opp_prom: [Option<Piece>; PIECE_COUNT],
    kp: u64,
    player: Player,
    k: int,
)
    requires
        pin_bounds(r, m, pos, curr, opp, opp_pos, opp_prom, kp, player),
        3 <= k < 6,
        pin_line_ortho(kp, opp_pos@[k], curr, opp, pos),
    ensures
        r & !(utils::ortho_ray_between_excl_spec(kp, opp_pos@[k]) | opp_pos@[k]) == 0,
{
}

/// Law of pins along a diagonal: as [`lemma_pin_on_line_ortho`], for an
/// enemy bishop or queen.
pub proof fn lemma_pin_on_line_diag(
    r: u64,
    m: Moves,
    pos: u64,
    curr: u64,
    opp: u64,
    opp_pos: [u64; PIECE_COUNT],
    opp_prom: [Option<Piece>; PIECE_COUNT],
    kp: u64,
    player: Player,
    k: int,
)
    requires
        pin_bounds(r, m, pos, curr, opp, opp_pos, opp_prom, kp, player),
        5 <= k < 8,
        pin_line_diag(kp, opp_pos@[k], curr, opp, pos),
    ensures
        r & !(utils::diag_ray_between_excl_spec(kp, opp_pos@[k]) | opp_pos@[k]) == 0,
{
}

/// Law of castling rights: a castling move is only ever offered while the
/// king has never moved, and through a rook that has never moved — a rook
/// marks every square it lands on, so returning to its origin does not
/// restore the right. With [`Board::play_move`]'s guarantee that
/// `king_moved` stays set and `did_move` only grows, a route once
/// disqualified stays disqualified forever.
pub proof fn lemma_castling_gated(m: Moves, t: Team, o: Team, kpos: u64, rk: u64, player: Player)
    requires
        castle_move_ok(m, t, o, kpos, rk, player),
    ensures
        !t.king_moved,
        rk & t.did_move == 0,
        rk != 0,
{
}

/// A side whose slots each hold a one-hot mask of a distinct square is
/// well formed.
proof fn lemma_start_team_wf(t: Team, sq: spec_fn(int) -> u64)
    requires
        forall|s: int| 0 <= s < 16 ==> #[trigger] sq(s) < 64,
        forall|s1: int, s2: int|
            0 <= s1 < 16 && 0 <= s2 < 16 && s1 != s2 ==> #[trigger] sq(s1) != #[trigger] sq(s2),
        forall|s: int| 0 <= s < 16 ==> (#[trigger] t.positions@[s]) == (1u64 << sq(s)),
        forall|s: int| 0 <= s < 16 ==> (#[trigger] t.promotions@[s]) is None,
        t.promotion_id is None,
        t.en_passant_pos == 0,
    ensures
        team_wf(t),
{
    assert forall|s: int| 0 <= s < 16 implies (#[trigger] t.positions@[s]) == 0 || one_bit(
        t.positions@[s],
    ) by {
        utils::lemma_one_bit_intro(sq(s));
    }
    assert forall|s1: int, s2: int|
        0 <= s1 < 16 && 0 <= s2 < 16 && s1 != s2 implies (#[trigger] t.positions@[s1]
        & #[trigger] t.positions@[s2]) == 0 by {
        utils::lemma_one_bit_intro(sq(s1));
        utils::lemma_one_bit_intro(sq(s2));
        lemma_one_bit_disjoint(t.positions@[s1], t.positions@[s2]);
    }
}

} // verus!
