use vstd::prelude::*;

use crate::board::board_ok;
use crate::board::castle_ok;
use crate::board::is_castle_step;
use crate::board::listing;
use crate::board::listing_up_to;
use crate::board::team_mask_spec;
use crate::board::Board;
use crate::board::Team;
use crate::board::PIECE_COUNT;
use crate::error::Error;
use crate::piece::Piece;
use crate::player::Player;
use crate::utils;
use crate::utils::bit_at;
use crate::utils::file_of;
use crate::utils::rank_of;

verus! {

broadcast use vstd::std_specs::bits::group_bits_axioms, vstd::array::group_array_axioms;

/// Represents the current state of the game.
#[derive(Clone, Copy, Debug, PartialEq, Eq, Structural)]
pub enum State {
    /// Current player needs to select a piece to move.
    SelectPiece,
    /// Current player needs to select a move to play for the selected piece.
    SelectMove,
    /// Current player has no legal move left.
    CheckMate,
}

/// The turn-sequencing state machine around a [`Board`]: it turns a pair of
/// square picks — a piece, then a destination — into a move on the board.
pub struct Game {
    pub state: State,
    pub board: Board,
    pub selected_pos: (u8, u8),
    pub selected_id: usize,
    pub selected_moves: (u64, Vec<(u8, u8)>),
    pub black_positions: Vec<(Piece, u8, u8)>,
    pub white_positions: Vec<(Piece, u8, u8)>,
}

/// The coordinates of the squares set among the first `n` of a bitboard,
/// lowest square first.
pub open spec fn squares_up_to(m: u64, n: int) -> Seq<(u8, u8)>
    decreases n,
{
    if n <= 0 {
        Seq::empty()
    } else {
        squares_up_to(m, n - 1) + (if bit_at(m, (n - 1) as u64) {
            seq![(file_of((n - 1) as u64) as u8, rank_of((n - 1) as u64) as u8)]
        } else {
            Seq::empty()
        })
    }
}

/// The coordinates of every set square of a bitboard, lowest square first.
pub open spec fn squares_of(m: u64) -> Seq<(u8, u8)> {
    squares_up_to(m, 64)
}

/// Every stored destination satisfies what executing it needs: it is free
/// of the mover's own pieces, and a castling-shaped king move comes with a
/// well-placed rook. The legal-move generator promises both.
pub open spec fn moves_playable(g: Game) -> bool {
    forall|j: u64|
        j < 64 && #[trigger] bit_at(g.selected_moves.0, j) ==> ((1u64 << j) & team_mask_spec(
            g.board.cur(),
        ) == 0 && (g.selected_id == 0 && is_castle_step(g.board.cur().positions@[0], 1u64 << j)
            ==> castle_ok(g.board.cur(), g.board.opp(), g.board.cur().positions@[0], 1u64 << j)))
}

/// The game's invariant: the board is well formed, and while a move is
/// awaited the selection names a live piece of the side to move, the stored
/// destinations are playable, and the coordinate list mirrors them.
pub open spec fn game_wf(g: Game) -> bool {
    &&& board_ok(g.board)
    &&& (g.state is SelectMove ==> {
        &&& g.selected_id < 16
        &&& g.board.cur().positions@[g.selected_id as int] != 0
        &&& moves_playable(g)
        &&& g.selected_moves.1@ == squares_of(g.selected_moves.0)
    })
}

/// Whether a coordinate pair lies on the board.
fn valid_pos(x: u8, y: u8) -> (r: bool)
    ensures
        r == (x < 8 && y < 8),
{
    x < 8 && y < 8
}

/// Collects the listing of one side: kind, file and rank of each live
/// piece, in slot order.
#[verifier::loop_isolation(false)]
fn collect_positions(t: &Team) -> (v: Vec<(Piece, u8, u8)>)
    ensures
        v@ == listing(*t),
{
    let mut v: Vec<(Piece, u8, u8)> = Vec::new();
    let mut id: usize = 0;
    while id < PIECE_COUNT
        invariant
            id <= 16,
            v@ == listing_up_to(*t, id as int),
        decreases 16 - id,
    {
        let p = t.positions[id];
        if p != 0 {
            let pos = utils::unflatten_bit(p);
            let piece = match t.promotions[id] {
                None => crate::board::into_piece(id),
                Some(q) => q,
            };
            v.push((piece, pos.0, pos.1));
            proof {
                assert(v@ =~= listing_up_to(*t, id + 1));
            }
        } else {
            proof {
                assert(v@ =~= listing_up_to(*t, id + 1));
            }
        }
        id += 1;
    }
    v
}

/// Collects the coordinates of the set squares of a bitboard, lowest first.
#[verifier::loop_isolation(false)]
fn collect_squares(m: u64) -> (v: Vec<(u8, u8)>)
    ensures
        v@ == squares_of(m),
{
    let mut v: Vec<(u8, u8)> = Vec::new();
    let mut j: usize = 0;
    while j < 64
        invariant
            j <= 64,
            v@ == squares_up_to(m, j as int),
        decreases 64 - j,
    {
        proof {
            utils::lemma_bit_test(m, j as u64);
        }
        if m & (1u64 << (j as u64)) != 0 {
            let pos = utils::unflatten(j);
            v.push((pos.0, pos.1));
            proof {
                assert(v@ =~= squares_up_to(m, j + 1));
            }
        } else {
            proof {
                assert(v@ =~= squares_up_to(m, j + 1));
            }
        }
        j += 1;
    }
    v
}

impl Game {
    /// Creates a new game with the pieces in their initial positions.
    pub fn new() -> (g: Game)
        ensures
            game_wf(g),
            g.state is SelectPiece,
            g.board.player == Player::White,
            forall|s: int|
                0 <= s < 16 ==> (#[trigger] g.board.white.positions@[s]) == (1u64
                    << crate::board::white_sq(s)),
            forall|s: int|
                0 <= s < 16 ==> (#[trigger] g.board.black.positions@[s]) == (1u64
                    << crate::board::black_sq(s)),
            crate::board::fresh_team(g.board.white),
            crate::board::fresh_team(g.board.black),
            g.white_positions@ == listing(g.board.white),
            g.black_positions@ == listing(g.board.black),
            g.selected_moves.0 == 0,
    {
        let board = Board::new();
        let white_positions = collect_positions(&board.white);
        let black_positions = collect_positions(&board.black);
        Game {
            state: State::SelectPiece,
            board,
            selected_pos: (0, 0),
            selected_id: 0,
            selected_moves: (0, Vec::new()),
            black_positions,
            white_positions,
        }
    }

    /// Resets the game to its initial state: the opening position, White
    /// to move, fresh listings — whatever came before.
    pub fn reset(&mut self)
        ensures
            game_wf(*final(self)),
            final(self).state is SelectPiece,
            final(self).board.player == Player::White,
            forall|s: int|
                0 <= s < 16 ==> (#[trigger] final(self).board.white.positions@[s]) == (1u64
                    << crate::board::white_sq(s)),
            forall|s: int|
                0 <= s < 16 ==> (#[trigger] final(self).board.black.positions@[s]) == (1u64
                    << crate::board::black_sq(s)),
            crate::board::fresh_team(final(self).board.white),
            crate::board::fresh_team(final(self).board.black),
            final(self).white_positions@ == listing(final(self).board.white),
            final(self).black_positions@ == listing(final(self).board.black),
            final(self).selected_moves.0 == 0,
    {
        *self = Game::new();
    }

    /// Returns the state of the game.
    pub fn get_state(&self) -> (r: State)
        ensures
            r == self.state,
    {
        self.state
    }

    /// Returns the player whose turn it is.
    pub fn get_current_player(&self) -> (r: Player)
        ensures
            r == self.board.player,
    {
        self.board.player
    }

    /// Returns Black's pieces and their positions.
    pub fn get_black_positions(&self) -> (r: &[(Piece, u8, u8)])
        ensures
            r@ == self.black_positions@,
    {
        self.black_positions.as_slice()
    }

    /// Returns White's pieces and their positions.
    pub fn get_white_positions(&self) -> (r: &[(Piece, u8, u8)])
        ensures
            r@ == self.white_positions@,
    {
        self.white_positions.as_slice()
    }

    /// Selects a piece by its position on the board. If the square holds a
    /// piece of the current player, moves the game on to selecting its
    /// destination; an empty or opposing square leaves the game selecting.
    pub fn select_piece(&mut self, x: u8, y: u8) -> (r: Result<(), Error>)
        requires
            game_wf(*old(self)),
        ensures
            game_wf(*final(self)),
            r == (if !(old(self).state is SelectPiece) {
                Err::<(), Error>(Error::InvalidState)
            } else if !(x < 8 && y < 8) {
                Err::<(), Error>(Error::InvalidPosition)
            } else {
                Ok::<(), Error>(())
            }),
            r is Err ==> *final(self) == *old(self),
            final(self).board == old(self).board,
            r is Ok ==> (final(self).state is SelectMove || final(self).state is SelectPiece),
            r is Ok && final(self).state is SelectMove ==> final(self).selected_pos == (x, y)
                && final(self).board.cur().positions@[final(self).selected_id as int] == (1u64 << ((
            x + 8 * y) as u64)),
            (old(self).state is SelectPiece && x < 8 && y < 8) ==> (final(self).state
                is SelectMove <==> exists|s: int|
                0 <= s < 16 && (#[trigger] old(self).board.cur().positions@[s]) == (1u64 << ((x + 8
                    * y) as u64))),
            (final(self).state is SelectMove && r is Ok && old(self).board.cur().positions@[0] != 0)
                ==> final(self).selected_moves.0 == crate::board::legal_moves_spec(
                old(self).board,
                final(self).selected_id as int,
            ),
    {
        if !matches!(self.state, State::SelectPiece) {
            return Err(Error::InvalidState);
        }
        if !valid_pos(x, y) {
            return Err(Error::InvalidPosition);
        }

        self.selected_moves.0 = 0;
        self.selected_moves.1 = Vec::new();

        proof {
            utils::lemma_one_bit_intro(((x + 8 * y) as u64));
        }
        match self.board.id_from_pos(x, y) {
            None => (),
            Some(id) => {
                self.selected_pos = (x, y);
                self.selected_id = id;
                self.state = State::SelectMove;

                // a side whose king is gone has no moves to offer
                let king = match self.board.player {
                    Player::White => self.board.white.positions[0],
                    Player::Black => self.board.black.positions[0],
                };
                let moves: u64 = if king != 0 {
                    self.board.get_legal_moves(id)
                } else {
                    0
                };
                self.selected_moves.0 = moves;
                self.selected_moves.1 = collect_squares(moves);
                proof {
                    if king == 0 {
                        assert forall|j: u64| j < 64 implies !bit_at(0u64, j) by {
                            utils::lemma_bit_full_empty(j);
                        }
                    } else {
                        assert forall|j: u64|
                            j < 64 && #[trigger] bit_at(moves, j) implies ((1u64 << j)
                            & team_mask_spec(self.board.cur()) == 0 && (id == 0 && is_castle_step(
                            self.board.cur().positions@[0],
                            1u64 << j,
                        ) ==> castle_ok(
                            self.board.cur(),
                            self.board.opp(),
                            self.board.cur().positions@[0],
                            1u64 << j,
                        ))) by {
                            utils::lemma_bit_test(moves, j);
                            crate::board::lemma_member_disjoint(
                                moves,
                                team_mask_spec(self.board.cur()),
                                j,
                            );
                        }
                    }
                }
            },
        };
        Ok(())
    }

    /// Returns the destinations of the legal moves of the piece selected
    /// with [`Game::select_piece`]; possibly empty.
    pub fn get_moves(&self) -> (r: Result<&[(u8, u8)], Error>)
        requires
            game_wf(*self),
        ensures
            self.state is SelectMove <==> r is Ok,
            !(self.state is SelectMove) ==> r == Err::<&[(u8, u8)], Error>(Error::InvalidState),
            r matches Ok(v) ==> v@ == squares_of(self.selected_moves.0),
    {
        if !matches!(self.state, State::SelectMove) {
            return Err(Error::InvalidState);
        }
        Ok(self.selected_moves.1.as_slice())
    }

    /// Returns the position of the piece selected with
    /// [`Game::select_piece`].
    pub fn get_selected_pos(&self) -> (r: Result<(u8, u8), Error>)
        ensures
            self.state is SelectMove <==> r is Ok,
            r == (if self.state is SelectMove {
                Ok::<(u8, u8), Error>(self.selected_pos)
            } else {
                Err::<(u8, u8), Error>(Error::InvalidState)
            }),
    {
        if !matches!(self.state, State::SelectMove) {
            return Err(Error::InvalidState);
        }
        Ok(self.selected_pos)
    }

    /// Selects a destination and executes the move when it is one of the
    /// selected piece's legal moves; any other square simply deselects.
    /// Afterward the game selects again, or has ended when the side now to
    /// move has no legal move left.
    pub fn select_move(&mut self, x: u8, y: u8) -> (r: Result<(), Error>)
        requires
            game_wf(*old(self)),
        ensures
            game_wf(*final(self)),
            r == (if !(old(self).state is SelectMove) {
                Err::<(), Error>(Error::InvalidState)
            } else if !(x < 8 && y < 8) {
                Err::<(), Error>(Error::InvalidPosition)
            } else {
                Ok::<(), Error>(())
            }),
            r is Err ==> *final(self) == *old(self),
            r is Ok ==> (final(self).state is SelectPiece || final(self).state is CheckMate),
            (old(self).state is SelectMove && x < 8 && y < 8 && !bit_at(
                old(self).selected_moves.0,
                ((x + 8 * y) as u64),
            )) ==> final(self).board == old(self).board,
            (old(self).state is SelectMove && x < 8 && y < 8 && bit_at(
                old(self).selected_moves.0,
                ((x + 8 * y) as u64),
            )) ==> crate::board::play_move_rel(
                old(self).board,
                final(self).board,
                old(self).selected_id as int,
                (1u64 << ((x + 8 * y) as u64)),
            ),
            r is Ok ==> final(self).white_positions@ == listing(final(self).board.white)
                && final(self).black_positions@ == listing(final(self).board.black),
            r is Ok ==> (final(self).state is CheckMate <==> (final(self).board.cur().positions@[0]
                == 0 || forall|s: int|
                0 <= s < 16 && (#[trigger] final(self).board.cur().positions@[s]) != 0
                    ==> crate::board::legal_moves_spec(final(self).board, s) == 0)),
    {
        if !matches!(self.state, State::SelectMove) {
            return Err(Error::InvalidState);
        }
        if !valid_pos(x, y) {
            return Err(Error::InvalidPosition);
        }

        let dest = utils::flatten_bit(x, y);

        proof {
            utils::lemma_bit_test(self.selected_moves.0, ((x + 8 * y) as u64));
            crate::board::lemma_bit_calc(dest, self.selected_moves.0, 0, 0);
        }
        if dest & self.selected_moves.0 > 0 {
            let id = self.selected_id;
            self.board.play_move(id, dest);
        }

        self.state = State::SelectPiece;
        self.update_positions();

        let king = match self.board.player {
            Player::White => self.board.white.positions[0],
            Player::Black => self.board.black.positions[0],
        };
        if king != 0 {
            if self.board.is_checkmate() {
                self.state = State::CheckMate;
            }
        } else {
            self.state = State::CheckMate;
        }

        Ok(())
    }

    /// Refreshes the cached piece listings from the board.
    fn update_positions(&mut self)
        ensures
            final(self).white_positions@ == listing(final(self).board.white),
            final(self).black_positions@ == listing(final(self).board.black),
            final(self).board == old(self).board,
            final(self).state == old(self).state,
            final(self).selected_pos == old(self).selected_pos,
            final(self).selected_id == old(self).selected_id,
            final(self).selected_moves == old(self).selected_moves,
    {
        self.black_positions = collect_positions(&self.board.black);
        self.white_positions = collect_positions(&self.board.white);
    }
}

} // verus!
