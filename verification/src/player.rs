use vstd::prelude::*;

verus! {

/// The two players. White moves first and its pawns advance toward
/// higher ranks; Black's advance toward lower ranks.
#[derive(Clone, Copy, Debug, PartialEq, Eq, Structural)]
pub enum Player {
    White,
    Black,
}

impl Player {
    /// The side that moves after this one.
    pub fn other(self) -> (r: Player)
        ensures
            r == self.flip(),
    {
        match self {
            Player::White => Player::Black,
            Player::Black => Player::White,
        }
    }

    /// The opponent of a side.
    pub open spec fn flip(self) -> Player {
        match self {
            Player::White => Player::Black,
            Player::Black => Player::White,
        }
    }
}

impl Default for Player {
    /// White is the side to move at the start of a game.
    fn default() -> (r: Self)
        ensures
            r == Player::White,
    {
        Player::White
    }
}

} // verus!
