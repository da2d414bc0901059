use vstd::prelude::*;
use crate::error::Error;

verus! {

/// One of the two turn-taking symbols.
#[derive(Clone, Copy, Debug, PartialEq, Eq, Structural)]
pub enum Player {
    X,
    O,
}

/// Number of cells on the board.
pub const BOARD_SIZE: usize = 9;

impl Player {
    /// The other symbol.
    pub open spec fn spec_other(self) -> Player {
        match self {
            Player::X => Player::O,
            Player::O => Player::X,
        }
    }

    /// The other symbol.
    #[verifier::when_used_as_spec(spec_other)]
    pub fn other(self) -> (r: Player)
        ensures
            r == self.spec_other(),
    {
        match self {
            Player::X => Player::O,
            Player::O => Player::X,
        }
    }

    /// The label of the symbol as it is shown to clients.
    pub open spec fn spec_label(self) -> Seq<char> {
        match self {
            Player::X => seq!['X'],
            Player::O => seq!['O'],
        }
    }

    /// The label of the symbol as it is shown to clients: `"X"` or `"O"`.
    pub fn label(self) -> (r: &'static str)
        ensures
            r@ == self.spec_label(),
    {
        proof {
            reveal_strlit("X");
            reveal_strlit("O");
        }
        match self {
            Player::X => "X",
            Player::O => "O",
        }
    }
}

/// A 3x3 board and the symbol that moves next.
#[derive(Clone, Copy, Debug)]
pub struct Game {
    pub current_player: Player,
    pub board: [Option<Player>; 9],
}

impl Game {
    /// An empty board with `X` to move.
    pub open spec fn is_fresh(self) -> bool {
        self.current_player == Player::X && forall|i: int| 0 <= i < 9 ==> #[trigger] self.board@[i] is None
    }

    /// An empty board with `X` to move.
    pub fn new() -> (g: Game)
        ensures
            g.is_fresh(),
    {
        let board: [Option<Player>; 9] = [None;9];
        Game { board, current_player: Player::X }
    }

    /// The cells of the board, row by row.
    pub fn get_board(&self) -> (r: &[Option<Player>; 9])
        ensures
            r@ == self.board@,
    {
        &self.board
    }

    /// Why `player` may not move to `position`, checked in this order: the position
    /// must be a cell, the cell must be empty, and `player` must be the one to move.
    pub open spec fn move_error(self, player: Player, position: int) -> Option<Error> {
        if position < 0 || position >= BOARD_SIZE {
            Some(Error::OutOfBounds)
        } else if self.board@[position] is Some {
            Some(Error::CellOccupied)
        } else if player != self.current_player {
            Some(Error::NotYourTurn)
        } else {
            None
        }
    }

    /// Places `player`'s symbol on the cell `position` and hands the turn to the other
    /// symbol; the result is the new board. A move that `move_error` refuses changes
    /// nothing and fails with that error. A full board or a completed line does not end
    /// the game.
    pub fn move_player(&mut self, player: Player, position: usize) -> (r: Result<
        [Option<Player>; 9],
        Error,
    >)
        ensures
            match old(self).move_error(player, position as int) {
                Some(e) => r == Err::<[Option<Player>; 9], Error>(e) && *final(self) == *old(self),
                None => r == Ok::<[Option<Player>; 9], Error>(final(self).board)
                    && final(self).board@ == old(self).board@.update(position as int, Some(player))
                    && final(self).current_player == player.other(),
            },
    {
        if position >= BOARD_SIZE {
            return Err(Error::OutOfBounds);
        }
        if self.board[position].is_some() {
            return Err(Error::CellOccupied);
        }
        if player != self.current_player {
            return Err(Error::NotYourTurn);
        }
        self.board[position] = Some(player);
        self.current_player = player.other();
        Ok(self.board)
    }
}

impl Default for Game {
    fn default() -> (g: Game)
        ensures
            g.is_fresh(),
    {
        Game::new()
    }
}

/// A cell once taken stays taken: after a legal move to `position`, every later move
/// there, by either symbol, is refused with `CellOccupied`, and the turn has passed to
/// the other symbol.
pub proof fn lemma_taken_cell_refused(before: Game, after: Game, player: Player, position: int)
    requires
        before.move_error(player, position) is None,
        after.board@ == before.board@.update(position, Some(player)),
        after.current_player == player.spec_other(),
    ensures
        forall|q: Player| #[trigger] after.move_error(q, position) == Some(Error::CellOccupied),
        after.current_player != before.current_player,
        after.move_error(before.current_player, position) is Some,
{
}

} // verus!
