use vstd::prelude::*;

verus! {

/// The typed failures that a request can end in. Each leaves the registry as it was.
#[derive(Clone, Copy, Debug, PartialEq, Eq, Structural)]
pub enum Error {
    /// No session holds the given token.
    UnknownToken,
    /// No live lobby has the given code.
    UnknownLobby,
    /// The target cell already holds a symbol.
    CellOccupied,
    /// The position is not a cell of the board.
    OutOfBounds,
    /// The mover's symbol is not the one to move.
    NotYourTurn,
    /// The lobby has no game yet.
    GameNotStarted,
    /// The session is not a member of any lobby.
    NotInLobby,
    /// The lobby already has two occupants.
    LobbyFull,
    /// Every four-digit code belongs to a live lobby.
    NoFreeCode,
    /// No session is attached to the connection's address.
    UnknownAddress,
}

} // verus!
