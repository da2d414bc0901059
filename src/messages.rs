use vstd::prelude::*;
use crate::error::Error;
use crate::game::{Game, Player};
use crate::lobby::{is_code, LobbyView};
use crate::session::{is_token, opt_view, Address, Session, SessionView, TOKEN_LEN};
use crate::state::{all_codes_taken, detach, lemma_attached_session, AppState};

verus! {

/// A request from a client, as the transport decodes it.
#[derive(Debug)]
pub enum ClientMessage {
    /// Opens a session; with a token, resumes the session that holds it.
    Connection { nickname: Option<String>, access_token: Option<String> },
    /// Changes the nickname of the current session.
    Nickname { nickname: String },
    /// Opens a new lobby for the current session.
    CreateLobby,
    /// Moves the current session into an existing lobby.
    JoinLobby { code: String },
    /// Starts a game in the current session's lobby.
    StartGame,
    /// Places the current session's symbol on a cell.
    Move { position: usize },
    /// Shows the other occupant the cell the current session hovers over.
    OnHover { position: usize },
}

/// The answer to a request that succeeded.
#[derive(Debug)]
pub enum Reply {
    /// A copy of the current session.
    Session(Session),
    /// The code of the lobby that the session opened (`joined` false) or joined.
    Lobby { code: String, joined: bool },
    /// The code of the lobby whose game was asked to start.
    StartGame { code: String },
    /// The board after a move in the lobby with code `code`.
    Move { code: String, board: [Option<Player>; 9] },
    /// The hover of `symbol` over cell `position` in the lobby with code `code`.
    Hover { code: String, symbol: Player, position: usize },
}

impl Reply {
    /// Whether the reply is also pushed to every member of its lobby: a join, a move
    /// and a hover are; the rest go to the requester alone.
    pub open spec fn spec_notifies(&self) -> bool {
        match self {
            Reply::Lobby { joined, .. } => *joined,
            Reply::Move { .. } => true,
            Reply::Hover { .. } => true,
            _ => false,
        }
    }

    /// Whether the reply is also pushed to every member of its lobby.
    pub fn notifies(&self) -> (r: bool)
        ensures
            r == self.spec_notifies(),
    {
        match self {
            Reply::Lobby { joined, .. } => *joined,
            Reply::Move { .. } => true,
            Reply::Hover { .. } => true,
            _ => false,
        }
    }
}

impl ClientMessage {
    /// Runs the request from the connection at address `socket` against the registry.
    /// A connection request needs no session; every other request acts for the session
    /// attached to `socket`, and fails with `UnknownAddress` where there is none.
    pub fn process(self, state: &mut AppState, socket: Address) -> (r: Result<Reply, Error>)
        requires
            old(state).wf(),
        ensures
            final(state).wf(),
            match self {
                ClientMessage::Connection { nickname, access_token: Some(tok) } => {
                    &&& r is Err <==> !old(state).sessions().contains_key(tok@)
                    &&& r is Err ==> r == Err::<Reply, Error>(Error::UnknownToken)
                        && final(state).sessions() == old(state).sessions()
                        && final(state).sockets() == old(state).sockets()
                    &&& r is Ok ==> (r matches Ok(Reply::Session(s)) && s@ == final(state).sessions()[tok@]
                        && s@.token == tok@ && s@.socket == socket
                        && s@.nickname == old(state).sessions()[tok@].nickname
                        && final(state).sessions() == old(state).sessions().insert(
                            tok@,
                            SessionView { socket, ..old(state).sessions()[tok@] },
                        )
                        && final(state).sockets() == detach(
                            old(state).sockets(),
                            old(state).sessions()[tok@].socket,
                            tok@,
                        ).insert(socket, tok@))
                    &&& final(state).lobbies() == old(state).lobbies()
                    &&& final(state).memberships() == old(state).memberships()
                },
                ClientMessage::Connection { nickname, access_token: None } => {
                    &&& r matches Ok(Reply::Session(s)) && !old(state).sessions().contains_key(s@.token)
                        && s@.token.len() >= TOKEN_LEN && is_token(s@.token.subrange(0, TOKEN_LEN as int))
                        && final(state).sessions() == old(state).sessions().insert(s@.token, s@)
                        && s@.nickname == opt_view(nickname) && s@.socket == socket
                        && final(state).sockets() == old(state).sockets().insert(socket, s@.token)
                    &&& final(state).lobbies() == old(state).lobbies()
                    &&& final(state).memberships() == old(state).memberships()
                },
                _ => !old(state).sockets().contains_key(socket) ==> r == Err::<Reply, Error>(Error::UnknownAddress)
                    && final(state).sessions() == old(state).sessions()
                    && final(state).sockets() == old(state).sockets()
                    && final(state).lobbies() == old(state).lobbies()
                    && final(state).memberships() == old(state).memberships(),
            },
            old(state).sockets().contains_key(socket) ==> {
                let t = old(state).sockets()[socket];
                match self {
                    ClientMessage::Nickname { nickname } => {
                        &&& r matches Ok(Reply::Session(s)) && s@ == final(state).sessions()[t]
                        &&& final(state).sessions() == old(state).sessions().insert(
                            t,
                            SessionView { nickname: Some(nickname@), ..old(state).sessions()[t] },
                        )
                        &&& final(state).sockets() == old(state).sockets()
                        &&& final(state).lobbies() == old(state).lobbies()
                        &&& final(state).memberships() == old(state).memberships()
                    },
                    ClientMessage::CreateLobby => {
                        &&& final(state).sessions() == old(state).sessions()
                        &&& final(state).sockets() == old(state).sockets()
                        &&& r is Ok <==> !all_codes_taken(old(state).lobbies())
                        &&& r is Err ==> r == Err::<Reply, Error>(Error::NoFreeCode)
                            && final(state).lobbies() == old(state).lobbies()
                            && final(state).memberships() == old(state).memberships()
                        &&& r is Ok ==> (r matches Ok(Reply::Lobby { code, joined }) && !joined && is_code(code@)
                            && !old(state).lobbies().contains_key(code@)
                            && final(state).lobbies() == old(state).lobbies_after_leave(t).insert(
                                code@,
                                LobbyView {
                                    code: code@,
                                    game: None,
                                    players: seq![(t, final(state).lobbies()[code@].players[0].1)],
                                },
                            )
                            && final(state).memberships() == old(state).memberships().insert(t, code@))
                    },
                    ClientMessage::JoinLobby { code } => {
                        let l = old(state).lobbies()[code@];
                        &&& final(state).sessions() == old(state).sessions()
                        &&& final(state).sockets() == old(state).sockets()
                        &&& !old(state).lobbies().contains_key(code@) ==> r == Err::<Reply, Error>(Error::UnknownLobby)
                        &&& old(state).lobbies().contains_key(code@) && !l.holds(t) && l.count() >= 2 ==> r
                            == Err::<Reply, Error>(Error::LobbyFull)
                        &&& r is Ok <==> old(state).lobbies().contains_key(code@) && (l.holds(t) || l.count() < 2)
                        &&& r is Ok ==> (r matches Ok(Reply::Lobby { code: c, joined }) && joined && c@ == code@
                            && final(state).memberships().contains_key(t) && final(state).memberships()[t] == code@)
                        &&& r is Err || l.holds(t) ==> final(state).lobbies() == old(state).lobbies()
                            && final(state).memberships() == old(state).memberships()
                        &&& r is Ok && !l.holds(t) ==> final(state).lobbies() == old(state).lobbies_after_leave(t).insert(
                            code@,
                            LobbyView { players: l.players.push((t, l.players[0].1.spec_other())), ..l },
                        ) && final(state).memberships() == old(state).memberships().insert(t, code@)
                    },
                    ClientMessage::StartGame => {
                        &&& final(state).sessions() == old(state).sessions()
                        &&& final(state).sockets() == old(state).sockets()
                        &&& final(state).memberships() == old(state).memberships()
                        &&& r is Ok <==> old(state).memberships().contains_key(t)
                        &&& r is Err ==> r == Err::<Reply, Error>(Error::NotInLobby)
                            && final(state).lobbies() == old(state).lobbies()
                        &&& r is Ok ==> {
                            let c = old(state).memberships()[t];
                            let l = old(state).lobbies()[c];
                            &&& r matches Ok(Reply::StartGame { code }) && code@ == c
                            &&& final(state).lobbies() == old(state).lobbies().insert(c, final(state).lobbies()[c])
                            &&& final(state).lobbies()[c].code == l.code
                            &&& final(state).lobbies()[c].players == l.players
                            &&& l.count() == 2 ==> (final(state).lobbies()[c].game matches Some(g) && g.is_fresh())
                            &&& l.count() != 2 ==> final(state).lobbies()[c] == l
                        }
                    },
                    ClientMessage::Move { position } => {
                        &&& final(state).sessions() == old(state).sessions()
                        &&& final(state).sockets() == old(state).sockets()
                        &&& final(state).memberships() == old(state).memberships()
                        &&& r is Err ==> final(state).lobbies() == old(state).lobbies()
                        &&& !old(state).memberships().contains_key(t) ==> r == Err::<Reply, Error>(Error::NotInLobby)
                        &&& old(state).memberships().contains_key(t) ==> {
                            let c = old(state).memberships()[t];
                            let l = old(state).lobbies()[c];
                            let p = l.symbol_of(t);
                            match l.game {
                                None => r == Err::<Reply, Error>(Error::GameNotStarted),
                                Some(g) => match g.move_error(p, position as int) {
                                    Some(e) => r == Err::<Reply, Error>(e),
                                    None => r matches Ok(Reply::Move { code, board }) && code@ == c
                                        && board@ == g.board@.update(position as int, Some(p))
                                        && final(state).lobbies() == old(state).lobbies().insert(
                                            c,
                                            LobbyView {
                                                game: Some(Game { current_player: p.spec_other(), board }),
                                                ..l
                                            },
                                        ),
                                },
                            }
                        }
                    },
                    ClientMessage::OnHover { position: pos } => {
                        &&& final(state).sessions() == old(state).sessions()
                        &&& final(state).sockets() == old(state).sockets()
                        &&& final(state).lobbies() == old(state).lobbies()
                        &&& final(state).memberships() == old(state).memberships()
                        &&& !old(state).memberships().contains_key(t) ==> r == Err::<Reply, Error>(Error::NotInLobby)
                        &&& old(state).memberships().contains_key(t) ==> {
                            let c = old(state).memberships()[t];
                            let l = old(state).lobbies()[c];
                            let p = l.symbol_of(t);
                            match l.game {
                                None => r == Err::<Reply, Error>(Error::GameNotStarted),
                                Some(g) => if g.current_player == p {
                                    r matches Ok(Reply::Hover { code, symbol, position }) && code@ == c
                                        && symbol == p && position == pos
                                } else {
                                    r == Err::<Reply, Error>(Error::NotYourTurn)
                                },
                            }
                        }
                    },
                    _ => true,
                }
            },
    {
        let token = match &self {
            ClientMessage::Connection { nickname, access_token } => {
                return match access_token {
                    Some(tok) => match state.move_session(socket, tok.as_str()) {
                        Ok(s) => Ok(Reply::Session(s)),
                        Err(e) => Err(e),
                    },
                    None => {
                        let t = state.new_session(socket, crate::session::copy_opt(nickname));
                        match state.session(t.as_str()) {
                            Some(s) => Ok(Reply::Session(s.snapshot())),
                            None => Err(Error::UnknownToken),
                        }
                    },
                };
            },
            _ => match state.session_at(socket) {
                Some(t) => t,
                None => {
                    return Err(Error::UnknownAddress);
                },
            },
        };
        proof {
            lemma_attached_session(state, socket);
        }
        match self {
            ClientMessage::Nickname { nickname } => match state.rename(token.as_str(), nickname.as_str()) {
                Ok(s) => Ok(Reply::Session(s)),
                Err(e) => Err(e),
            },
            ClientMessage::CreateLobby => match state.new_lobby(token.as_str()) {
                Ok(code) => Ok(Reply::Lobby { code, joined: false }),
                Err(e) => Err(e),
            },
            ClientMessage::JoinLobby { code } => match state.join_lobby(code.as_str(), token.as_str()) {
                Ok(()) => Ok(Reply::Lobby { code, joined: true }),
                Err(e) => Err(e),
            },
            ClientMessage::StartGame => match state.start_game(token.as_str()) {
                Ok(()) => match state.lobby_of(token.as_str()) {
                    Some(code) => Ok(Reply::StartGame { code }),
                    None => Err(Error::NotInLobby),
                },
                Err(e) => Err(e),
            },
            ClientMessage::Move { position } => match state.play(token.as_str(), position) {
                Ok(board) => match state.lobby_of(token.as_str()) {
                    Some(code) => Ok(Reply::Move { code, board }),
                    None => Err(Error::NotInLobby),
                },
                Err(e) => Err(e),
            },
            ClientMessage::OnHover { position } => match state.hover(token.as_str()) {
                Ok(symbol) => match state.lobby_of(token.as_str()) {
                    Some(code) => Ok(Reply::Hover { code, symbol, position }),
                    None => Err(Error::NotInLobby),
                },
                Err(e) => Err(e),
            },
            ClientMessage::Connection { .. } => Err(Error::UnknownToken),
        }
    }
}

} // verus!
