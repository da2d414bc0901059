use vstd::prelude::*;
use crate::assoc::{
    assoc_map, keys_distinct, lemma_assoc_dom, lemma_assoc_index, lemma_assoc_len, lemma_assoc_push,
    lemma_assoc_remove, lemma_assoc_update,
};
use crate::error::Error;
use crate::game::{Game, Player};
use crate::lobby::{
    check_code, code_of, code_text, is_code, lemma_code_of_value, lemma_code_value, random_code, without, Lobby,
    LobbyView,
};
use crate::random::random_coin;
use vstd::relations::injective_on;
use vstd::set_lib::{lemma_int_range, lemma_len_subset, lemma_map_size, set_int_range};
use crate::session::{is_token, Address, Session, SessionView, TOKEN_LEN};

verus! {

/// A session keyed by its token.
pub open spec fn session_pair(s: Session) -> (Seq<char>, SessionView) {
    (s.access_token@, s@)
}

/// A lobby keyed by its code.
pub open spec fn lobby_pair(l: Lobby) -> (Seq<char>, LobbyView) {
    (l.code@, l@)
}

/// A membership: a session token and the code of its lobby.
pub open spec fn member_pair(p: (String, String)) -> (Seq<char>, Seq<char>) {
    (p.0@, p.1@)
}

/// An attachment: an address and the token of the session reached there.
pub open spec fn socket_pair(p: (Address, String)) -> (Address, Seq<char>) {
    (p.0, p.1@)
}

/// Every four-digit code names a live lobby.
pub open spec fn all_codes_taken(lobbies: Map<Seq<char>, LobbyView>) -> bool {
    forall|n: int| 0 <= n < 10000 ==> #[trigger] lobbies.contains_key(code_of(n))
}

/// The registry of sessions and lobbies. It owns four indexes, all kept in agreement:
/// token to session, code to lobby, token to the code of the session's lobby, and
/// address to the token of the session reached there.
pub struct AppState {
    sessions: Vec<Session>,
    lobbies: Vec<Lobby>,
    session_lobby: Vec<(String, String)>,
    socket_session: Vec<(Address, String)>,
}

impl AppState {
    /// Sessions by token.
    pub closed spec fn sessions(&self) -> Map<Seq<char>, SessionView> {
        assoc_map(self.sessions@.map_values(|s: Session| session_pair(s)))
    }

    /// Live lobbies by code.
    pub closed spec fn lobbies(&self) -> Map<Seq<char>, LobbyView> {
        assoc_map(self.lobbies@.map_values(|l: Lobby| lobby_pair(l)))
    }

    /// The code of each member session's lobby, by token.
    pub closed spec fn memberships(&self) -> Map<Seq<char>, Seq<char>> {
        assoc_map(self.session_lobby@.map_values(|p: (String, String)| member_pair(p)))
    }

    /// The token of the session reached at each attached address.
    pub closed spec fn sockets(&self) -> Map<Address, Seq<char>> {
        assoc_map(self.socket_session@.map_values(|p: (Address, String)| socket_pair(p)))
    }

    /// No index holds a key twice.
    closed spec fn keys_distinct(&self) -> bool {
        &&& keys_distinct(self.sessions@.map_values(|s: Session| session_pair(s)))
        &&& keys_distinct(self.lobbies@.map_values(|l: Lobby| lobby_pair(l)))
        &&& keys_distinct(self.session_lobby@.map_values(|p: (String, String)| member_pair(p)))
        &&& keys_distinct(self.socket_session@.map_values(|p: (Address, String)| socket_pair(p)))
    }

    /// The indexes agree with one another:
    /// - each session is stored under its own token;
    /// - each live lobby is stored under its own code, is well formed, and has at
    ///   least one occupant;
    /// - a session is a member of a lobby exactly when it occupies one of its slots,
    ///   and members are known sessions;
    /// - each attached address leads to a known session whose address it is.
    pub closed spec fn wf(&self) -> bool {
        &&& self.keys_distinct()
        &&& forall|t: Seq<char>| #[trigger] self.sessions().contains_key(t) ==> self.sessions()[t].token == t
        &&& forall|c: Seq<char>| #[trigger] self.lobbies().contains_key(c) ==> {
            &&& self.lobbies()[c].code == c
            &&& self.lobbies()[c].wf()
            &&& self.lobbies()[c].count() > 0
        }
        &&& forall|t: Seq<char>| #[trigger] self.memberships().contains_key(t) ==> {
            &&& self.sessions().contains_key(t)
            &&& self.lobbies().contains_key(self.memberships()[t])
            &&& self.lobbies()[self.memberships()[t]].holds(t)
        }
        &&& forall|c: Seq<char>, t: Seq<char>|
            #![trigger self.lobbies()[c].holds(t)]
            self.lobbies().contains_key(c) && self.lobbies()[c].holds(t) ==> {
                &&& self.memberships().contains_key(t)
                &&& self.memberships()[t] == c
            }
        &&& forall|a: Address| #[trigger] self.sockets().contains_key(a) ==> {
            &&& self.sessions().contains_key(self.sockets()[a])
            &&& self.sessions()[self.sockets()[a]].socket == a
        }
    }

    /// A registry with no sessions and no lobbies.
    pub fn new() -> (s: AppState)
        ensures
            s.wf(),
            s.sessions().is_empty(),
            s.lobbies().is_empty(),
            s.memberships().is_empty(),
            s.sockets().is_empty(),
    {
        let s = AppState {
            sessions: Vec::new(),
            lobbies: Vec::new(),
            session_lobby: Vec::new(),
            socket_session: Vec::new(),
        };
        assert(s.sessions@.map_values(|s: Session| session_pair(s)) =~= Seq::empty());
        assert(s.lobbies@.map_values(|l: Lobby| lobby_pair(l)) =~= Seq::empty());
        assert(s.session_lobby@.map_values(|p: (String, String)| member_pair(p)) =~= Seq::empty());
        assert(s.socket_session@.map_values(|p: (Address, String)| socket_pair(p)) =~= Seq::empty());
        assert(s.sessions() =~= Map::empty());
        assert(s.lobbies() =~= Map::empty());
        assert(s.memberships() =~= Map::empty());
        assert(s.sockets() =~= Map::empty());
        s
    }

    /// Position of the session with token `token` in the session store.
    fn session_index(&self, token: &String) -> (r: Option<usize>)
        requires
            self.wf(),
        ensures
            match r {
                Some(i) => i < self.sessions@.len() && self.sessions@[i as int].access_token@ == token@
                    && self.sessions().contains_key(token@)
                    && self.sessions()[token@] == self.sessions@[i as int]@,
                None => !self.sessions().contains_key(token@),
            },
    {
        let ghost ps = self.sessions@.map_values(|s: Session| session_pair(s));
        let mut i: usize = 0;
        while i < self.sessions.len()
            invariant
                i <= self.sessions@.len(),
                ps == self.sessions@.map_values(|s: Session| session_pair(s)),
                keys_distinct(ps),
                forall|j: int| 0 <= j < i ==> (#[trigger] ps[j]).0 != token@,
            decreases self.sessions@.len() - i,
        {
            if self.sessions[i].access_token == *token {
                proof {
                    lemma_assoc_index(ps, i as int);
                }
                return Some(i);
            }
            i = i + 1;
        }
        proof {
            lemma_assoc_dom(ps, token@);
        }
        None
    }

    /// Position of the lobby with code `code` in the lobby store.
    fn lobby_index(&self, code: &String) -> (r: Option<usize>)
        requires
            self.wf(),
        ensures
            match r {
                Some(i) => i < self.lobbies@.len() && self.lobbies@[i as int].code@ == code@
                    && self.lobbies().contains_key(code@)
                    && self.lobbies()[code@] == self.lobbies@[i as int]@,
                None => !self.lobbies().contains_key(code@),
            },
    {
        let ghost ps = self.lobbies@.map_values(|l: Lobby| lobby_pair(l));
        let mut i: usize = 0;
        while i < self.lobbies.len()
            invariant
                i <= self.lobbies@.len(),
                ps == self.lobbies@.map_values(|l: Lobby| lobby_pair(l)),
                keys_distinct(ps),
                forall|j: int| 0 <= j < i ==> (#[trigger] ps[j]).0 != code@,
            decreases self.lobbies@.len() - i,
        {
            if self.lobbies[i].code == *code {
                proof {
                    lemma_assoc_index(ps, i as int);
                }
                return Some(i);
            }
            i = i + 1;
        }
        proof {
            lemma_assoc_dom(ps, code@);
        }
        None
    }

    /// Position of the membership of the session with token `token`.
    fn membership_index(&self, token: &String) -> (r: Option<usize>)
        requires
            self.wf(),
        ensures
            match r {
                Some(i) => i < self.session_lobby@.len() && self.session_lobby@[i as int].0@ == token@
                    && self.memberships().contains_key(token@)
                    && self.memberships()[token@] == self.session_lobby@[i as int].1@,
                None => !self.memberships().contains_key(token@),
            },
    {
        let ghost ps = self.session_lobby@.map_values(|p: (String, String)| member_pair(p));
        let mut i: usize = 0;
        while i < self.session_lobby.len()
            invariant
                i <= self.session_lobby@.len(),
                ps == self.session_lobby@.map_values(|p: (String, String)| member_pair(p)),
                keys_distinct(ps),
                forall|j: int| 0 <= j < i ==> (#[trigger] ps[j]).0 != token@,
            decreases self.session_lobby@.len() - i,
        {
            if self.session_lobby[i].0 == *token {
                proof {
                    lemma_assoc_index(ps, i as int);
                }
                return Some(i);
            }
            i = i + 1;
        }
        proof {
            lemma_assoc_dom(ps, token@);
        }
        None
    }

    /// Position of the attachment of address `socket`.
    fn socket_index(&self, socket: Address) -> (r: Option<usize>)
        requires
            self.wf(),
        ensures
            match r {
                Some(i) => i < self.socket_session@.len() && self.socket_session@[i as int].0 == socket
                    && self.sockets().contains_key(socket)
                    && self.sockets()[socket] == self.socket_session@[i as int].1@,
                None => !self.sockets().contains_key(socket),
            },
    {
        let ghost ps = self.socket_session@.map_values(|p: (Address, String)| socket_pair(p));
        let mut i: usize = 0;
        while i < self.socket_session.len()
            invariant
                i <= self.socket_session@.len(),
                ps == self.socket_session@.map_values(|p: (Address, String)| socket_pair(p)),
                keys_distinct(ps),
                forall|j: int| 0 <= j < i ==> (#[trigger] ps[j]).0 != socket,
            decreases self.socket_session@.len() - i,
        {
            if self.socket_session[i].0 == socket {
                proof {
                    lemma_assoc_index(ps, i as int);
                }
                return Some(i);
            }
            i = i + 1;
        }
        proof {
            lemma_assoc_dom(ps, socket);
        }
        None
    }
}

/// The indexes still agree after the session with token `t` is stored as `v` (new or
/// replaced), lobbies and memberships staying, where an address now leads to `t` only
/// if it is `v`'s address and every other attachment was there before.
proof fn lemma_wf_session_update(before: &AppState, after: &AppState, t: Seq<char>, v: SessionView)
    requires
        before.wf(),
        after.keys_distinct(),
        v.token == t,
        after.sessions() == before.sessions().insert(t, v),
        after.lobbies() == before.lobbies(),
        after.memberships() == before.memberships(),
        forall|a: Address| #[trigger] after.sockets().contains_key(a) ==> if after.sockets()[a] == t {
            a == v.socket
        } else {
            before.sockets().contains_key(a) && before.sockets()[a] == after.sockets()[a]
        },
    ensures
        after.wf(),
{
    assert forall|u: Seq<char>| #[trigger] after.memberships().contains_key(u) implies {
        &&& after.sessions().contains_key(u)
        &&& after.lobbies().contains_key(after.memberships()[u])
        &&& after.lobbies()[after.memberships()[u]].holds(u)
    } by {
        assert(before.memberships().contains_key(u));
    }
    assert forall|a: Address| #[trigger] after.sockets().contains_key(a) implies {
        &&& after.sessions().contains_key(after.sockets()[a])
        &&& after.sessions()[after.sockets()[a]].socket == a
    } by {
        if after.sockets()[a] != t {
            assert(before.sockets().contains_key(a));
        }
    }
    assert forall|u: Seq<char>| #[trigger] after.sessions().contains_key(u) implies after.sessions()[u].token == u by {
        if u != t {
            assert(before.sessions().contains_key(u));
        }
    }
}

/// The attachments with address `a` dropped if it leads to the session with token `t`.
pub open spec fn detach(sockets: Map<Address, Seq<char>>, a: Address, t: Seq<char>) -> Map<Address, Seq<char>> {
    if sockets.contains_key(a) && sockets[a] == t {
        sockets.remove(a)
    } else {
        sockets
    }
}

impl AppState {
    /// Position of a session whose token is at least as long as every other token.
    fn longest_token(&self) -> (r: usize)
        requires
            self.sessions@.len() > 0,
        ensures
            r < self.sessions@.len(),
            forall|j: int| 0 <= j < self.sessions@.len() ==> (#[trigger] self.sessions@[j]).access_token@.len()
                <= self.sessions@[r as int].access_token@.len(),
    {
        let mut best: usize = 0;
        let mut best_len = self.sessions[0].access_token.as_str().unicode_len();
        let mut i: usize = 1;
        while i < self.sessions.len()
            invariant
                0 < i <= self.sessions@.len(),
                best < self.sessions@.len(),
                best_len == self.sessions@[best as int].access_token@.len(),
                forall|j: int| 0 <= j < i ==> (#[trigger] self.sessions@[j]).access_token@.len() <= best_len,
            decreases self.sessions@.len() - i,
        {
            let n = self.sessions[i].access_token.as_str().unicode_len();
            if n > best_len {
                best = i;
                best_len = n;
            }
            i = i + 1;
        }
        best
    }

    /// Attaches address `socket` to the session with token `token`, replacing whatever
    /// the address led to before.
    fn attach(&mut self, socket: Address, token: &String)
        requires
            keys_distinct(old(self).socket_session@.map_values(|p: (Address, String)| socket_pair(p))),
        ensures
            final(self).sockets() == old(self).sockets().insert(socket, token@),
            keys_distinct(final(self).socket_session@.map_values(|p: (Address, String)| socket_pair(p))),
            final(self).sessions == old(self).sessions,
            final(self).lobbies == old(self).lobbies,
            final(self).session_lobby == old(self).session_lobby,
    {
        let ghost ps = self.socket_session@.map_values(|p: (Address, String)| socket_pair(p));
        let mut i: usize = 0;
        while i < self.socket_session.len()
            invariant
                i <= self.socket_session@.len(),
                ps == self.socket_session@.map_values(|p: (Address, String)| socket_pair(p)),
                keys_distinct(ps),
                forall|j: int| 0 <= j < i ==> (#[trigger] ps[j]).0 != socket,
                self.sessions == old(self).sessions,
                self.lobbies == old(self).lobbies,
                self.session_lobby == old(self).session_lobby,
                self.socket_session == old(self).socket_session,
            decreases self.socket_session@.len() - i,
        {
            if self.socket_session[i].0 == socket {
                proof {
                    lemma_assoc_update(ps, i as int, token@);
                }
                self.socket_session[i] = (socket, token.clone());
                assert(self.socket_session@.map_values(|p: (Address, String)| socket_pair(p))
                    =~= ps.update(i as int, (ps[i as int].0, token@)));
                return;
            }
            i = i + 1;
        }
        proof {
            lemma_assoc_dom(ps, socket);
            lemma_assoc_push(ps, socket, token@);
        }
        self.socket_session.push((socket, token.clone()));
        assert(self.socket_session@.map_values(|p: (Address, String)| socket_pair(p))
            =~= ps.push((socket, token@)));
    }

    /// Registers `session` under its token and attaches its address to it. Where the
    /// token is taken already, the stored token is the drawn one followed by `"0"` and
    /// by the longest token in use, which no session holds.
    pub fn insert_session(&mut self, session: Session) -> (token: String)
        requires
            old(self).wf(),
        ensures
            final(self).wf(),
            !old(self).sessions().contains_key(token@),
            !old(self).sessions().contains_key(session.access_token@) ==> token@ == session.access_token@,
            token@.len() >= session.access_token@.len(),
            token@.subrange(0, session.access_token@.len() as int) == session.access_token@,
            final(self).sessions() == old(self).sessions().insert(
                token@,
                SessionView { token: token@, ..session@ },
            ),
            final(self).sockets() == old(self).sockets().insert(session.socket, token@),
            final(self).lobbies() == old(self).lobbies(),
            final(self).memberships() == old(self).memberships(),
    {
        let ghost drawn = session.access_token@;
        let ghost ps = self.sessions@.map_values(|s: Session| session_pair(s));
        let mut session = session;
        if self.session_index(&session.access_token).is_some() {
            let k = self.longest_token();
            session.access_token.append("0");
            session.access_token.append(self.sessions[k].access_token.as_str());
            proof {
                reveal_strlit("0");
                lemma_assoc_dom(ps, session.access_token@);
                if self.sessions().contains_key(session.access_token@) {
                    let j = choose|j: int| 0 <= j < ps.len() && #[trigger] ps[j].0 == session.access_token@;
                    assert(ps[j].0 == self.sessions@[j].access_token@);
                    assert(false);
                }
                assert(session.access_token@.subrange(0, drawn.len() as int) =~= drawn);
            }
        }
        assert(session.access_token@.subrange(0, drawn.len() as int) =~= drawn);
        let token = session.access_token.clone();
        let socket = session.socket;
        proof {
            lemma_assoc_push(ps, token@, session@);
        }
        self.sessions.push(session);
        assert(self.sessions@.map_values(|s: Session| session_pair(s)) =~= ps.push((token@, session@)));
        self.attach(socket, &token);
        assert(self.sessions() == old(self).sessions().insert(token@, session@));
        proof {
            lemma_wf_session_update(old(self), self, token@, session@);
        }
        token
    }

    /// Creates a session at `socket` with a freshly drawn token, registers it under that
    /// token and attaches the address to it.
    pub fn new_session(&mut self, socket: Address, nickname: Option<String>) -> (token: String)
        requires
            old(self).wf(),
        ensures
            final(self).wf(),
            !old(self).sessions().contains_key(token@),
            token@.len() >= TOKEN_LEN,
            is_token(token@.subrange(0, TOKEN_LEN as int)),
            final(self).sessions() == old(self).sessions().insert(
                token@,
                SessionView { token: token@, nickname: crate::session::opt_view(nickname), socket },
            ),
            final(self).sockets() == old(self).sockets().insert(socket, token@),
            final(self).lobbies() == old(self).lobbies(),
            final(self).memberships() == old(self).memberships(),
    {
        let session = Session::new(socket, nickname);
        self.insert_session(session)
    }

    /// Resumes the session with token `token` from address `socket`: the session's
    /// address becomes `socket`, the old address no longer leads to it, and its token,
    /// nickname and lobby membership stay. An unknown token changes nothing.
    pub fn move_session(&mut self, socket: Address, token: &str) -> (r: Result<Session, Error>)
        requires
            old(self).wf(),
        ensures
            final(self).wf(),
            r is Err <==> !old(self).sessions().contains_key(token@),
            r is Err ==> r == Err::<Session, Error>(Error::UnknownToken) && final(self).sessions()
                == old(self).sessions() && final(self).sockets() == old(self).sockets(),
            r is Ok ==> final(self).sessions() == old(self).sessions().insert(
                token@,
                SessionView { socket, ..old(self).sessions()[token@] },
            ) && r->Ok_0@.token == token@ && final(self).sockets() == detach(
                old(self).sockets(),
                old(self).sessions()[token@].socket,
                token@,
            ).insert(socket, token@) && r->Ok_0@ == final(self).sessions()[token@],
            final(self).lobbies() == old(self).lobbies(),
            final(self).memberships() == old(self).memberships(),
    {
        let t = String::from_str(token);
        let i = match self.session_index(&t) {
            Some(i) => i,
            None => {
                return Err(Error::UnknownToken);
            },
        };
        let ghost old_sockets = self.sockets();
        let ghost ss = self.sessions@.map_values(|s: Session| session_pair(s));
        let old_addr = self.sessions[i].socket;
        let ghost ps = self.socket_session@.map_values(|p: (Address, String)| socket_pair(p));
        match self.socket_index(old_addr) {
            Some(j) => {
                if self.socket_session[j].1 == t {
                    proof {
                        lemma_assoc_remove(ps, j as int);
                    }
                    self.socket_session.remove(j);
                    assert(self.socket_session@.map_values(|p: (Address, String)| socket_pair(p))
                        =~= ps.remove(j as int));
                } else {
                    assert(ps[j as int] == socket_pair(self.socket_session@[j as int]));
                }
            },
            None => {},
        }
        assert(self.sockets() == detach(old_sockets, old_addr, t@));
        proof {
            lemma_assoc_update(ss, i as int, SessionView { socket, ..ss[i as int].1 });
        }
        self.sessions[i].socket = socket;
        assert(self.sessions@.map_values(|s: Session| session_pair(s)) =~= ss.update(
            i as int,
            (ss[i as int].0, SessionView { socket, ..ss[i as int].1 }),
        ));
        self.attach(socket, &t);
        proof {
            lemma_wf_session_update(old(self), self, t@, SessionView { socket, ..ss[i as int].1 });
        }
        Ok(self.sessions[i].snapshot())
    }
}

impl AppState {
    /// Live lobbies once the session with token `t` has left its lobby: the lobby loses
    /// that occupant, and is gone if it had no other.
    pub open spec fn lobbies_after_leave(&self, t: Seq<char>) -> Map<Seq<char>, LobbyView> {
        if self.memberships().contains_key(t) {
            let c = self.memberships()[t];
            let l = self.lobbies()[c];
            if l.count() <= 1 {
                self.lobbies().remove(c)
            } else {
                self.lobbies().insert(c, without(l, t))
            }
        } else {
            self.lobbies()
        }
    }

    /// The session with token `t` leaves its lobby, if it has one. The lobby is
    /// deleted as soon as it has no occupant left.
    fn leave(&mut self, t: &String)
        requires
            old(self).wf(),
        ensures
            final(self).wf(),
            final(self).sessions() == old(self).sessions(),
            final(self).sockets() == old(self).sockets(),
            final(self).memberships() == old(self).memberships().remove(t@),
            final(self).lobbies() == old(self).lobbies_after_leave(t@),
    {
        let mi = match self.membership_index(t) {
            Some(mi) => mi,
            None => {
                assert(self.memberships() =~= self.memberships().remove(t@));
                return;
            },
        };
        let code = self.session_lobby[mi].1.clone();
        let li = match self.lobby_index(&code) {
            Some(li) => li,
            None => {
                return;
            },
        };
        let ghost old_lobbies = self.lobbies();
        let ghost old_members = self.memberships();
        let ghost l = self.lobbies@[li as int]@;
        let ghost lp = self.lobbies@.map_values(|l: Lobby| lobby_pair(l));
        let ghost mp = self.session_lobby@.map_values(|p: (String, String)| member_pair(p));
        assert(l == old_lobbies[code@]);
        assert(l.holds(t@));
        proof {
            lemma_assoc_dom(l.players, t@);
        }
        self.lobbies[li].remove_player(t);
        let ghost l2 = self.lobbies@[li as int]@;
        assert(l2 == without(l, t@));
        proof {
            lemma_assoc_update(lp, li as int, l2);
        }
        assert(self.lobbies@.map_values(|l: Lobby| lobby_pair(l)) =~= lp.update(li as int, (code@, l2)));
        assert(self.lobbies() == old_lobbies.insert(code@, l2));
        if !self.lobbies[li].has_players() {
            let ghost lp2 = self.lobbies@.map_values(|l: Lobby| lobby_pair(l));
            proof {
                lemma_assoc_remove(lp2, li as int);
            }
            self.lobbies.remove(li);
            assert(self.lobbies@.map_values(|l: Lobby| lobby_pair(l)) =~= lp2.remove(li as int));
            assert(self.lobbies() =~= old_lobbies.remove(code@));
        }
        proof {
            lemma_assoc_remove(mp, mi as int);
        }
        self.session_lobby.remove(mi);
        assert(self.session_lobby@.map_values(|p: (String, String)| member_pair(p)) =~= mp.remove(mi as int));
        assert(self.lobbies() == old(self).lobbies_after_leave(t@));
        assert(self.wf()) by {
            assert forall|c: Seq<char>| #[trigger] self.lobbies().contains_key(c) implies {
                &&& self.lobbies()[c].code == c
                &&& self.lobbies()[c].wf()
                &&& self.lobbies()[c].count() > 0
            } by {
                assert(old_lobbies.contains_key(c));
            }
            assert forall|u: Seq<char>| #[trigger] self.memberships().contains_key(u) implies {
                &&& self.sessions().contains_key(u)
                &&& self.lobbies().contains_key(self.memberships()[u])
                &&& self.lobbies()[self.memberships()[u]].holds(u)
            } by {
                assert(old_members.contains_key(u));
                let c = old_members[u];
                assert(old_lobbies.contains_key(c));
                assert(old_lobbies[c].holds(u));
                if c == code@ {
                    assert(l2.holds(u));
                    lemma_assoc_dom(l2.players, u);
                }
            }
            assert forall|c: Seq<char>, u: Seq<char>|
                self.lobbies().contains_key(c) && #[trigger] self.lobbies()[c].holds(u) implies {
                &&& self.memberships().contains_key(u)
                &&& self.memberships()[u] == c
            } by {
                assert(old_lobbies.contains_key(c));
                if c == code@ {
                    assert(l.holds(u));
                    assert(u != t@);
                } else {
                    assert(old_lobbies[c].holds(u));
                }
                assert(old_members.contains_key(u) && old_members[u] == c);
            }
        }
    }
}

/// How many random codes a new lobby draws before it takes the first free code.
pub const CODE_DRAWS: usize = 8;

impl AppState {
    /// `candidate` if it is a code that no live lobby has, else the least free code, or
    /// nothing where every code is taken.
    fn free_code(&self, candidate: &str) -> (r: Option<String>)
        requires
            self.wf(),
        ensures
            match r {
                Some(c) => is_code(c@) && !self.lobbies().contains_key(c@) && (is_code(candidate@)
                    && !self.lobbies().contains_key(candidate@) ==> c@ == candidate@),
                None => all_codes_taken(self.lobbies()),
            },
    {
        let cand = String::from_str(candidate);
        if check_code(candidate) && self.lobby_index(&cand).is_none() {
            return Some(cand);
        }
        let mut n: u16 = 0;
        while n < 10000
            invariant
                self.wf(),
                n <= 10000,
                forall|m: int| 0 <= m < n ==> #[trigger] self.lobbies().contains_key(code_of(m)),
                !(is_code(candidate@) && !self.lobbies().contains_key(candidate@)),
            decreases 10000 - n,
        {
            let c = code_text(n);
            if self.lobby_index(&c).is_none() {
                return Some(c);
            }
            n = n + 1;
        }
        None
    }

    /// The session with token `token` leaves its lobby, if it has one, and opens a new
    /// lobby as its only occupant, holding `symbol`. The new lobby's code is
    /// `candidate` where that is a code no live lobby has, else the least free code.
    /// Unknown token: `UnknownToken`; every code taken: `NoFreeCode`; either way nothing
    /// changes.
    pub fn create_lobby(&mut self, token: &str, candidate: &str, symbol: Player) -> (r: Result<String, Error>)
        requires
            old(self).wf(),
        ensures
            final(self).wf(),
            final(self).sessions() == old(self).sessions(),
            final(self).sockets() == old(self).sockets(),
            (r == Err::<String, Error>(Error::UnknownToken)) <==> !old(self).sessions().contains_key(token@),
            (r == Err::<String, Error>(Error::NoFreeCode)) <==> old(self).sessions().contains_key(token@)
                && all_codes_taken(old(self).lobbies()),
            r is Err ==> r == Err::<String, Error>(Error::UnknownToken) || r == Err::<String, Error>(Error::NoFreeCode),
            r is Err ==> final(self).lobbies() == old(self).lobbies() && final(self).memberships()
                == old(self).memberships(),
            r is Ok ==> {
                let c = r->Ok_0@;
                &&& is_code(c)
                &&& !old(self).lobbies().contains_key(c)
                &&& is_code(candidate@) && !old(self).lobbies().contains_key(candidate@) ==> c == candidate@
                &&& final(self).lobbies() == old(self).lobbies_after_leave(token@).insert(
                    c,
                    LobbyView { code: c, game: None, players: seq![(token@, symbol)] },
                )
                &&& final(self).memberships() == old(self).memberships().insert(token@, c)
                &&& forall|d: Seq<char>| #[trigger] final(self).lobbies().contains_key(d) ==> (final(self).lobbies()[d].holds(token@) <==> d == c)
            },
            old(self).sessions().contains_key(token@) && old(self).lobbies().len() < 10000 ==> r is Ok,
    {
        let t = String::from_str(token);
        if self.session_index(&t).is_none() {
            return Err(Error::UnknownToken);
        }
        let code = match self.free_code(candidate) {
            Some(c) => c,
            None => {
                proof {
                    lemma_finite(self);
                    if self.lobbies().len() < 10000 {
                        lemma_few_lobbies_leave_a_code(self.lobbies());
                    }
                }
                return Err(Error::NoFreeCode);
            },
        };
        assert(!all_codes_taken(old(self).lobbies())) by {
            lemma_code_value(code@);
        }
        let ghost before = self.lobbies();
        self.leave(&t);
        assert(!self.lobbies().contains_key(code@)) by {
            if self.lobbies().contains_key(code@) {
                assert(before.contains_key(code@));
            }
        }
        let ghost mid_lobbies = self.lobbies();
        let ghost mid_members = self.memberships();
        let lobby = Lobby::open(code.clone(), t.clone(), symbol);
        let ghost lv = lobby@;
        let ghost lp = self.lobbies@.map_values(|l: Lobby| lobby_pair(l));
        proof {
            lemma_assoc_push(lp, code@, lv);
        }
        self.lobbies.push(lobby);
        assert(self.lobbies@.map_values(|l: Lobby| lobby_pair(l)) =~= lp.push((code@, lv)));
        let ghost mp = self.session_lobby@.map_values(|p: (String, String)| member_pair(p));
        proof {
            lemma_assoc_push(mp, t@, code@);
        }
        self.session_lobby.push((t, code.clone()));
        assert(self.session_lobby@.map_values(|p: (String, String)| member_pair(p)) =~= mp.push((token@, code@)));
        assert(self.memberships() =~= old(self).memberships().insert(token@, code@));
        assert(lv.holds(token@)) by {
            lemma_assoc_dom(lv.players, token@);
            assert(lv.players[0].0 == token@);
        }
        assert(self.wf()) by {
            assert forall|u: Seq<char>| #[trigger] self.memberships().contains_key(u) implies {
                &&& self.sessions().contains_key(u)
                &&& self.lobbies().contains_key(self.memberships()[u])
                &&& self.lobbies()[self.memberships()[u]].holds(u)
            } by {
                if u != token@ {
                    assert(mid_members.contains_key(u));
                }
            }
            assert forall|c: Seq<char>, u: Seq<char>|
                self.lobbies().contains_key(c) && #[trigger] self.lobbies()[c].holds(u) implies {
                &&& self.memberships().contains_key(u)
                &&& self.memberships()[u] == c
            } by {
                if c == code@ {
                    lemma_assoc_dom(lv.players, u);
                    if u != token@ {
                        let j = choose|j: int| 0 <= j < lv.players.len() && #[trigger] lv.players[j].0 == u;
                        assert(j == 0);
                    }
                } else {
                    assert(mid_lobbies.contains_key(c) && mid_lobbies[c].holds(u));
                }
            }
        }
        proof {
            lemma_seated_only_in_own_lobby(self, token@);
        }
        Ok(code)
    }

    /// The session with token `token` leaves its lobby, if it has one, and opens a new
    /// lobby with a randomly drawn code (drawn again while it names a live lobby, a
    /// bounded number of times, then the least free code) as its only occupant, holding
    /// a randomly drawn symbol. Unknown token: `UnknownToken`; every code taken:
    /// `NoFreeCode`; either way nothing changes.
    pub fn new_lobby(&mut self, token: &str) -> (r: Result<String, Error>)
        requires
            old(self).wf(),
        ensures
            final(self).wf(),
            final(self).sessions() == old(self).sessions(),
            final(self).sockets() == old(self).sockets(),
            (r == Err::<String, Error>(Error::UnknownToken)) <==> !old(self).sessions().contains_key(token@),
            (r == Err::<String, Error>(Error::NoFreeCode)) <==> old(self).sessions().contains_key(token@)
                && all_codes_taken(old(self).lobbies()),
            r is Err ==> r == Err::<String, Error>(Error::UnknownToken) || r == Err::<String, Error>(Error::NoFreeCode),
            r is Err ==> final(self).lobbies() == old(self).lobbies() && final(self).memberships()
                == old(self).memberships(),
            r is Ok ==> {
                let c = r->Ok_0@;
                &&& is_code(c)
                &&& !old(self).lobbies().contains_key(c)
                &&& final(self).lobbies() == old(self).lobbies_after_leave(token@).insert(
                    c,
                    LobbyView { code: c, game: None, players: seq![(token@, final(self).lobbies()[c].players[0].1)] },
                )
                &&& final(self).memberships() == old(self).memberships().insert(token@, c)
                &&& forall|d: Seq<char>| #[trigger] final(self).lobbies().contains_key(d) ==> (final(self).lobbies()[d].holds(token@) <==> d == c)
            },
            old(self).sessions().contains_key(token@) && old(self).lobbies().len() < 10000 ==> r is Ok,
    {
        let mut candidate = random_code();
        let mut draws: usize = 1;
        while draws < CODE_DRAWS
            invariant
                1 <= draws <= CODE_DRAWS,
                self.wf(),
            decreases CODE_DRAWS - draws,
        {
            if self.lobby_index(&candidate).is_none() {
                break;
            }
            candidate = random_code();
            draws = draws + 1;
        }
        let symbol = if random_coin() { Player::O } else { Player::X };
        self.create_lobby(token, candidate.as_str(), symbol)
    }

    /// The session with token `token` leaves its lobby, if it has one.
    pub fn leave_lobby(&mut self, token: &str)
        requires
            old(self).wf(),
        ensures
            final(self).wf(),
            final(self).sessions() == old(self).sessions(),
            final(self).sockets() == old(self).sockets(),
            final(self).memberships() == old(self).memberships().remove(token@),
            final(self).lobbies() == old(self).lobbies_after_leave(token@),
    {
        let t = String::from_str(token);
        self.leave(&t);
    }
}

impl AppState {
    /// The session with token `token` joins the live lobby with code `code`, taking the
    /// complement of the first occupant's symbol. It first leaves the lobby it was in,
    /// which is deleted if it is left empty. Joining the lobby it is in already changes
    /// nothing. Unknown token: `UnknownToken`; no live lobby with that code:
    /// `UnknownLobby`; a lobby with two occupants: `LobbyFull`; on each, nothing changes.
    pub fn join_lobby(&mut self, code: &str, token: &str) -> (r: Result<(), Error>)
        requires
            old(self).wf(),
        ensures
            final(self).wf(),
            final(self).sessions() == old(self).sessions(),
            final(self).sockets() == old(self).sockets(),
            !old(self).sessions().contains_key(token@) ==> r == Err::<(), Error>(Error::UnknownToken),
            old(self).sessions().contains_key(token@) && !old(self).lobbies().contains_key(code@) ==> r
                == Err::<(), Error>(Error::UnknownLobby),
            old(self).sessions().contains_key(token@) && old(self).lobbies().contains_key(code@)
                && !old(self).lobbies()[code@].holds(token@) && old(self).lobbies()[code@].count() >= 2
                ==> r == Err::<(), Error>(Error::LobbyFull),
            r is Ok <==> old(self).sessions().contains_key(token@) && old(self).lobbies().contains_key(code@)
                && (old(self).lobbies()[code@].holds(token@) || old(self).lobbies()[code@].count() < 2),
            r is Ok ==> final(self).memberships().contains_key(token@) && final(self).memberships()[token@] == code@,
            r is Ok ==> forall|d: Seq<char>| #[trigger] final(self).lobbies().contains_key(d) ==> (final(self).lobbies()[d].holds(token@) <==> d == code@),
            r is Err || old(self).lobbies()[code@].holds(token@) ==> final(self).lobbies() == old(self).lobbies()
                && final(self).memberships() == old(self).memberships(),
            r is Ok && !old(self).lobbies()[code@].holds(token@) ==> {
                let l = old(self).lobbies()[code@];
                &&& final(self).lobbies() == old(self).lobbies_after_leave(token@).insert(
                    code@,
                    LobbyView { players: l.players.push((token@, l.players[0].1.spec_other())), ..l },
                )
                &&& final(self).memberships() == old(self).memberships().insert(token@, code@)
            },
            r is Ok && !old(self).lobbies()[code@].holds(token@) && old(self).memberships().contains_key(token@) ==> {
                let p = old(self).memberships()[token@];
                &&& old(self).lobbies()[p].count() == 1 ==> !final(self).lobbies().contains_key(p)
                &&& old(self).lobbies()[p].count() > 1 ==> final(self).lobbies().contains_key(p)
                    && final(self).lobbies()[p].count() == old(self).lobbies()[p].count() - 1
            },
    {
        let t = String::from_str(token);
        let c = String::from_str(code);
        if self.session_index(&t).is_none() {
            return Err(Error::UnknownToken);
        }
        let li = match self.lobby_index(&c) {
            Some(li) => li,
            None => {
                return Err(Error::UnknownLobby);
            },
        };
        if self.lobbies[li].has_player(&t) {
            proof {
                lemma_seated_only_in_own_lobby(self, token@);
            }
            return Ok(());
        }
        if self.lobbies[li].player_count() >= 2 {
            return Err(Error::LobbyFull);
        }
        let ghost l = self.lobbies()[code@];
        let ghost before = self.lobbies();
        let ghost before_members = self.memberships();
        proof {
            if before_members.contains_key(token@) {
                let p = before_members[token@];
                assert(before[p].holds(token@));
                assert(p != code@);
                let lp = before[p];
                lemma_assoc_dom(lp.players, token@);
                if lp.count() > 1 {
                    assert(without(lp, token@).count() == lp.count() - 1);
                }
            }
        }
        self.leave(&t);
        assert(self.lobbies()[code@] == l);
        let ghost mid_lobbies = self.lobbies();
        let ghost mid_members = self.memberships();
        let li = match self.lobby_index(&c) {
            Some(li) => li,
            None => {
                return Err(Error::UnknownLobby);
            },
        };
        let ghost lp = self.lobbies@.map_values(|l: Lobby| lobby_pair(l));
        let added = self.lobbies[li].seat_player(t.clone(), Player::X);
        let ghost l2 = self.lobbies@[li as int]@;
        assert(l.players.len() > 0);
        assert(l2 == LobbyView { players: l.players.push((token@, l.players[0].1.spec_other())), ..l });
        proof {
            lemma_assoc_update(lp, li as int, l2);
        }
        assert(self.lobbies@.map_values(|l: Lobby| lobby_pair(l)) =~= lp.update(li as int, (code@, l2)));
        let ghost mp = self.session_lobby@.map_values(|p: (String, String)| member_pair(p));
        proof {
            lemma_assoc_push(mp, t@, code@);
        }
        self.session_lobby.push((t, c));
        assert(self.session_lobby@.map_values(|p: (String, String)| member_pair(p)) =~= mp.push((token@, code@)));
        assert(self.memberships() =~= old(self).memberships().insert(token@, code@));
        proof {
            crate::assoc::lemma_assoc_push(l.players, token@, l.players[0].1.spec_other());
        }
        assert(self.wf()) by {
            assert forall|u: Seq<char>| #[trigger] self.memberships().contains_key(u) implies {
                &&& self.sessions().contains_key(u)
                &&& self.lobbies().contains_key(self.memberships()[u])
                &&& self.lobbies()[self.memberships()[u]].holds(u)
            } by {
                if u != token@ {
                    assert(mid_members.contains_key(u));
                    if mid_members[u] == code@ {
                        assert(l.holds(u));
                    }
                }
            }
            assert forall|cc: Seq<char>, u: Seq<char>|
                self.lobbies().contains_key(cc) && #[trigger] self.lobbies()[cc].holds(u) implies {
                &&& self.memberships().contains_key(u)
                &&& self.memberships()[u] == cc
            } by {
                if cc == code@ {
                    if u != token@ {
                        assert(l.holds(u));
                        assert(mid_lobbies[cc].holds(u));
                    }
                } else {
                    assert(mid_lobbies.contains_key(cc) && mid_lobbies[cc].holds(u));
                }
            }
            assert forall|cc: Seq<char>| #[trigger] self.lobbies().contains_key(cc) implies {
                &&& self.lobbies()[cc].code == cc
                &&& self.lobbies()[cc].wf()
                &&& self.lobbies()[cc].count() > 0
            } by {
                if cc != code@ {
                    assert(mid_lobbies.contains_key(cc));
                }
            }
        }
        proof {
            lemma_seated_only_in_own_lobby(self, token@);
        }
        Ok(())
    }
}

impl AppState {
    /// Position of the lobby of the session with token `t`. Unknown token:
    /// `UnknownToken`; a session in no lobby: `NotInLobby`.
    fn member_lobby(&self, t: &String) -> (r: Result<usize, Error>)
        requires
            self.wf(),
        ensures
            !self.sessions().contains_key(t@) ==> r == Err::<usize, Error>(Error::UnknownToken),
            self.sessions().contains_key(t@) && !self.memberships().contains_key(t@) ==> r == Err::<
                usize,
                Error,
            >(Error::NotInLobby),
            r is Ok <==> self.memberships().contains_key(t@),
            r matches Ok(i) ==> i < self.lobbies@.len() && self.lobbies@[i as int].code@ == self.memberships()[t@]
                && self.lobbies()[self.memberships()[t@]] == self.lobbies@[i as int]@,
    {
        if self.session_index(t).is_none() {
            return Err(Error::UnknownToken);
        }
        let mi = match self.membership_index(t) {
            Some(mi) => mi,
            None => {
                return Err(Error::NotInLobby);
            },
        };
        match self.lobby_index(&self.session_lobby[mi].1) {
            Some(li) => Ok(li),
            None => Err(Error::NotInLobby),
        }
    }

    /// Replaces the game of the lobby at position `li`.
    fn set_game(&mut self, li: usize, game: Option<Game>)
        requires
            old(self).wf(),
            li < old(self).lobbies@.len(),
        ensures
            final(self).wf(),
            final(self).lobbies() == old(self).lobbies().insert(
                old(self).lobbies@[li as int].code@,
                LobbyView { game, ..old(self).lobbies@[li as int]@ },
            ),
            final(self).sessions() == old(self).sessions(),
            final(self).sockets() == old(self).sockets(),
            final(self).memberships() == old(self).memberships(),
    {
        let ghost lp = self.lobbies@.map_values(|l: Lobby| lobby_pair(l));
        let ghost code = self.lobbies@[li as int].code@;
        let ghost l = self.lobbies@[li as int]@;
        proof {
            lemma_assoc_update(lp, li as int, LobbyView { game, ..l });
            lemma_assoc_index(lp, li as int);
        }
        self.lobbies[li].game = game;
        assert(self.lobbies@.map_values(|l: Lobby| lobby_pair(l)) =~= lp.update(
            li as int,
            (code, LobbyView { game, ..l }),
        ));
        assert(self.wf()) by {
            assert forall|u: Seq<char>| #[trigger] self.memberships().contains_key(u) implies {
                &&& self.sessions().contains_key(u)
                &&& self.lobbies().contains_key(self.memberships()[u])
                &&& self.lobbies()[self.memberships()[u]].holds(u)
            } by {
                assert(old(self).memberships().contains_key(u));
            }
            assert forall|cc: Seq<char>, u: Seq<char>|
                self.lobbies().contains_key(cc) && #[trigger] self.lobbies()[cc].holds(u) implies {
                &&& self.memberships().contains_key(u)
                &&& self.memberships()[u] == cc
            } by {
                assert(old(self).lobbies().contains_key(cc) && old(self).lobbies()[cc].holds(u));
            }
            assert forall|cc: Seq<char>| #[trigger] self.lobbies().contains_key(cc) implies {
                &&& self.lobbies()[cc].code == cc
                &&& self.lobbies()[cc].wf()
                &&& self.lobbies()[cc].count() > 0
            } by {
                assert(old(self).lobbies().contains_key(cc));
            }
        }
    }

    /// Starts a fresh game in the lobby of the session with token `token` when that
    /// lobby has two occupants; with fewer the lobby stays as it was. Unknown token:
    /// `UnknownToken`; a session in no lobby: `NotInLobby`.
    pub fn start_game(&mut self, token: &str) -> (r: Result<(), Error>)
        requires
            old(self).wf(),
        ensures
            final(self).wf(),
            final(self).sessions() == old(self).sessions(),
            final(self).sockets() == old(self).sockets(),
            final(self).memberships() == old(self).memberships(),
            !old(self).sessions().contains_key(token@) ==> r == Err::<(), Error>(Error::UnknownToken),
            old(self).sessions().contains_key(token@) && !old(self).memberships().contains_key(token@) ==> r
                == Err::<(), Error>(Error::NotInLobby),
            r is Ok <==> old(self).memberships().contains_key(token@),
            r is Err ==> final(self).lobbies() == old(self).lobbies(),
            r is Ok ==> {
                let c = old(self).memberships()[token@];
                let l = old(self).lobbies()[c];
                &&& final(self).lobbies() == old(self).lobbies().insert(c, final(self).lobbies()[c])
                &&& final(self).lobbies()[c].code == l.code
                &&& final(self).lobbies()[c].players == l.players
                &&& l.count() == 2 ==> (final(self).lobbies()[c].game matches Some(g) && g.is_fresh())
                &&& l.count() != 2 ==> final(self).lobbies()[c] == l
            },
    {
        let t = String::from_str(token);
        let li = match self.member_lobby(&t) {
            Ok(li) => li,
            Err(e) => {
                return Err(e);
            },
        };
        if self.lobbies[li].player_count() == 2 {
            self.set_game(li, Some(Game::new()));
        } else {
            assert(self.lobbies() =~= self.lobbies().insert(self.memberships()[token@], self.lobbies()[self.memberships()[token@]]));
        }
        Ok(())
    }

    /// The session with token `token` moves to cell `position` in its lobby's game,
    /// with its own symbol; the result is the new board. Unknown token:
    /// `UnknownToken`; a session in no lobby: `NotInLobby`; a lobby without a game:
    /// `GameNotStarted`; a move that the game refuses: the game's error. A failed move
    /// changes nothing.
    pub fn play(&mut self, token: &str, position: usize) -> (r: Result<[Option<Player>; 9], Error>)
        requires
            old(self).wf(),
        ensures
            final(self).wf(),
            final(self).sessions() == old(self).sessions(),
            final(self).sockets() == old(self).sockets(),
            final(self).memberships() == old(self).memberships(),
            !old(self).sessions().contains_key(token@) ==> r == Err::<[Option<Player>; 9], Error>(Error::UnknownToken),
            old(self).sessions().contains_key(token@) && !old(self).memberships().contains_key(token@) ==> r
                == Err::<[Option<Player>; 9], Error>(Error::NotInLobby),
            r is Err ==> final(self).lobbies() == old(self).lobbies(),
            old(self).memberships().contains_key(token@) ==> {
                let c = old(self).memberships()[token@];
                let l = old(self).lobbies()[c];
                let p = l.symbol_of(token@);
                match l.game {
                    None => r == Err::<[Option<Player>; 9], Error>(Error::GameNotStarted),
                    Some(g) => match g.move_error(p, position as int) {
                        Some(e) => r == Err::<[Option<Player>; 9], Error>(e),
                        None => r matches Ok(b) && b@ == g.board@.update(position as int, Some(p))
                            && final(self).lobbies() == old(self).lobbies().insert(
                                c,
                                LobbyView { game: Some(Game { current_player: p.spec_other(), board: b }), ..l },
                            ),
                    },
                }
            },
    {
        let t = String::from_str(token);
        let li = match self.member_lobby(&t) {
            Ok(li) => li,
            Err(e) => {
                return Err(e);
            },
        };
        let ghost c = self.memberships()[token@];
        let ghost l = self.lobbies()[c];
        assert(l.holds(token@));
        let p = match self.lobbies[li].symbol_of(&t) {
            Some(p) => p,
            None => {
                return Err(Error::NotInLobby);
            },
        };
        let mut game = match self.lobbies[li].game {
            Some(g) => g,
            None => {
                return Err(Error::GameNotStarted);
            },
        };
        match game.move_player(p, position) {
            Ok(b) => {
                self.set_game(li, Some(game));
                assert(game == Game { current_player: p.spec_other(), board: b });
                Ok(b)
            },
            Err(e) => Err(e),
        }
    }

    /// Checks that the session with token `token` may hover over a cell: its lobby has a
    /// game and the session's symbol is the one to move. The result is that symbol.
    /// Unknown token: `UnknownToken`; a session in no lobby: `NotInLobby`; a lobby
    /// without a game: `GameNotStarted`; the other symbol to move: `NotYourTurn`.
    pub fn hover(&self, token: &str) -> (r: Result<Player, Error>)
        requires
            self.wf(),
        ensures
            !self.sessions().contains_key(token@) ==> r == Err::<Player, Error>(Error::UnknownToken),
            self.sessions().contains_key(token@) && !self.memberships().contains_key(token@) ==> r
                == Err::<Player, Error>(Error::NotInLobby),
            self.memberships().contains_key(token@) ==> {
                let l = self.lobbies()[self.memberships()[token@]];
                let p = l.symbol_of(token@);
                match l.game {
                    None => r == Err::<Player, Error>(Error::GameNotStarted),
                    Some(g) => if g.current_player == p {
                        r == Ok::<Player, Error>(p)
                    } else {
                        r == Err::<Player, Error>(Error::NotYourTurn)
                    },
                }
            },
    {
        let t = String::from_str(token);
        let li = match self.member_lobby(&t) {
            Ok(li) => li,
            Err(e) => {
                return Err(e);
            },
        };
        let ghost l = self.lobbies()[self.memberships()[token@]];
        assert(l.holds(token@));
        let p = match self.lobbies[li].symbol_of(&t) {
            Some(p) => p,
            None => {
                return Err(Error::NotInLobby);
            },
        };
        match self.lobbies[li].game {
            Some(g) => if g.current_player == p {
                Ok(p)
            } else {
                Err(Error::NotYourTurn)
            },
            None => Err(Error::GameNotStarted),
        }
    }

    /// Sets the nickname of the session with token `token`; the result is a copy of the
    /// session. Unknown token: `UnknownToken`, and nothing changes.
    pub fn rename(&mut self, token: &str, nickname: &str) -> (r: Result<Session, Error>)
        requires
            old(self).wf(),
        ensures
            final(self).wf(),
            r is Err <==> !old(self).sessions().contains_key(token@),
            r is Err ==> r == Err::<Session, Error>(Error::UnknownToken) && final(self).sessions()
                == old(self).sessions(),
            r is Ok ==> final(self).sessions() == old(self).sessions().insert(
                token@,
                SessionView { nickname: Some(nickname@), ..old(self).sessions()[token@] },
            ) && r->Ok_0@ == final(self).sessions()[token@],
            final(self).sockets() == old(self).sockets(),
            final(self).lobbies() == old(self).lobbies(),
            final(self).memberships() == old(self).memberships(),
    {
        let t = String::from_str(token);
        let i = match self.session_index(&t) {
            Some(i) => i,
            None => {
                return Err(Error::UnknownToken);
            },
        };
        let ghost ss = self.sessions@.map_values(|s: Session| session_pair(s));
        let ghost nv = SessionView { nickname: Some(nickname@), ..ss[i as int].1 };
        proof {
            lemma_assoc_update(ss, i as int, nv);
        }
        self.sessions[i].set_nickname(nickname);
        assert(self.sessions@.map_values(|s: Session| session_pair(s)) =~= ss.update(i as int, (ss[i as int].0, nv)));
        proof {
            lemma_wf_session_update(old(self), self, token@, nv);
        }
        Ok(self.sessions[i].snapshot())
    }
}

impl AppState {
    /// The token of the session reached at address `socket`, if any.
    pub fn session_at(&self, socket: Address) -> (r: Option<String>)
        requires
            self.wf(),
        ensures
            match r {
                Some(t) => self.sockets().contains_key(socket) && t@ == self.sockets()[socket],
                None => !self.sockets().contains_key(socket),
            },
    {
        match self.socket_index(socket) {
            Some(i) => Some(self.socket_session[i].1.clone()),
            None => None,
        }
    }

    /// The session with token `token`, if any.
    pub fn session(&self, token: &str) -> (r: Option<&Session>)
        requires
            self.wf(),
        ensures
            match r {
                Some(s) => self.sessions().contains_key(token@) && s@ == self.sessions()[token@],
                None => !self.sessions().contains_key(token@),
            },
    {
        let t = String::from_str(token);
        match self.session_index(&t) {
            Some(i) => Some(&self.sessions[i]),
            None => None,
        }
    }

    /// The live lobby with code `code`, if any.
    pub fn lobby(&self, code: &str) -> (r: Option<&Lobby>)
        requires
            self.wf(),
        ensures
            match r {
                Some(l) => self.lobbies().contains_key(code@) && l@ == self.lobbies()[code@],
                None => !self.lobbies().contains_key(code@),
            },
    {
        let c = String::from_str(code);
        match self.lobby_index(&c) {
            Some(i) => Some(&self.lobbies[i]),
            None => None,
        }
    }

    /// The code of the lobby that the session with token `token` is a member of, if any.
    pub fn lobby_of(&self, token: &str) -> (r: Option<String>)
        requires
            self.wf(),
        ensures
            match r {
                Some(c) => self.memberships().contains_key(token@) && c@ == self.memberships()[token@],
                None => !self.memberships().contains_key(token@),
            },
    {
        let t = String::from_str(token);
        match self.membership_index(&t) {
            Some(i) => Some(self.session_lobby[i].1.clone()),
            None => None,
        }
    }

    /// Number of live lobbies.
    pub fn lobby_count(&self) -> (n: usize)
        requires
            self.wf(),
        ensures
            self.lobbies().dom().finite(),
            n == self.lobbies().len(),
    {
        proof {
            lemma_assoc_len(self.lobbies@.map_values(|l: Lobby| lobby_pair(l)));
        }
        self.lobbies.len()
    }

    /// Number of sessions.
    pub fn session_count(&self) -> (n: usize)
        requires
            self.wf(),
        ensures
            self.sessions().dom().finite(),
            n == self.sessions().len(),
    {
        proof {
            lemma_assoc_len(self.sessions@.map_values(|s: Session| session_pair(s)));
        }
        self.sessions.len()
    }
}

/// No session is a member of two lobbies: two live lobbies that both seat the session
/// with token `t` are one lobby, and it is the lobby that the membership index gives
/// for `t`.
pub proof fn lemma_single_membership(s: &AppState, t: Seq<char>, c1: Seq<char>, c2: Seq<char>)
    requires
        s.wf(),
        s.lobbies().contains_key(c1),
        s.lobbies().contains_key(c2),
        s.lobbies()[c1].holds(t),
        s.lobbies()[c2].holds(t),
    ensures
        c1 == c2,
        s.memberships().contains_key(t),
        s.memberships()[t] == c1,
{
}

/// Every live lobby has one or two occupants, and two occupants hold different
/// symbols.
pub proof fn lemma_lobby_occupancy(s: &AppState, c: Seq<char>)
    requires
        s.wf(),
        s.lobbies().contains_key(c),
    ensures
        1 <= s.lobbies()[c].count() <= 2,
        s.lobbies()[c].count() == 2 ==> s.lobbies()[c].players[0].1 != s.lobbies()[c].players[1].1,
{
}

/// An attached address leads to a known session whose address it is.
pub proof fn lemma_attached_session(s: &AppState, a: Address)
    requires
        s.wf(),
        s.sockets().contains_key(a),
    ensures
        s.sessions().contains_key(s.sockets()[a]),
        s.sessions()[s.sockets()[a]].socket == a,
{
}

/// A member session is known, and its lobby is live and seats it.
pub proof fn lemma_member_seated(s: &AppState, t: Seq<char>)
    requires
        s.wf(),
        s.memberships().contains_key(t),
    ensures
        s.sessions().contains_key(t),
        s.lobbies().contains_key(s.memberships()[t]),
        s.lobbies()[s.memberships()[t]].holds(t),
{
}

/// The registry holds finitely many lobbies and sessions.
pub proof fn lemma_finite(s: &AppState)
    requires
        s.wf(),
    ensures
        s.lobbies().dom().finite(),
        s.sessions().dom().finite(),
{
    lemma_assoc_len(s.lobbies@.map_values(|l: Lobby| lobby_pair(l)));
    lemma_assoc_len(s.sessions@.map_values(|x: Session| session_pair(x)));
}

/// Fewer than 10000 lobbies leave some four-digit code free.
pub proof fn lemma_few_lobbies_leave_a_code(m: Map<Seq<char>, LobbyView>)
    requires
        m.dom().finite(),
        m.len() < 10000,
    ensures
        !all_codes_taken(m),
{
    if all_codes_taken(m) {
        let r = set_int_range(0, 10000);
        let f = |n: int| code_of(n);
        lemma_int_range(0, 10000);
        assert(injective_on(f, r)) by {
            assert forall|x: int, y: int| r.contains(x) && r.contains(y) && #[trigger] f(x) == #[trigger] f(y) implies x == y by {
                lemma_code_of_value(x);
                lemma_code_of_value(y);
            }
        }
        lemma_map_size(r, r.map(f), f);
        assert(r.map(f).subset_of(m.dom())) by {
            assert forall|c: Seq<char>| r.map(f).contains(c) implies m.dom().contains(c) by {
                let n = choose|n: int| r.contains(n) && f(n) == c;
                assert(m.contains_key(code_of(n)));
            }
        }
        lemma_len_subset(r.map(f), m.dom());
    }
}

/// A member session is seated in its own lobby and in no other live lobby.
pub proof fn lemma_seated_only_in_own_lobby(s: &AppState, t: Seq<char>)
    requires
        s.wf(),
        s.memberships().contains_key(t),
    ensures
        forall|c: Seq<char>| #[trigger] s.lobbies().contains_key(c) ==> (s.lobbies()[c].holds(t) <==> c == s.memberships()[t]),
{
    assert forall|c: Seq<char>| #[trigger] s.lobbies().contains_key(c) implies (s.lobbies()[c].holds(t) <==> c == s.memberships()[t]) by {
        if s.lobbies()[c].holds(t) {
            assert(s.memberships()[t] == c);
        }
    }
}

} // verus!
