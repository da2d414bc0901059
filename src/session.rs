use vstd::prelude::*;
use crate::random::{is_alphanumeric, random_alphanumeric};

verus! {

/// Number of characters in a freshly drawn session token.
pub const TOKEN_LEN: usize = 7;

/// A transport address: an IP address (IPv4 in its IPv4-mapped IPv6 form) and a port.
#[derive(Clone, Copy, Debug, PartialEq, Eq, Structural, Hash)]
pub struct Address {
    pub ip: u128,
    pub port: u16,
}

impl Address {
    pub fn new(ip: u128, port: u16) -> (a: Address)
        ensures
            a.ip == ip,
            a.port == port,
    {
        Address { ip, port }
    }

    pub fn port(&self) -> (p: u16)
        ensures
            p == self.port,
    {
        self.port
    }
}

/// `t` has the shape of a freshly drawn token.
pub open spec fn is_token(t: Seq<char>) -> bool {
    t.len() == TOKEN_LEN && forall|i: int| 0 <= i < t.len() ==> is_alphanumeric(#[trigger] t[i])
}

/// A connected client's identity: its token, its optional nickname and the address it
/// is currently reached at.
#[derive(Debug)]
pub struct Session {
    pub access_token: String,
    pub nickname: Option<String>,
    pub socket: Address,
}

/// What a session holds, as values.
pub struct SessionView {
    pub token: Seq<char>,
    pub nickname: Option<Seq<char>>,
    pub socket: Address,
}

/// The characters of an optional string.
pub open spec fn opt_view(s: Option<String>) -> Option<Seq<char>> {
    match s {
        Some(t) => Some(t@),
        None => None,
    }
}

impl View for Session {
    type V = SessionView;

    open spec fn view(&self) -> SessionView {
        SessionView { token: self.access_token@, nickname: opt_view(self.nickname), socket: self.socket }
    }
}

/// A copy of an optional string.
pub fn copy_opt(s: &Option<String>) -> (r: Option<String>)
    ensures
        opt_view(r) == opt_view(*s),
{
    match s {
        Some(t) => Some(t.clone()),
        None => None,
    }
}

impl Session {
    /// A session at `socket` with a freshly drawn token of `TOKEN_LEN` alphanumeric
    /// characters.
    pub fn new(socket: Address, nickname: Option<String>) -> (s: Session)
        ensures
            is_token(s.access_token@),
            s.nickname == nickname,
            s.socket == socket,
    {
        let mut token = String::new();
        let mut i: usize = 0;
        while i < TOKEN_LEN
            invariant
                i <= TOKEN_LEN,
                token@.len() == i,
                forall|j: int| 0 <= j < i ==> is_alphanumeric(#[trigger] token@[j]),
            decreases TOKEN_LEN - i,
        {
            let c = random_alphanumeric();
            let ghost before = token@;
            token.append(c.as_str());
            assert(token@ =~= before + c@);
            assert(token@[i as int] == c@[0]);
            i = i + 1;
        }
        Session { access_token: token, nickname, socket }
    }

    /// A copy of the session.
    pub fn snapshot(&self) -> (r: Session)
        ensures
            r@ == self@,
    {
        Session {
            access_token: self.access_token.clone(),
            nickname: copy_opt(&self.nickname),
            socket: self.socket,
        }
    }

    /// Sets the nickname; the token and the address stay.
    pub fn set_nickname(&mut self, nickname: &str)
        ensures
            final(self)@ == (SessionView { nickname: Some(nickname@), ..old(self)@ }),
    {
        self.nickname = Some(String::from_str(nickname));
    }
}

} // verus!
