use vstd::prelude::*;
use crate::assoc::{assoc_map, keys_distinct, lemma_assoc_dom, lemma_assoc_index};
use crate::game::{Game, Player};
use crate::random::{is_digit, random_coin, random_digit};

verus! {

/// Number of characters in a lobby code.
pub const CODE_LEN: usize = 4;

/// Number of occupants a lobby can hold.
pub const CAPACITY: usize = 2;

/// `c` is a lobby code: four decimal digits.
pub open spec fn is_code(c: Seq<char>) -> bool {
    c.len() == CODE_LEN && forall|i: int| 0 <= i < c.len() ==> is_digit(#[trigger] c[i])
}

/// The character of the decimal digit `d`.
pub open spec fn digit_char(d: int) -> char {
    if d == 0 { '0' }
    else if d == 1 { '1' }
    else if d == 2 { '2' }
    else if d == 3 { '3' }
    else if d == 4 { '4' }
    else if d == 5 { '5' }
    else if d == 6 { '6' }
    else if d == 7 { '7' }
    else if d == 8 { '8' }
    else { '9' }
}

/// The code that writes `n` with four digits, leading zeros included.
pub open spec fn code_of(n: int) -> Seq<char> {
    seq![digit_char(n / 1000), digit_char((n / 100) % 10), digit_char((n / 10) % 10), digit_char(n % 10)]
}

/// The value of the decimal digit `c`.
pub open spec fn digit_value(c: char) -> int {
    (c as u32) as int - ('0' as u32) as int
}

/// The number that the code `c` writes.
pub open spec fn code_value(c: Seq<char>) -> int {
    1000 * digit_value(c[0]) + 100 * digit_value(c[1]) + 10 * digit_value(c[2]) + digit_value(c[3])
}

proof fn lemma_digit(c: char)
    requires
        is_digit(c),
    ensures
        0 <= digit_value(c) < 10,
        digit_char(digit_value(c)) == c,
{
}

/// Every code is the four-digit writing of a number below 10000.
pub proof fn lemma_code_value(c: Seq<char>)
    requires
        is_code(c),
    ensures
        0 <= code_value(c) < 10000,
        code_of(code_value(c)) == c,
{
    let a = digit_value(c[0]);
    let b = digit_value(c[1]);
    let d = digit_value(c[2]);
    let e = digit_value(c[3]);
    lemma_digit(c[0]);
    lemma_digit(c[1]);
    lemma_digit(c[2]);
    lemma_digit(c[3]);
    let n = code_value(c);
    assert(n / 1000 == a && (n / 100) % 10 == b && (n / 10) % 10 == d && n % 10 == e && 0 <= n < 10000)
        by (nonlinear_arith)
        requires
            0 <= a < 10 && 0 <= b < 10 && 0 <= d < 10 && 0 <= e < 10,
            n == 1000 * a + 100 * b + 10 * d + e,
    ;
    assert(code_of(n) =~= c);
}

proof fn lemma_digit_char(d: int)
    requires
        0 <= d < 10,
    ensures
        is_digit(digit_char(d)),
        digit_value(digit_char(d)) == d,
{
}

/// Writing a number below 10000 with four digits gives a code that reads back as
/// that number.
pub proof fn lemma_code_of_value(n: int)
    requires
        0 <= n < 10000,
    ensures
        is_code(code_of(n)),
        code_value(code_of(n)) == n,
{
    let a = n / 1000;
    let b = (n / 100) % 10;
    let d = (n / 10) % 10;
    let e = n % 10;
    assert(0 <= a < 10 && 0 <= b < 10 && 0 <= d < 10 && 0 <= e < 10 && n == 1000 * a + 100 * b + 10 * d + e)
        by (nonlinear_arith)
        requires
            0 <= n < 10000,
            a == n / 1000,
            b == (n / 100) % 10,
            d == (n / 10) % 10,
            e == n % 10,
    ;
    lemma_digit_char(a);
    lemma_digit_char(b);
    lemma_digit_char(d);
    lemma_digit_char(e);
}

/// Whether `s` is a code: four decimal digits.
pub fn check_code(s: &str) -> (r: bool)
    ensures
        r == is_code(s@),
{
    if s.unicode_len() != CODE_LEN {
        return false;
    }
    let mut i: usize = 0;
    while i < CODE_LEN
        invariant
            s@.len() == CODE_LEN,
            i <= CODE_LEN,
            forall|j: int| 0 <= j < i ==> is_digit(#[trigger] s@[j]),
        decreases CODE_LEN - i,
    {
        let ch = s.get_char(i);
        if !('0' <= ch && ch <= '9') {
            return false;
        }
        i = i + 1;
    }
    true
}

/// The digit `d` as a one-character string.
pub fn digit_text(d: u8) -> (r: &'static str)
    requires
        d < 10,
    ensures
        r@ == seq![digit_char(d as int)],
{
    proof {
        reveal_strlit("0");
        reveal_strlit("1");
        reveal_strlit("2");
        reveal_strlit("3");
        reveal_strlit("4");
        reveal_strlit("5");
        reveal_strlit("6");
        reveal_strlit("7");
        reveal_strlit("8");
        reveal_strlit("9");
    }
    match d {
        0 => "0",
        1 => "1",
        2 => "2",
        3 => "3",
        4 => "4",
        5 => "5",
        6 => "6",
        7 => "7",
        8 => "8",
        _ => "9",
    }
}

/// The four-digit code of `n`, leading zeros included (`7` gives `"0007"`).
pub fn code_text(n: u16) -> (r: String)
    requires
        n < 10000,
    ensures
        r@ == code_of(n as int),
        is_code(r@),
{
    let mut r = String::new();
    r.append(digit_text((n / 1000) as u8));
    r.append(digit_text(((n / 100) % 10) as u8));
    r.append(digit_text(((n / 10) % 10) as u8));
    r.append(digit_text((n % 10) as u8));
    assert(r@ =~= code_of(n as int));
    r
}

/// A code of four randomly drawn digits.
pub fn random_code() -> (r: String)
    ensures
        is_code(r@),
{
    let a = random_digit();
    let b = random_digit();
    let c = random_digit();
    let d = random_digit();
    let n: u16 = a as u16 * 1000 + b as u16 * 100 + c as u16 * 10 + d as u16;
    assert(n / 1000 == a && (n / 100) % 10 == b && (n / 10) % 10 == c && n % 10 == d)
        by (nonlinear_arith)
        requires
            a < 10 && b < 10 && c < 10 && d < 10,
            n == a * 1000 + b * 100 + c * 10 + d,
    ;
    code_text(n)
}

/// A lobby: its code, its game if one was started, and its occupants, each a session
/// token with a symbol, in the order they came.
#[derive(Debug)]
pub struct Lobby {
    pub code: String,
    pub game: Option<Game>,
    pub players: Vec<(String, Player)>,
}

/// What a lobby holds, as values.
pub struct LobbyView {
    pub code: Seq<char>,
    pub game: Option<Game>,
    pub players: Seq<(Seq<char>, Player)>,
}

/// An occupant as values.
pub open spec fn seat_view(p: (String, Player)) -> (Seq<char>, Player) {
    (p.0@, p.1)
}

impl View for Lobby {
    type V = LobbyView;

    open spec fn view(&self) -> LobbyView {
        LobbyView { code: self.code@, game: self.game, players: self.players@.map_values(|p: (String, Player)| seat_view(p)) }
    }
}

impl LobbyView {
    /// Number of occupants.
    pub open spec fn count(self) -> nat {
        self.players.len()
    }

    /// The session with token `t` occupies a slot.
    pub open spec fn holds(self, t: Seq<char>) -> bool {
        assoc_map(self.players).contains_key(t)
    }

    /// The symbol of the occupant with token `t`.
    pub open spec fn symbol_of(self, t: Seq<char>) -> Player {
        assoc_map(self.players)[t]
    }

    /// At most two occupants, no session twice, two occupants hold different symbols,
    /// and the code is four digits.
    pub open spec fn wf(self) -> bool {
        &&& self.players.len() <= CAPACITY
        &&& keys_distinct(self.players)
        &&& self.players.len() == 2 ==> self.players[0].1 != self.players[1].1
        &&& is_code(self.code)
    }
}

/// The position of the occupant with token `t`.
pub open spec fn seat_of(players: Seq<(Seq<char>, Player)>, t: Seq<char>) -> int {
    choose|i: int| 0 <= i < players.len() && players[i].0 == t
}

/// The lobby once the occupant with token `t` has left; later occupants move up one
/// slot.
pub open spec fn without(l: LobbyView, t: Seq<char>) -> LobbyView {
    LobbyView { players: l.players.remove(seat_of(l.players, t)), ..l }
}

/// The symbol that a new occupant gets: the complement of the first occupant's
/// symbol, or `first` in an empty lobby.
pub open spec fn next_symbol(players: Seq<(Seq<char>, Player)>, first: Player) -> Player {
    if players.len() == 0 { first } else { players[0].1.spec_other() }
}

} // verus!

verus! {

impl Lobby {
    /// Position of the occupant with token `player`, if any.
    fn seat_index(&self, player: &String) -> (r: Option<usize>)
        ensures
            match r {
                Some(i) => i < self.players@.len() && self.players@[i as int].0@ == player@,
                None => forall|i: int|
                    0 <= i < self.players@.len() ==> (#[trigger] self.players@[i]).0@ != player@,
            },
    {
        let mut i: usize = 0;
        while i < self.players.len()
            invariant
                i <= self.players@.len(),
                forall|j: int| 0 <= j < i ==> (#[trigger] self.players@[j]).0@ != player@,
            decreases self.players@.len() - i,
        {
            if self.players[i].0 == *player {
                return Some(i);
            }
            i = i + 1;
        }
        None
    }

    /// A lobby with code `code` whose only occupant is `initiator`, holding `symbol`; no
    /// game yet.
    pub fn open(code: String, initiator: String, symbol: Player) -> (l: Lobby)
        requires
            is_code(code@),
        ensures
            l@ == (LobbyView { code: code@, game: None, players: seq![(initiator@, symbol)] }),
            l@.wf(),
    {
        let mut players: Vec<(String, Player)> = Vec::new();
        players.push((initiator, symbol));
        let l = Lobby { code, game: None, players };
        assert(l@.players =~= seq![(l.players@[0].0@, symbol)]);
        l
    }

    /// A lobby with a randomly drawn code whose only occupant is `initiator`, holding a
    /// randomly drawn symbol; no game yet.
    pub fn new(initiator: String) -> (l: Lobby)
        ensures
            is_code(l@.code),
            l@.game is None,
            l@.players.len() == 1,
            l@.players[0].0 == initiator@,
            l@.wf(),
    {
        let code = random_code();
        let mut lobby = Lobby { code, game: None, players: Vec::new() };
        assert(lobby@.players =~= Seq::<(Seq<char>, Player)>::empty());
        let added = lobby.add_player(initiator);
        assert(added);
        lobby
    }

    /// Starts a fresh game when the lobby has two occupants; with fewer it changes
    /// nothing.
    pub fn start_game(&mut self)
        ensures
            final(self)@.code == old(self)@.code,
            final(self)@.players == old(self)@.players,
            old(self)@.count() == 2 ==> (final(self)@.game matches Some(g) && g.is_fresh()),
            old(self)@.count() != 2 ==> final(self)@.game == old(self)@.game,
    {
        if self.players.len() == 2 {
            self.game = Some(Game::new());
        }
    }

    /// Seats `player` in the first empty slot. Its symbol is the complement of the first
    /// occupant's, or `first` in an empty lobby. A full lobby, or one that already holds
    /// `player`, stays as it was; the result says whether the player was seated.
    pub fn seat_player(&mut self, player: String, first: Player) -> (added: bool)
        requires
            old(self)@.wf(),
        ensures
            added <==> old(self)@.count() < CAPACITY && !old(self)@.holds(player@),
            added ==> final(self)@ == (LobbyView {
                players: old(self)@.players.push((player@, next_symbol(old(self)@.players, first))),
                ..old(self)@
            }),
            !added ==> final(self)@ == old(self)@,
            final(self)@.wf(),
    {
        let ghost pv = player@;
        let found = self.seat_index(&player);
        proof {
            lemma_assoc_dom(self@.players, pv);
            if let Some(i) = found {
                assert(self@.players[i as int].0 == pv);
            }
            if found is None {
                assert forall|i: int| 0 <= i < self@.players.len() implies #[trigger] self@.players[i].0 != pv by {
                    assert(self.players@[i].0@ != pv);
                }
            }
        }
        if found.is_some() || self.players.len() >= CAPACITY {
            return false;
        }
        let symbol = if self.players.len() == 0 {
            first
        } else {
            self.players[0].1.other()
        };
        let ghost old_players = self@.players;
        proof {
            crate::assoc::lemma_assoc_push(old_players, pv, symbol);
        }
        self.players.push((player, symbol));
        assert(self@.players =~= old_players.push((pv, symbol)));
        true
    }

    /// Seats `player` in the first empty slot, as `seat_player` does; in an empty lobby
    /// its symbol is drawn at random.
    pub fn add_player(&mut self, player: String) -> (added: bool)
        requires
            old(self)@.wf(),
        ensures
            added <==> old(self)@.count() < CAPACITY && !old(self)@.holds(player@),
            added ==> final(self)@.code == old(self)@.code && final(self)@.game == old(self)@.game
                && final(self)@.count() == old(self)@.count() + 1
                && final(self)@.players.drop_last() == old(self)@.players
                && final(self)@.players.last() == (player@, final(self)@.players.last().1),
            added && old(self)@.count() > 0 ==> final(self)@.players.last().1
                == old(self)@.players[0].1.spec_other(),
            !added ==> final(self)@ == old(self)@,
            final(self)@.wf(),
    {
        let first = if random_coin() { Player::O } else { Player::X };
        let added = self.seat_player(player, first);
        if added {
            assert(self@.players.drop_last() =~= old(self)@.players);
        }
        added
    }

    /// Whether the session with token `player` occupies a slot.
    pub fn has_player(&self, player: &String) -> (r: bool)
        ensures
            r == self@.holds(player@),
    {
        let found = self.seat_index(player);
        proof {
            lemma_assoc_dom(self@.players, player@);
            if let Some(i) = found {
                assert(self@.players[i as int].0 == player@);
            }
            if found is None {
                assert forall|i: int| 0 <= i < self@.players.len() implies #[trigger] self@.players[i].0 != player@ by {
                    assert(self.players@[i].0@ != player@);
                }
            }
        }
        found.is_some()
    }

    /// The symbol of the occupant with token `player`, if it is one.
    pub fn symbol_of(&self, player: &String) -> (r: Option<Player>)
        requires
            self@.wf(),
        ensures
            r == (if self@.holds(player@) { Some(self@.symbol_of(player@)) } else { None::<Player> }),
    {
        let found = self.seat_index(player);
        proof {
            lemma_assoc_dom(self@.players, player@);
            if let Some(i) = found {
                assert(self@.players[i as int].0 == player@);
                lemma_assoc_index(self@.players, i as int);
            }
            if found is None {
                assert forall|i: int| 0 <= i < self@.players.len() implies #[trigger] self@.players[i].0 != player@ by {
                    assert(self.players@[i].0@ != player@);
                }
            }
        }
        match found {
            Some(i) => Some(self.players[i].1),
            None => None,
        }
    }

    /// Frees the slot of the session with token `player`; later occupants move up one
    /// slot. A lobby without that session stays as it was.
    pub fn remove_player(&mut self, player: &String)
        requires
            old(self)@.wf(),
        ensures
            final(self)@.wf(),
            final(self)@.code == old(self)@.code,
            final(self)@.game == old(self)@.game,
            forall|i: int|
                0 <= i < old(self)@.players.len() && (#[trigger] old(self)@.players[i]).0 == player@
                    ==> final(self)@.players == old(self)@.players.remove(i),
            !old(self)@.holds(player@) ==> final(self)@ == old(self)@,
            final(self)@.count() == old(self)@.count() - (if old(self)@.holds(player@) { 1int } else { 0int }),
            forall|t: Seq<char>| #[trigger] final(self)@.holds(t) <==> old(self)@.holds(t) && t != player@,
            forall|t: Seq<char>| #[trigger] final(self)@.holds(t) ==> final(self)@.symbol_of(t) == old(self)@.symbol_of(t),
    {
        let ghost ov = self@;
        let found = self.seat_index(player);
        proof {
            lemma_assoc_dom(ov.players, player@);
            if found is None {
                assert forall|i: int| 0 <= i < ov.players.len() implies #[trigger] ov.players[i].0 != player@ by {
                    assert(self.players@[i].0@ != player@);
                }
            }
        }
        if let Some(i) = found {
            proof {
                assert(ov.players[i as int].0 == player@);
                crate::assoc::lemma_assoc_remove(ov.players, i as int);
            }
            self.players.remove(i);
            assert(self@.players =~= ov.players.remove(i as int));
            assert forall|t: Seq<char>| #[trigger] self@.holds(t) <==> ov.holds(t) && t != player@ by {}
            assert forall|t: Seq<char>| #[trigger] self@.holds(t) implies self@.symbol_of(t) == ov.symbol_of(t) by {}
            assert forall|j: int|
                0 <= j < ov.players.len() && (#[trigger] ov.players[j]).0 == player@ implies self@.players == ov.players.remove(j) by {
                assert(j == i as int);
            }
        }
    }

    /// Whether any slot is occupied.
    pub fn has_players(&self) -> (r: bool)
        ensures
            r == (self@.count() > 0),
    {
        self.players.len() > 0
    }

    /// Number of occupants.
    pub fn player_count(&self) -> (r: u8)
        requires
            self@.wf(),
        ensures
            r == self@.count(),
    {
        self.players.len() as u8
    }
}

} // verus!
