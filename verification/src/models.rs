//! The game records that the server keeps and sends to its clients.
use vstd::prelude::*;

verus! {

/// Where a seated player is looking.
#[derive(Clone, Copy, PartialEq, Eq, Debug)]
pub enum Gaze {
    Opponent,
}

/// One of the two seats of a game.
#[derive(Debug)]
pub struct Player {
    /// The seat number, 1 or 2.
    pub seat: usize,
    /// The guest who last took this seat.
    pub guest_id: Option<String>,
    /// Whether that guest is connected right now.
    pub connected: bool,
    pub initial_chips: u32,
    pub current_chips: u32,
    pub gaze: Gaze,
}

/// The mathematical model of a [`Player`].
pub struct PlayerView {
    pub seat: usize,
    pub guest_id: Option<Seq<char>>,
    pub connected: bool,
    pub initial_chips: u32,
    pub current_chips: u32,
    pub gaze: Gaze,
}

pub open spec fn opt_string_view(s: Option<String>) -> Option<Seq<char>> {
    match s {
        Some(t) => Some(t@),
        None => None,
    }
}

impl View for Player {
    type V = PlayerView;

    open spec fn view(&self) -> PlayerView {
        PlayerView {
            seat: self.seat,
            guest_id: opt_string_view(self.guest_id),
            connected: self.connected,
            initial_chips: self.initial_chips,
            current_chips: self.current_chips,
            gaze: self.gaze,
        }
    }
}

impl Clone for Player {
    fn clone(&self) -> (r: Self)
        ensures
            r@ == self@,
    {
        Player {
            seat: self.seat,
            guest_id: match &self.guest_id {
                Some(g) => Some(g.clone()),
                None => None,
            },
            connected: self.connected,
            initial_chips: self.initial_chips,
            current_chips: self.current_chips,
            gaze: self.gaze,
        }
    }
}

/// A table of two seats and its spectators.
#[derive(Debug)]
pub struct Game {
    pub id: String,
    pub name: String,
    pub deck_size: u32,
    pub remaining_cards: u32,
    pub players: [Player; 2],
    pub spectators: usize,
    pub pot: u32,
    pub history: Vec<String>,
}

/// The mathematical model of a [`Game`].
pub struct GameView {
    pub id: Seq<char>,
    pub name: Seq<char>,
    pub deck_size: u32,
    pub remaining_cards: u32,
    pub players: Seq<PlayerView>,
    pub spectators: usize,
    pub pot: u32,
    pub history: Seq<Seq<char>>,
}

pub open spec fn strings_view(v: Seq<String>) -> Seq<Seq<char>> {
    v.map_values(|s: String| s@)
}

impl View for Game {
    type V = GameView;

    open spec fn view(&self) -> GameView {
        GameView {
            id: self.id@,
            name: self.name@,
            deck_size: self.deck_size,
            remaining_cards: self.remaining_cards,
            players: seq![self.players[0]@, self.players[1]@],
            spectators: self.spectators,
            pot: self.pot,
            history: strings_view(self.history@),
        }
    }
}

/// A copy of each string of `v`.
fn clone_strings(v: &Vec<String>) -> (r: Vec<String>)
    ensures
        strings_view(r@) == strings_view(v@),
{
    let mut r: Vec<String> = Vec::new();
    let mut i: usize = 0;
    while i < v.len()
        invariant
            i <= v@.len(),
            r@.len() == i,
            forall|k: int| 0 <= k < i ==> (#[trigger] r@[k])@ == v@[k]@,
        decreases v@.len() - i,
    {
        r.push(v[i].clone());
        i = i + 1;
    }
    assert(strings_view(r@) =~= strings_view(v@));
    r
}

impl Clone for Game {
    fn clone(&self) -> (r: Self)
        ensures
            r@ == self@,
    {
        let p0 = self.players[0].clone();
        let p1 = self.players[1].clone();
        let r = Game {
            id: self.id.clone(),
            name: self.name.clone(),
            deck_size: self.deck_size,
            remaining_cards: self.remaining_cards,
            players: [p0, p1],
            spectators: self.spectators,
            pot: self.pot,
            history: clone_strings(&self.history),
        };
        assert(r@.players =~= self@.players);
        r
    }
}

/// What a client sends to open a new game.
#[derive(Debug)]
pub struct CreateGame {
    pub name: String,
    pub deck_size: u32,
    pub initial_chips: [u32; 2],
}

/// How a connection takes part in a game.
#[derive(Clone, Copy, PartialEq, Eq, Debug)]
pub enum Role {
    Player,
    Spectator,
}

/// A message that the server sends over a game's websocket.
#[derive(Debug)]
pub enum ServerEvent {
    Joined { role: Role, seat: Option<usize>, game: Game },
    GameUpdated { game: Game },
    Error { message: &'static str },
}

} // verus!
