//! The table of games: creating games, seating players and spectators, and
//! letting them leave.
use vstd::prelude::*;
use crate::models::{CreateGame, Game, GameView, Gaze, Player, PlayerView, Role};
use crate::text::{decimal, decimal_string, lemma_decimal_injective, trim, trim_str};

verus! {

broadcast use vstd::string::group_string_axioms;

pub const GAME_NOT_FOUND: &'static str = "Game not found";

pub const PLAYER_ALREADY_CONNECTED: &'static str = "Player is already connected";

pub const GAME_FULL: &'static str = "Game is full";

pub const GAME_IDS_EXHAUSTED: &'static str = "No game id is left";

/// The first position at or after `i` of a game with id `id`, or `games.len()`.
pub open spec fn find_game_from(games: Seq<GameView>, id: Seq<char>, i: int) -> int
    decreases games.len() - i,
{
    if 0 <= i < games.len() && games[i].id != id {
        find_game_from(games, id, i + 1)
    } else {
        i
    }
}

/// The position of the game with id `id`, or `games.len()` where there is none.
pub open spec fn find_game(games: Seq<GameView>, id: Seq<char>) -> int {
    find_game_from(games, id, 0)
}

/// Whether a game with id `id` exists.
pub open spec fn has_game(games: Seq<GameView>, id: Seq<char>) -> bool {
    find_game(games, id) < games.len()
}

pub proof fn lemma_find_game_from(games: Seq<GameView>, id: Seq<char>, i: int)
    requires
        0 <= i <= games.len(),
    ensures
        i <= find_game_from(games, id, i) <= games.len(),
        forall|k: int| i <= k < find_game_from(games, id, i) ==> (#[trigger] games[k]).id != id,
        find_game_from(games, id, i) < games.len() ==> games[find_game_from(games, id, i)].id
            == id,
    decreases games.len() - i,
{
    if i < games.len() && games[i].id != id {
        lemma_find_game_from(games, id, i + 1);
    }
}

/// `find_game` gives the first position of a game with id `id`, or the length.
pub proof fn lemma_find_game(games: Seq<GameView>, id: Seq<char>)
    ensures
        0 <= find_game(games, id) <= games.len(),
        forall|k: int| 0 <= k < find_game(games, id) ==> (#[trigger] games[k]).id != id,
        has_game(games, id) ==> games[find_game(games, id)].id == id,
        !has_game(games, id) ==> forall|k: int| 0 <= k < games.len() ==> (#[trigger] games[k]).id
            != id,
{
    lemma_find_game_from(games, id, 0);
}

/// A seat as it is when a game is created.
pub open spec fn new_player(seat: usize, chips: u32) -> PlayerView {
    PlayerView {
        seat,
        guest_id: None,
        connected: false,
        initial_chips: chips,
        current_chips: chips,
        gaze: Gaze::Opponent,
    }
}

/// A game as it is when it is created.
pub open spec fn new_game(id: Seq<char>, name: Seq<char>, deck_size: u32, chips: [u32; 2]) -> GameView {
    GameView {
        id,
        name,
        deck_size,
        remaining_cards: deck_size,
        players: seq![new_player(1, chips[0]), new_player(2, chips[1])],
        spectators: 0,
        pot: 0,
        history: Seq::empty(),
    }
}

/// What a guest who asks for a seat gets.
pub enum SeatChoice {
    /// The seat at this position (0 or 1).
    Seat(usize),
    /// The guest already sits at a seat and is connected there.
    AlreadyConnected,
    /// The guest has no seat and both seats are taken.
    Full,
}

/// A guest gets back the seat that it held before; else the first seat whose
/// player is not connected.
pub open spec fn seat_choice(players: Seq<PlayerView>, guest: Seq<char>) -> SeatChoice {
    if players[0].guest_id == Some(guest) {
        if players[0].connected {
            SeatChoice::AlreadyConnected
        } else {
            SeatChoice::Seat(0)
        }
    } else if players[1].guest_id == Some(guest) {
        if players[1].connected {
            SeatChoice::AlreadyConnected
        } else {
            SeatChoice::Seat(1)
        }
    } else if !players[0].connected {
        SeatChoice::Seat(0)
    } else if !players[1].connected {
        SeatChoice::Seat(1)
    } else {
        SeatChoice::Full
    }
}

/// `game` once `guest` has taken and connected to the seat at position `k`.
pub open spec fn take_seat(game: GameView, k: int, guest: Seq<char>) -> GameView {
    GameView {
        players: game.players.update(
            k,
            PlayerView { guest_id: Some(guest), connected: true, ..game.players[k] },
        ),
        ..game
    }
}

/// `game` once the player of the seat at position `k` has disconnected.
pub open spec fn vacate_seat(game: GameView, k: int) -> GameView {
    GameView {
        players: game.players.update(k, PlayerView { connected: false, ..game.players[k] }),
        ..game
    }
}

/// `game` once a spectator has left; the count does not go below zero.
pub open spec fn spectator_left(game: GameView) -> GameView {
    GameView { spectators: if game.spectators > 0 { (game.spectators - 1) as usize } else { 0 }, ..game }
}

/// `game` once a spectator has joined.
pub open spec fn spectator_joined(game: GameView) -> GameView {
    GameView { spectators: (game.spectators + 1) as usize, ..game }
}

/// The table and the outcome once `guest` asks for a seat in game `id`: the
/// seat number on success, else the refusal's message.
pub open spec fn join_player_result(games: Seq<GameView>, id: Seq<char>, guest: Seq<char>) -> (
    Seq<GameView>,
    Result<usize, &'static str>,
) {
    let i = find_game(games, id);
    if i >= games.len() {
        (games, Err(GAME_NOT_FOUND))
    } else {
        match seat_choice(games[i].players, guest) {
            SeatChoice::Seat(k) => (
                games.update(i, take_seat(games[i], k as int, guest)),
                Ok((k + 1) as usize),
            ),
            SeatChoice::AlreadyConnected => (games, Err(PLAYER_ALREADY_CONNECTED)),
            SeatChoice::Full => (games, Err(GAME_FULL)),
        }
    }
}

/// The table once a spectator joins game `id` (unchanged where there is none).
pub open spec fn join_spectator_result(games: Seq<GameView>, id: Seq<char>) -> Seq<GameView> {
    let i = find_game(games, id);
    if i >= games.len() {
        games
    } else {
        games.update(i, spectator_joined(games[i]))
    }
}

/// The table once the connection at `seat` (a spectator where `None`) leaves
/// game `id` (unchanged where there is none).
pub open spec fn leave_result(games: Seq<GameView>, id: Seq<char>, seat: Option<usize>) -> Seq<
    GameView,
> {
    let i = find_game(games, id);
    if i >= games.len() {
        games
    } else {
        match seat {
            Some(s) => games.update(i, vacate_seat(games[i], s - 1)),
            None => games.update(i, spectator_left(games[i])),
        }
    }
}

/// Seats are numbered 1 and 2, and no guest holds both.
pub open spec fn game_well_formed(game: GameView) -> bool {
    &&& game.players.len() == 2
    &&& game.players[0].seat == 1
    &&& game.players[1].seat == 2
    &&& !(game.players[0].guest_id is Some && game.players[0].guest_id == game.players[1].guest_id)
}

/// What holds of the table in every state: ids are distinct and every game is
/// well formed.
pub open spec fn table_invariant(games: Seq<GameView>) -> bool {
    &&& forall|i: int, j: int|
        0 <= i < j < games.len() ==> (#[trigger] games[i]).id != (#[trigger] games[j]).id
    &&& forall|i: int| 0 <= i < games.len() ==> game_well_formed(#[trigger] games[i])
}

/// The process-wide source of game ids. The server makes one and hands it to
/// every [`GameService::create_game`]; each id it issues is the decimal
/// notation of its number, which then moves on, so no id comes twice.
pub struct GameIdSource {
    next: u64,
}

impl View for GameIdSource {
    type V = u64;

    /// The number of the next id to issue.
    closed spec fn view(&self) -> u64 {
        self.next
    }
}

impl GameIdSource {
    /// A source whose first id is `1`.
    pub fn new() -> (r: Self)
        ensures
            r@ == 1,
    {
        GameIdSource { next: 1 }
    }
}

/// Ids taken from one source never repeat: the source only moves forward
/// (see [`GameService::create_game`]), and distinct numbers have distinct
/// decimal notations.
pub proof fn law_ids_from_one_source_never_repeat(earlier: u64, later: u64)
    requires
        earlier < later,
    ensures
        decimal(earlier as nat) != decimal(later as nat),
{
    if decimal(earlier as nat) == decimal(later as nat) {
        lemma_decimal_injective(earlier as nat, later as nat);
    }
}

/// The games of the server, held in the order in which they were created.
pub struct GameService {
    games: Vec<Game>,
    issued: Ghost<Seq<nat>>,
}

impl View for GameService {
    type V = Seq<GameView>;

    closed spec fn view(&self) -> Seq<GameView> {
        self.games@.map_values(|g: Game| g@)
    }
}

impl GameService {
    /// Every id of the table was issued from a number below `n`.
    pub closed spec fn issued_below(&self, n: nat) -> bool {
        forall|i: int| 0 <= i < self.issued@.len() ==> #[trigger] self.issued@[i] < n
    }

    /// The service's internal invariant.
    pub closed spec fn wf(&self) -> bool {
        &&& self.issued@.len() == self.games@.len()
        &&& forall|i: int|
            0 <= i < self.games@.len() ==> self.games@[i].id@ == decimal(
                #[trigger] self.issued@[i],
            )
        &&& forall|i: int, j: int|
            0 <= i < j < self.games@.len() ==> #[trigger] self.issued@[i]
                < #[trigger] self.issued@[j]
        &&& forall|i: int| 0 <= i < self.games@.len() ==> game_well_formed(#[trigger] self.games@[i]@)
    }

    /// Whatever the table went through, ids are distinct and games well formed.
    pub proof fn lemma_table_invariant(&self)
        requires
            self.wf(),
        ensures
            table_invariant(self@),
    {
        assert forall|i: int, j: int| 0 <= i < j < self@.len() implies (#[trigger] self@[i]).id
            != (#[trigger] self@[j]).id by {
            assert(self.issued@[i] < self.issued@[j]);
            if self@[i].id == self@[j].id {
                lemma_decimal_injective(self.issued@[i], self.issued@[j]);
            }
        }
        assert forall|i: int| 0 <= i < self@.len() implies game_well_formed(#[trigger] self@[i]) by {
            assert(game_well_formed(self.games@[i]@));
        }
    }

    /// A table whose ids were all issued below `a` has them all below any
    /// later number of the source.
    pub proof fn lemma_issued_below_grows(&self, a: nat, b: nat)
        requires
            self.issued_below(a),
            a <= b,
        ensures
            self.issued_below(b),
    {
    }

    /// An empty table.
    pub fn new() -> (r: Self)
        ensures
            r.wf(),
            r@ == Seq::<GameView>::empty(),
            forall|n: nat| #[trigger] r.issued_below(n),
    {
        let r = GameService { games: Vec::new(), issued: Ghost(Seq::empty()) };
        assert(r@ =~= Seq::<GameView>::empty());
        r
    }

    fn position(&self, id: &str) -> (i: usize)
        ensures
            i == find_game(self@, id@),
            i <= self.games@.len(),
            self@.len() == self.games@.len(),
    {
        proof {
            lemma_find_game(self@, id@);
        }
        let key = id.to_string();
        let mut i: usize = 0;
        while i < self.games.len() && !(self.games[i].id == key)
            invariant
                0 <= i <= self.games@.len(),
                key@ == id@,
                find_game(self@, id@) == find_game_from(self@, id@, i as int),
            decreases self.games@.len() - i,
        {
            assert(self@[i as int] == self.games@[i as int]@);
            i = i + 1;
        }
        if i < self.games.len() {
            assert(self@[i as int] == self.games@[i as int]@);
        }
        i
    }

    /// Whether a game with id `id` exists.
    pub fn game_exists(&self, id: &str) -> (r: bool)
        ensures
            r == has_game(self@, id@),
    {
        self.position(id) < self.games.len()
    }

    /// Opens a game named by `input.name` with its surrounding whitespace
    /// removed, under the next id of `ids`, which then moves on. Fails only once
    /// the source has no id left.
    pub fn create_game(&mut self, ids: &mut GameIdSource, input: CreateGame) -> (r: Result<
        Game,
        &'static str,
    >)
        requires
            old(self).wf(),
            old(self).issued_below(old(ids)@ as nat),
        ensures
            final(self).wf(),
            final(self).issued_below(final(ids)@ as nat),
            old(ids)@ < u64::MAX ==> (r matches Ok(g) && g@ == new_game(
                decimal(old(ids)@ as nat),
                trim(input.name@),
                input.deck_size,
                input.initial_chips,
            ) && final(self)@ == old(self)@.push(g@) && final(ids)@ == old(ids)@ + 1
                && !has_game(old(self)@, g@.id)),
            old(ids)@ == u64::MAX ==> {
                &&& r == Err::<Game, &'static str>(GAME_IDS_EXHAUSTED)
                &&& final(self)@ == old(self)@
                &&& final(ids)@ == old(ids)@
            },
    {
        if ids.next == u64::MAX {
            return Err(GAME_IDS_EXHAUSTED);
        }
        let name = trim_str(input.name.as_str());
        let number = ids.next;
        let id = decimal_string(number);
        let game = Game {
            id,
            name,
            deck_size: input.deck_size,
            remaining_cards: input.deck_size,
            players: [
                Player {
                    seat: 1,
                    guest_id: None,
                    connected: false,
                    initial_chips: input.initial_chips[0],
                    current_chips: input.initial_chips[0],
                    gaze: Gaze::Opponent,
                },
                Player {
                    seat: 2,
                    guest_id: None,
                    connected: false,
                    initial_chips: input.initial_chips[1],
                    current_chips: input.initial_chips[1],
                    gaze: Gaze::Opponent,
                },
            ],
            spectators: 0,
            pot: 0,
            history: Vec::new(),
        };
        proof {
            assert(game@.players =~= new_game(
                decimal(number as nat),
                trim(input.name@),
                input.deck_size,
                input.initial_chips,
            ).players);
            assert(game@.history =~= Seq::<Seq<char>>::empty());
            // The new id differs from every id issued before.
            assert forall|k: int| 0 <= k < self@.len() implies (#[trigger] self@[k]).id
                != game@.id by {
                assert(self@[k] == self.games@[k]@);
                assert(self.issued@[k] < number);
                if self@[k].id == game@.id {
                    lemma_decimal_injective(self.issued@[k], number as nat);
                }
            }
            lemma_find_game(self@, game@.id);
        }
        let snapshot = game.clone();
        let ghost old_view = self@;
        self.games.push(game);
        ids.next = number + 1;
        self.issued = Ghost(self.issued@.push(number as nat));
        proof {
            assert(self.issued@[self.issued@.len() - 1] == number as nat);
            assert forall|k: int| 0 <= k < self.issued@.len() - 1 implies #[trigger] self.issued@[k]
                < number by {
                assert(self.issued@[k] == old(self).issued@[k]);
            }
            assert(self@ =~= old_view.push(snapshot@));
        }
        Ok(snapshot)
    }

    /// A copy of the game with id `id`.
    pub fn get_game(&self, id: &str) -> (r: Result<Game, &'static str>)
        ensures
            has_game(self@, id@) ==> (r matches Ok(g) && g@ == self@[find_game(self@, id@)]),
            !has_game(self@, id@) ==> r == Err::<Game, &'static str>(GAME_NOT_FOUND),
    {
        let i = self.position(id);
        if i < self.games.len() {
            Ok(self.games[i].clone())
        } else {
            Err(GAME_NOT_FOUND)
        }
    }

    /// A copy of every game, in the order of their creation.
    pub fn list_games(&self) -> (r: Vec<Game>)
        ensures
            r@.map_values(|g: Game| g@) == self@,
    {
        let mut r: Vec<Game> = Vec::new();
        let mut i: usize = 0;
        while i < self.games.len()
            invariant
                i <= self.games@.len(),
                r@.len() == i,
                forall|k: int| 0 <= k < i ==> (#[trigger] r@[k])@ == self.games@[k]@,
            decreases self.games@.len() - i,
        {
            r.push(self.games[i].clone());
            i = i + 1;
        }
        assert(r@.map_values(|g: Game| g@) =~= self@);
        r
    }
    fn holds_guest(p: &Player, guest: &String) -> (r: bool)
        ensures
            r == (p@.guest_id == Some(guest@)),
    {
        match &p.guest_id {
            Some(x) => *x == *guest,
            None => false,
        }
    }

    /// Seats `guest_id` in game `id`: in the seat that it held before, else in
    /// the first seat whose player is not connected. Returns the seat number
    /// and a copy of the game.
    pub fn join_player(&mut self, id: &str, guest_id: &str) -> (r: Result<(usize, Game), &'static str>)
        requires
            old(self).wf(),
        ensures
            final(self).wf(),
            forall|n: nat| #[trigger] final(self).issued_below(n) == old(self).issued_below(n),
            final(self)@ == join_player_result(old(self)@, id@, guest_id@).0,
            match join_player_result(old(self)@, id@, guest_id@).1 {
                Ok(seat) => r matches Ok((s, g)) && s == seat && g@ == final(self)@[find_game(
                    old(self)@,
                    id@,
                )],
                Err(m) => r == Err::<(usize, Game), &'static str>(m),
            },
    {
        let i = self.position(id);
        if i == self.games.len() {
            return Err(GAME_NOT_FOUND);
        }
        let guest = guest_id.to_string();
        let ghost old_view = self@;
        proof {
            lemma_find_game(self@, id@);
            assert(self@[i as int] == self.games@[i as int]@);
            assert(game_well_formed(self.games@[i as int]@));
        }
        let k: usize = if Self::holds_guest(&self.games[i].players[0], &guest) {
            if self.games[i].players[0].connected {
                return Err(PLAYER_ALREADY_CONNECTED);
            }
            0
        } else if Self::holds_guest(&self.games[i].players[1], &guest) {
            if self.games[i].players[1].connected {
                return Err(PLAYER_ALREADY_CONNECTED);
            }
            1
        } else if !self.games[i].players[0].connected {
            0
        } else if !self.games[i].players[1].connected {
            1
        } else {
            return Err(GAME_FULL);
        };
        {
            let game = &mut self.games[i];
            game.players[k].guest_id = Some(guest);
            game.players[k].connected = true;
        }
        let seat = self.games[i].players[k].seat;
        let snapshot = self.games[i].clone();
        proof {
            let after = take_seat(old_view[i as int], k as int, guest_id@);
            assert(self.games@[i as int]@.players =~= after.players);
            assert(self@ =~= old_view.update(i as int, after));
            assert forall|j: int| 0 <= j < self.games@.len() implies game_well_formed(
                #[trigger] self.games@[j]@,
            ) by {
                if j != i {
                    assert(self.games@[j] == old(self).games@[j]);
                }
            }
        }
        Ok((seat, snapshot))
    }

    /// Counts one more spectator of game `id`. Returns a copy of the game.
    pub fn join_spectator(&mut self, id: &str) -> (r: Result<Game, &'static str>)
        requires
            old(self).wf(),
            has_game(old(self)@, id@) ==> old(self)@[find_game(old(self)@, id@)].spectators
                < usize::MAX,
        ensures
            final(self).wf(),
            forall|n: nat| #[trigger] final(self).issued_below(n) == old(self).issued_below(n),
            final(self)@ == join_spectator_result(old(self)@, id@),
            has_game(old(self)@, id@) ==> (r matches Ok(g) && g@ == final(self)@[find_game(
                old(self)@,
                id@,
            )]),
            !has_game(old(self)@, id@) ==> r == Err::<Game, &'static str>(GAME_NOT_FOUND),
    {
        let i = self.position(id);
        if i == self.games.len() {
            return Err(GAME_NOT_FOUND);
        }
        let ghost old_view = self@;
        proof {
            assert(self@[i as int] == self.games@[i as int]@);
        }
        {
            let game = &mut self.games[i];
            game.spectators = game.spectators + 1;
        }
        let snapshot = self.games[i].clone();
        proof {
            let after = spectator_joined(old_view[i as int]);
            assert(self.games@[i as int]@.players =~= after.players);
            assert(self@ =~= old_view.update(i as int, after));
            assert forall|j: int| 0 <= j < self.games@.len() implies game_well_formed(
                #[trigger] self.games@[j]@,
            ) by {
                if j != i {
                    assert(self.games@[j] == old(self).games@[j]);
                } else {
                    assert(game_well_formed(old(self).games@[j]@));
                }
            }
        }
        Ok(snapshot)
    }

    /// Ends a connection to game `id`: the seat `seat` is marked disconnected
    /// (its guest keeps it), or, for a spectator, the count drops by one unless
    /// it is zero. Returns a copy of the game, or `None` where there is none.
    pub fn leave_connection(&mut self, id: &str, seat: Option<usize>) -> (r: Option<Game>)
        requires
            old(self).wf(),
            has_game(old(self)@, id@) ==> (seat matches Some(s) ==> 1 <= s <= 2),
        ensures
            final(self).wf(),
            forall|n: nat| #[trigger] final(self).issued_below(n) == old(self).issued_below(n),
            final(self)@ == leave_result(old(self)@, id@, seat),
            has_game(old(self)@, id@) ==> (r matches Some(g) && g@ == final(self)@[find_game(
                old(self)@,
                id@,
            )]),
            !has_game(old(self)@, id@) ==> r is None,
    {
        let i = self.position(id);
        if i == self.games.len() {
            return None;
        }
        let ghost old_view = self@;
        proof {
            assert(self@[i as int] == self.games@[i as int]@);
        }
        {
            let game = &mut self.games[i];
            match seat {
                Some(s) => {
                    game.players[s - 1].connected = false;
                },
                None => {
                    game.spectators = game.spectators.saturating_sub(1);
                },
            }
        }
        let snapshot = self.games[i].clone();
        proof {
            let after = match seat {
                Some(s) => vacate_seat(old_view[i as int], s - 1),
                None => spectator_left(old_view[i as int]),
            };
            assert(self.games@[i as int]@.players =~= after.players);
            assert(self@ =~= old_view.update(i as int, after));
            assert forall|j: int| 0 <= j < self.games@.len() implies game_well_formed(
                #[trigger] self.games@[j]@,
            ) by {
                if j != i {
                    assert(self.games@[j] == old(self).games@[j]);
                } else {
                    assert(game_well_formed(old(self).games@[j]@));
                }
            }
        }
        assert(self.issued == old(self).issued);
        Some(snapshot)
    }

    /// Admits a connection to game `id` in `role`: a player takes a seat as
    /// [`GameService::join_player`] does, a spectator is counted. Returns the seat
    /// (`None` for a spectator) and a copy of the game.
    pub fn admit_connection(&mut self, id: &str, role: Role, guest_id: &str) -> (r: Result<
        (Option<usize>, Game),
        &'static str,
    >)
        requires
            old(self).wf(),
            role == Role::Spectator && has_game(old(self)@, id@) ==> old(self)@[find_game(
                old(self)@,
                id@,
            )].spectators < usize::MAX,
        ensures
            final(self).wf(),
            forall|n: nat| #[trigger] final(self).issued_below(n) == old(self).issued_below(n),
            role == Role::Player ==> {
                &&& final(self)@ == join_player_result(old(self)@, id@, guest_id@).0
                &&& match join_player_result(old(self)@, id@, guest_id@).1 {
                    Ok(seat) => r matches Ok((s, g)) && s == Some(seat) && g@ == final(self)@[find_game(old(self)@, id@)],
                    Err(m) => r == Err::<(Option<usize>, Game), &'static str>(m),
                }
            },
            role == Role::Spectator ==> {
                &&& final(self)@ == join_spectator_result(old(self)@, id@)
                &&& has_game(old(self)@, id@) ==> (r matches Ok((s, g)) && s is None && g@
                    == final(self)@[find_game(old(self)@, id@)])
                &&& !has_game(old(self)@, id@) ==> r == Err::<(Option<usize>, Game), &'static str>(
                    GAME_NOT_FOUND,
                )
            },
    {
        match role {
            Role::Player => match self.join_player(id, guest_id) {
                Ok((seat, game)) => Ok((Some(seat), game)),
                Err(message) => Err(message),
            },
            Role::Spectator => match self.join_spectator(id) {
                Ok(game) => Ok((None, game)),
                Err(message) => Err(message),
            },
        }
    }
}

proof fn lemma_find_game_from_update(
    games: Seq<GameView>,
    i: int,
    x: GameView,
    id: Seq<char>,
    k: int,
)
    requires
        0 <= i < games.len(),
        0 <= k <= games.len(),
        x.id == games[i].id,
    ensures
        find_game_from(games.update(i, x), id, k) == find_game_from(games, id, k),
    decreases games.len() - k,
{
    if k < games.len() {
        lemma_find_game_from_update(games, i, x, id, k + 1);
    }
}

/// Replacing a game by one with the same id moves no game.
pub proof fn lemma_find_game_update(games: Seq<GameView>, i: int, x: GameView, id: Seq<char>)
    requires
        0 <= i < games.len(),
        x.id == games[i].id,
    ensures
        find_game(games.update(i, x), id) == find_game(games, id),
{
    lemma_find_game_from_update(games, i, x, id, 0);
}

/// A game just added to the table is found under its id, as it was added.
pub proof fn law_created_game_is_found(before: Seq<GameView>, game: GameView)
    requires
        !has_game(before, game.id),
    ensures
        has_game(before.push(game), game.id),
        before.push(game)[find_game(before.push(game), game.id)] == game,
{
    let after = before.push(game);
    lemma_find_game(before, game.id);
    lemma_find_game(after, game.id);
    assert forall|k: int| 0 <= k < before.len() implies after[k].id != game.id by {
        assert(after[k] == before[k]);
    }
    assert(after[before.len() as int] == game);
    if find_game(after, game.id) < before.len() {
        assert(after[find_game(after, game.id)].id == game.id);
    }
    assert(find_game(after, game.id) == before.len());
}

/// Two games created one after the other get different ids.
pub proof fn law_successive_games_have_distinct_ids(
    before: Seq<GameView>,
    first: GameView,
    second: GameView,
)
    requires
        !has_game(before.push(first), second.id),
    ensures
        first.id != second.id,
{
    let after = before.push(first);
    lemma_find_game(after, second.id);
    assert(after[before.len() as int] == first);
}

/// A guest who leaves its seat and asks again gets the same seat back, and
/// the table is as it was after the first join.
pub proof fn law_rejoin_gets_same_seat(games: Seq<GameView>, id: Seq<char>, guest: Seq<char>)
    requires
        table_invariant(games),
        join_player_result(games, id, guest).1 is Ok,
    ensures
        ({
            let (joined, seat) = join_player_result(games, id, guest);
            let left = leave_result(joined, id, Some(seat->Ok_0));
            &&& 1 <= seat->Ok_0 <= 2
            &&& join_player_result(left, id, guest) == (joined, seat)
        }),
{
    let i = find_game(games, id);
    lemma_find_game(games, id);
    let g = games[i];
    assert(game_well_formed(g));
    let (joined, seat) = join_player_result(games, id, guest);
    let k = match seat_choice(g.players, guest) {
        SeatChoice::Seat(k) => k as int,
        _ => 0,
    };
    let g1 = take_seat(g, k, guest);
    lemma_find_game_update(games, i, g1, id);
    let g2 = vacate_seat(g1, k);
    lemma_find_game_update(joined, i, g2, id);
    let left = joined.update(i, g2);
    assert(left[i] == g2);
    assert(seat_choice(g2.players, guest) == SeatChoice::Seat(k as usize));
    let g3 = take_seat(g2, k, guest);
    assert(g3.players =~= g1.players);
    assert(g3 == g1);
    assert(left.update(i, g3) =~= joined);
}

/// A guest that is seated and connected is refused a second seat, and the
/// table does not change.
pub proof fn law_connected_guest_is_refused(games: Seq<GameView>, id: Seq<char>, guest: Seq<char>)
    requires
        table_invariant(games),
        join_player_result(games, id, guest).1 is Ok,
    ensures
        ({
            let joined = join_player_result(games, id, guest).0;
            join_player_result(joined, id, guest) == (joined, Err::<usize, &'static str>(
                PLAYER_ALREADY_CONNECTED,
            ))
        }),
{
    let i = find_game(games, id);
    lemma_find_game(games, id);
    let g = games[i];
    assert(game_well_formed(g));
    let k = match seat_choice(g.players, guest) {
        SeatChoice::Seat(k) => k as int,
        _ => 0,
    };
    let g1 = take_seat(g, k, guest);
    lemma_find_game_update(games, i, g1, id);
    let joined = games.update(i, g1);
    assert(joined[i] == g1);
    assert(seat_choice(g1.players, guest) == SeatChoice::AlreadyConnected);
}

/// A spectator who joins and then leaves leaves the table as it was.
pub proof fn law_spectator_round_trip(games: Seq<GameView>, id: Seq<char>)
    requires
        has_game(games, id) ==> games[find_game(games, id)].spectators < usize::MAX,
    ensures
        leave_result(join_spectator_result(games, id), id, None) == games,
{
    lemma_find_game(games, id);
    let i = find_game(games, id);
    if i < games.len() {
        let g1 = spectator_joined(games[i]);
        lemma_find_game_update(games, i, g1, id);
        let joined = games.update(i, g1);
        assert(joined[i] == g1);
        let g2 = spectator_left(g1);
        assert(g2 == games[i]);
        assert(joined.update(i, g2) =~= games);
    }
}

/// A guest that holds no seat in game `id` takes the first seat whose player
/// is not connected, and only that seat changes: it now holds the guest,
/// connected. The guest is refused with "Game is full" exactly when both
/// seats are connected, and then the table does not change.
pub proof fn law_new_guest_takes_first_free_seat(games: Seq<GameView>, id: Seq<char>, guest: Seq<char>)
    requires
        table_invariant(games),
        has_game(games, id),
        games[find_game(games, id)].players[0].guest_id != Some(guest),
        games[find_game(games, id)].players[1].guest_id != Some(guest),
    ensures
        ({
            let i = find_game(games, id);
            let p = games[i].players;
            let (after, res) = join_player_result(games, id, guest);
            &&& !p[0].connected ==> {
                &&& res == Ok::<usize, &'static str>(1)
                &&& after.len() == games.len()
                &&& after[i].players[0].guest_id == Some(guest)
                &&& after[i].players[0].connected
                &&& after[i].players[0].seat == p[0].seat
                &&& after[i].players[1] == p[1]
                &&& after[i].id == games[i].id
                &&& forall|j: int| 0 <= j < games.len() && j != i ==> after[j] == games[j]
            }
            &&& p[0].connected && !p[1].connected ==> {
                &&& res == Ok::<usize, &'static str>(2)
                &&& after.len() == games.len()
                &&& after[i].players[1].guest_id == Some(guest)
                &&& after[i].players[1].connected
                &&& after[i].players[0] == p[0]
                &&& forall|j: int| 0 <= j < games.len() && j != i ==> after[j] == games[j]
            }
            &&& (res == Err::<usize, &'static str>(GAME_FULL)) <==> (p[0].connected
                && p[1].connected)
            &&& res is Err ==> after == games
        }),
{
    lemma_find_game(games, id);
    let i = find_game(games, id);
    assert(game_well_formed(games[i]));
}

/// A guest that holds a seat of game `id` is given that seat back when it is
/// not connected there, and refused as already connected when it is; it never
/// takes the other seat and is never told that the game is full.
pub proof fn law_seated_guest_gets_its_own_seat(
    games: Seq<GameView>,
    id: Seq<char>,
    guest: Seq<char>,
    k: int,
)
    requires
        table_invariant(games),
        has_game(games, id),
        0 <= k < 2,
        games[find_game(games, id)].players[k].guest_id == Some(guest),
    ensures
        ({
            let i = find_game(games, id);
            let p = games[i].players;
            let (after, res) = join_player_result(games, id, guest);
            &&& !p[k].connected ==> {
                &&& res == Ok::<usize, &'static str>((k + 1) as usize)
                &&& after[i].players[k].connected
                &&& after[i].players[k].guest_id == Some(guest)
                &&& after[i].players[1 - k] == p[1 - k]
            }
            &&& p[k].connected ==> res == Err::<usize, &'static str>(PLAYER_ALREADY_CONNECTED)
                && after == games
        }),
{
    lemma_find_game(games, id);
    let i = find_game(games, id);
    assert(game_well_formed(games[i]));
}

} // verus!
