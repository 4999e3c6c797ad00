//! What the HTTP endpoints decide: which requests are refused, with which
//! status and message, and what the accepted ones do to the table.
use vstd::prelude::*;
use crate::models::{CreateGame, Game};
use crate::service::{find_game, has_game, new_game, GameIdSource, GameService, GAME_NOT_FOUND};
use crate::session::{
    cookie_value, opt_str_view, session_profile_from_cookie, GuestProfile, GuestProfiles,
    SESSION_COOKIE_NAME, SESSION_EXPIRED, SESSION_REQUIRED, UNAUTHORIZED,
};
use crate::text::{char_count, decimal, trim, trim_str};

verus! {

/// HTTP status 400.
pub const BAD_REQUEST: u16 = 400;

/// HTTP status 404.
pub const NOT_FOUND: u16 = 404;

/// HTTP status 500.
pub const INTERNAL_SERVER_ERROR: u16 = 500;

/// The longest game name, in characters.
pub const MAX_GAME_NAME_LENGTH: usize = 40;

pub const INVALID_GAME_NAME: &'static str = "Invalid game name";

pub const INVALID_DECK_SIZE: &'static str = "Deck size must be a positive multiple of 10";

pub const INVALID_INITIAL_CHIPS: &'static str = "Initial chips must be greater than zero";

pub const INTERNAL_ERROR: &'static str = "Internal server error";

/// Why a request to create a game is refused, checked in this order: a name
/// that is empty or longer than [`MAX_GAME_NAME_LENGTH`] once trimmed; a deck
/// size that is not a positive multiple of 10; a seat with no chips.
pub open spec fn create_game_refusal(input: CreateGame) -> Option<&'static str> {
    let name = trim(input.name@);
    if name.len() == 0 || name.len() > MAX_GAME_NAME_LENGTH {
        Some(INVALID_GAME_NAME)
    } else if input.deck_size == 0 || input.deck_size % 10 != 0 {
        Some(INVALID_DECK_SIZE)
    } else if input.initial_chips[0] == 0 || input.initial_chips[1] == 0 {
        Some(INVALID_INITIAL_CHIPS)
    } else {
        None
    }
}

/// Checks a request to create a game; see [`create_game_refusal`].
pub fn validate_create_game(input: &CreateGame) -> (r: Result<(), &'static str>)
    ensures
        match create_game_refusal(*input) {
            Some(m) => r == Err::<(), &'static str>(m),
            None => r is Ok,
        },
{
    let name = trim_str(input.name.as_str());
    let n = char_count(name.as_str());
    if n == 0 || n > MAX_GAME_NAME_LENGTH {
        return Err(INVALID_GAME_NAME);
    }
    if input.deck_size == 0 || input.deck_size % 10 != 0 {
        return Err(INVALID_DECK_SIZE);
    }
    if input.initial_chips[0] == 0 || input.initial_chips[1] == 0 {
        return Err(INVALID_INITIAL_CHIPS);
    }
    Ok(())
}

/// Handles a request to create a game: a refused request gets status 400
/// and leaves the table and the id source alone; an accepted one opens the
/// game under the next id of `ids`, or gets status 500 where no id is left.
pub fn create_game(service: &mut GameService, ids: &mut GameIdSource, input: CreateGame) -> (r:
    Result<Game, (u16, &'static str)>)
    requires
        old(service).wf(),
        old(service).issued_below(old(ids)@ as nat),
    ensures
        final(service).wf(),
        final(service).issued_below(final(ids)@ as nat),
        match create_game_refusal(input) {
            Some(m) => {
                &&& r == Err::<Game, (u16, &'static str)>((BAD_REQUEST, m))
                &&& final(service)@ == old(service)@
                &&& final(ids)@ == old(ids)@
            },
            None => {
                &&& old(ids)@ < u64::MAX ==> (r matches Ok(g) && g@ == new_game(
                    decimal(old(ids)@ as nat),
                    trim(input.name@),
                    input.deck_size,
                    input.initial_chips,
                ) && final(service)@ == old(service)@.push(g@) && final(ids)@ == old(ids)@ + 1)
                &&& old(ids)@ == u64::MAX ==> {
                    &&& r == Err::<Game, (u16, &'static str)>((INTERNAL_SERVER_ERROR, INTERNAL_ERROR))
                    &&& final(service)@ == old(service)@
                    &&& final(ids)@ == old(ids)@
                }
            },
        },
{
    match validate_create_game(&input) {
        Err(m) => {
            return Err((BAD_REQUEST, m));
        },
        Ok(()) => {},
    }
    match service.create_game(ids, input) {
        Ok(game) => Ok(game),
        Err(_) => Err((INTERNAL_SERVER_ERROR, INTERNAL_ERROR)),
    }
}

/// Handles a request for one game: a copy of it, or status 404.
pub fn get_game_info(service: &GameService, id: &str) -> (r: Result<Game, (u16, &'static str)>)
    ensures
        has_game(service@, id@) ==> (r matches Ok(g) && g@ == service@[find_game(service@, id@)]),
        !has_game(service@, id@) ==> r == Err::<Game, (u16, &'static str)>(
            (NOT_FOUND, GAME_NOT_FOUND),
        ),
{
    match service.get_game(id) {
        Ok(game) => Ok(game),
        Err(_) => Err((NOT_FOUND, GAME_NOT_FOUND)),
    }
}

/// Decides whether a websocket may join game `id`: the request must carry a
/// known session (else status 401) and name an existing game (else status
/// 404). Returns the guest's profile.
pub fn join(
    profiles: &GuestProfiles,
    service: &GameService,
    cookie_header: Option<&str>,
    id: &str,
) -> (r: Result<GuestProfile, (u16, &'static str)>)
    ensures
        ({
            let existing = cookie_value(opt_str_view(cookie_header), SESSION_COOKIE_NAME@);
            match existing {
                None => r == Err::<GuestProfile, (u16, &'static str)>(
                    (UNAUTHORIZED, SESSION_REQUIRED),
                ),
                Some(t) => if !profiles@.contains_key(t) {
                    r == Err::<GuestProfile, (u16, &'static str)>((UNAUTHORIZED, SESSION_EXPIRED))
                } else if !has_game(service@, id@) {
                    r == Err::<GuestProfile, (u16, &'static str)>(
                        (NOT_FOUND, GAME_NOT_FOUND),
                    )
                } else {
                    r matches Ok(p) && p@ == profiles@[t]
                },
            }
        }),
{
    let profile = match session_profile_from_cookie(profiles, cookie_header) {
        Ok(p) => p,
        Err(e) => {
            return Err(e);
        },
    };
    if !service.game_exists(id) {
        return Err((NOT_FOUND, GAME_NOT_FOUND));
    }
    Ok(profile)
}

/// A request to create a game is refused for its name exactly when the
/// trimmed name is empty or longer than [`MAX_GAME_NAME_LENGTH`] characters;
/// with a good name, for its deck size exactly when that is 0 or not a
/// multiple of 10; with both good, for its chips exactly when a seat has none.
/// Every other request is accepted, so every positive multiple of 10 is a
/// deck size that can be played.
pub proof fn law_create_game_refusals(input: CreateGame)
    ensures
        ({
            let name = trim(input.name@);
            let name_ok = 0 < name.len() <= MAX_GAME_NAME_LENGTH;
            let deck_ok = input.deck_size > 0 && input.deck_size % 10 == 0;
            let chips_ok = input.initial_chips[0] > 0 && input.initial_chips[1] > 0;
            &&& create_game_refusal(input) is None <==> name_ok && deck_ok && chips_ok
            &&& create_game_refusal(input) == Some(INVALID_GAME_NAME) <==> !name_ok
            &&& create_game_refusal(input) == Some(INVALID_DECK_SIZE) <==> name_ok && !deck_ok
            &&& create_game_refusal(input) == Some(INVALID_INITIAL_CHIPS) <==> name_ok && deck_ok
                && !chips_ok
        }),
{
    reveal_strlit("Invalid game name");
    reveal_strlit("Deck size must be a positive multiple of 10");
    reveal_strlit("Initial chips must be greater than zero");
    assert(INVALID_GAME_NAME@.len() != INVALID_DECK_SIZE@.len());
    assert(INVALID_GAME_NAME@.len() != INVALID_INITIAL_CHIPS@.len());
    assert(INVALID_DECK_SIZE@.len() != INVALID_INITIAL_CHIPS@.len());
}

} // verus!
