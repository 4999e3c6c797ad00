use poker_server::api::{
    create_game, get_game_info, validate_create_game, BAD_REQUEST, INVALID_DECK_SIZE,
    INVALID_GAME_NAME, INVALID_INITIAL_CHIPS, NOT_FOUND,
};
use poker_server::models::{CreateGame, Role};
use poker_server::service::{GameIdSource, GameService, GAME_FULL, GAME_NOT_FOUND, PLAYER_ALREADY_CONNECTED};

fn request(name: &str, deck_size: u32, initial_chips: [u32; 2]) -> CreateGame {
    CreateGame { name: name.to_string(), deck_size, initial_chips }
}

#[test]
fn creates_and_assigns_players_and_spectators() {
    let mut service = GameService::new();
    let mut ids = GameIdSource::new();

    let game = service
        .create_game(&mut ids, CreateGame {
            name: "test_game".to_string(),
            deck_size: 20,
            initial_chips: [100, 200],
        })
        .unwrap();

    assert_eq!(game.players[0].seat, 1);
    assert_eq!(game.players[1].seat, 2);
    assert_eq!(game.spectators, 0);
    assert_eq!(game.name, "test_game");

    let (player_seat, joined_player_game) = service.join_player(&game.id, "guest-one").unwrap();
    assert_eq!(player_seat, 1);
    assert!(joined_player_game.players[0].connected);

    service.leave_connection(&game.id, Some(1));
    let (reconnected_seat, _) = service.join_player(&game.id, "guest-one").unwrap();
    assert_eq!(reconnected_seat, 1);

    service.leave_connection(&game.id, Some(1));
    let (replacement_seat, _) = service.join_player(&game.id, "guest-two").unwrap();
    assert_eq!(replacement_seat, 1);

    let spectator_game = service.join_spectator(&game.id).unwrap();
    assert_eq!(spectator_game.spectators, 1);

    service.leave_connection(&game.id, Some(1));
    let game_after_leave = service.get_game(&game.id).unwrap();
    assert!(!game_after_leave.players[0].connected);
}

#[test]
fn lists_all_created_games() {
    let mut service = GameService::new();
    let mut ids = GameIdSource::new();

    let first_game = service
        .create_game(&mut ids, CreateGame {
            name: "game a / 東京".to_string(),
            deck_size: 20,
            initial_chips: [100, 200],
        })
        .unwrap();
    let second_game = service
        .create_game(&mut ids, CreateGame {
            name: "game b".to_string(),
            deck_size: 30,
            initial_chips: [50, 150],
        })
        .unwrap();

    let games = service.list_games();
    assert_eq!(games.len(), 2);
    assert!(games.iter().any(|game| game.name == "game a / 東京"));
    assert!(games.iter().any(|game| game.name == "game b"));
    assert_ne!(first_game.id, second_game.id);
}

#[test]
fn new_game_has_decimal_id_trimmed_name_and_fresh_seats() {
    let mut service = GameService::new();
    let mut ids = GameIdSource::new();
    let game = service.create_game(&mut ids, request("  \u{3000}table one\t ", 40, [7, 9])).unwrap();
    assert_eq!(game.id, "1");
    assert_eq!(game.name, "table one");
    assert_eq!(game.deck_size, 40);
    assert_eq!(game.remaining_cards, 40);
    assert_eq!(game.pot, 0);
    assert!(game.history.is_empty());
    assert_eq!(game.players[0].initial_chips, 7);
    assert_eq!(game.players[0].current_chips, 7);
    assert_eq!(game.players[1].initial_chips, 9);
    assert_eq!(game.players[1].current_chips, 9);
    assert!(game.players.iter().all(|p| !p.connected && p.guest_id.is_none()));
    for n in 2..=12u32 {
        let g = service.create_game(&mut ids, request("x", 10, [1, 1])).unwrap();
        assert_eq!(g.id, n.to_string());
    }
}

#[test]
fn created_game_is_found_by_its_id() {
    let mut service = GameService::new();
    let mut ids = GameIdSource::new();
    let created = service.create_game(&mut ids, request("alpha", 10, [5, 5])).unwrap();
    assert!(service.game_exists(&created.id));
    assert!(!service.game_exists("2"));
    assert!(!service.game_exists(""));
    let found = service.get_game(&created.id).unwrap();
    assert_eq!(found.name, "alpha");
    assert_eq!(found.id, created.id);
    assert_eq!(service.get_game("missing").unwrap_err(), GAME_NOT_FOUND);
}

#[test]
fn connected_guest_is_refused_a_second_seat() {
    let mut service = GameService::new();
    let mut ids = GameIdSource::new();
    let game = service.create_game(&mut ids, request("g", 10, [1, 1])).unwrap();
    let before = service.join_player(&game.id, "alice").unwrap();
    assert_eq!(before.0, 1);
    assert_eq!(service.join_player(&game.id, "alice").unwrap_err(), PLAYER_ALREADY_CONNECTED);
    let after = service.get_game(&game.id).unwrap();
    assert!(after.players[0].connected);
    assert!(!after.players[1].connected);
    assert_eq!(after.players[0].guest_id.as_deref(), Some("alice"));
}

#[test]
fn third_guest_finds_the_game_full() {
    let mut service = GameService::new();
    let mut ids = GameIdSource::new();
    let game = service.create_game(&mut ids, request("g", 10, [1, 1])).unwrap();
    assert_eq!(service.join_player(&game.id, "alice").unwrap().0, 1);
    let (seat, snapshot) = service.join_player(&game.id, "bob").unwrap();
    assert_eq!(seat, 2);
    assert_eq!(snapshot.players[1].guest_id.as_deref(), Some("bob"));
    assert_eq!(service.join_player(&game.id, "carol").unwrap_err(), GAME_FULL);
    assert_eq!(service.join_player("nope", "carol").unwrap_err(), GAME_NOT_FOUND);
}

#[test]
fn guest_gets_back_its_seat_even_when_another_is_free() {
    let mut service = GameService::new();
    let mut ids = GameIdSource::new();
    let game = service.create_game(&mut ids, request("g", 10, [1, 1])).unwrap();
    service.join_player(&game.id, "alice").unwrap();
    service.join_player(&game.id, "bob").unwrap();
    service.leave_connection(&game.id, Some(1));
    service.leave_connection(&game.id, Some(2));
    assert_eq!(service.join_player(&game.id, "bob").unwrap().0, 2);
}

#[test]
fn spectators_join_and_leave_without_going_negative() {
    let mut service = GameService::new();
    let mut ids = GameIdSource::new();
    let game = service.create_game(&mut ids, request("g", 10, [1, 1])).unwrap();
    assert_eq!(service.join_spectator(&game.id).unwrap().spectators, 1);
    assert_eq!(service.join_spectator(&game.id).unwrap().spectators, 2);
    assert_eq!(service.leave_connection(&game.id, None).unwrap().spectators, 1);
    assert_eq!(service.leave_connection(&game.id, None).unwrap().spectators, 0);
    assert_eq!(service.leave_connection(&game.id, None).unwrap().spectators, 0);
    assert!(service.leave_connection("other", None).is_none());
    assert_eq!(service.join_spectator("other").unwrap_err(), GAME_NOT_FOUND);
}

#[test]
fn admission_follows_the_role() {
    let mut service = GameService::new();
    let mut ids = GameIdSource::new();
    let game = service.create_game(&mut ids, request("g", 10, [1, 1])).unwrap();
    let (seat, snapshot) = service.admit_connection(&game.id, Role::Player, "alice").unwrap();
    assert_eq!(seat, Some(1));
    assert!(snapshot.players[0].connected);
    let (seat, snapshot) = service.admit_connection(&game.id, Role::Spectator, "alice").unwrap();
    assert_eq!(seat, None);
    assert_eq!(snapshot.spectators, 1);
    assert_eq!(
        service.admit_connection("x", Role::Spectator, "alice").unwrap_err(),
        GAME_NOT_FOUND
    );
}

#[test]
fn create_game_requests_are_validated_in_order() {
    assert_eq!(validate_create_game(&request("   ", 10, [1, 1])), Err(INVALID_GAME_NAME));
    assert_eq!(validate_create_game(&request(&"n".repeat(41), 10, [1, 1])), Err(INVALID_GAME_NAME));
    assert_eq!(validate_create_game(&request(&"東".repeat(40), 10, [1, 1])), Ok(()));
    assert_eq!(validate_create_game(&request(&format!("  {}  ", "n".repeat(40)), 10, [1, 1])), Ok(()));
    assert_eq!(validate_create_game(&request("", 0, [0, 0])), Err(INVALID_GAME_NAME));
    assert_eq!(validate_create_game(&request("ok", 0, [1, 1])), Err(INVALID_DECK_SIZE));
    assert_eq!(validate_create_game(&request("ok", 25, [0, 1])), Err(INVALID_DECK_SIZE));
    assert_eq!(validate_create_game(&request("ok", 30, [1, 0])), Err(INVALID_INITIAL_CHIPS));
    assert_eq!(validate_create_game(&request("ok", 30, [0, 1])), Err(INVALID_INITIAL_CHIPS));
    assert_eq!(validate_create_game(&request("ok", 30, [1, 1])), Ok(()));
}

#[test]
fn create_game_endpoint_refuses_with_bad_request() {
    let mut service = GameService::new();
    let mut ids = GameIdSource::new();
    assert_eq!(
        create_game(&mut service, &mut ids, request("ok", 15, [1, 1])).unwrap_err(),
        (BAD_REQUEST, INVALID_DECK_SIZE)
    );
    assert!(service.list_games().is_empty());
    let game = create_game(&mut service, &mut ids, request(" ok ", 20, [1, 1])).unwrap();
    assert_eq!(game.name, "ok");
    assert_eq!(get_game_info(&service, &game.id).unwrap().id, game.id);
    assert_eq!(get_game_info(&service, "9").unwrap_err(), (NOT_FOUND, "Game not found"));
}

#[test]
fn ids_from_one_source_never_repeat_across_tables() {
    let mut ids = GameIdSource::new();
    let mut first = GameService::new();
    let mut second = GameService::new();
    let a = first.create_game(&mut ids, request("a", 10, [1, 1])).unwrap();
    let b = second.create_game(&mut ids, request("b", 10, [1, 1])).unwrap();
    let c = first.create_game(&mut ids, request("c", 10, [1, 1])).unwrap();
    assert_eq!((a.id.as_str(), b.id.as_str(), c.id.as_str()), ("1", "2", "3"));
    assert!(first.get_game("2").is_err());
    assert_eq!(second.get_game("2").unwrap().name, "b");
}
