use poker_server::api::{join, NOT_FOUND};
use poker_server::models::CreateGame;
use poker_server::service::{GameIdSource, GameService};
use poker_server::session::{
    cookie_secure, create_or_restore_session, get_cookie, get_or_create_guest_profile,
    session_cookie, session_profile_from_cookie, GuestProfile, GuestProfiles,
    SESSION_COOKIE_NAME,
};

#[test]
fn reuses_profile_for_process_session_token() {
    let mut profiles = GuestProfiles::new();
    let (token, first) = get_or_create_guest_profile(&mut profiles, None);
    let (same_token, second) = get_or_create_guest_profile(&mut profiles, Some(token.clone()));

    assert_eq!(token, same_token);
    assert_eq!(first.user_id, second.user_id);
    assert_eq!(first.avatar, "puppy");
}

#[test]
fn unknown_cookie_gets_a_new_in_memory_profile() {
    let mut profiles = GuestProfiles::new();
    let (old_token, old_profile) = get_or_create_guest_profile(&mut profiles, None);
    profiles.clear();

    let (new_token, new_profile) =
        get_or_create_guest_profile(&mut profiles, Some(old_token.clone()));

    assert_ne!(old_token, new_token);
    assert_ne!(old_profile.user_id, new_profile.user_id);
    assert_eq!(new_profile.avatar, "puppy");
}

#[test]
fn new_tokens_are_32_lower_case_hex_digits() {
    let mut profiles = GuestProfiles::new();
    let (token, _) = get_or_create_guest_profile(&mut profiles, Some("unknown".to_string()));
    assert_eq!(token.chars().count(), 32);
    assert!(token.chars().all(|c| c.is_ascii_digit() || ('a'..='f').contains(&c)));
    assert!(profiles.get("unknown").is_none());
    assert!(profiles.get(&token).is_some());
}

#[test]
fn inserted_profile_replaces_the_old_one() {
    let mut profiles = GuestProfiles::new();
    let (_, a) = get_or_create_guest_profile(&mut profiles, None);
    let (_, b) = get_or_create_guest_profile(&mut profiles, None);
    profiles.insert("t".to_string(), a.clone());
    assert_eq!(profiles.get("t").unwrap().user_id, a.user_id);
    profiles.insert("t".to_string(), GuestProfile { user_id: b.user_id, avatar: "cat".to_string() });
    let got = profiles.get("t").unwrap();
    assert_eq!(got.user_id, b.user_id);
    assert_eq!(got.avatar, "cat");
}

#[test]
fn cookie_values_are_found_by_name() {
    let h = Some("theme=dark; poker_session=abc123 ;other=1");
    assert_eq!(get_cookie(h, "poker_session").as_deref(), Some("abc123"));
    assert_eq!(get_cookie(h, "theme").as_deref(), Some("dark"));
    assert_eq!(get_cookie(h, "other").as_deref(), Some("1"));
    assert_eq!(get_cookie(h, "missing"), None);
    assert_eq!(get_cookie(None, "theme"), None);
    assert_eq!(get_cookie(Some(""), "theme"), None);
    assert_eq!(get_cookie(Some("a=1=2"), "a").as_deref(), Some("1=2"));
    assert_eq!(get_cookie(Some("a= 1"), "a").as_deref(), Some(" 1"));
    assert_eq!(get_cookie(Some("a =1"), "a"), None);
    assert_eq!(get_cookie(Some("novalue; a=x; a=y"), "a").as_deref(), Some("x"));
    assert_eq!(get_cookie(Some("a="), "a").as_deref(), Some(""));
    assert_eq!(get_cookie(Some(";;a=z;"), "a").as_deref(), Some("z"));
    assert_eq!(get_cookie(Some("=v"), "").as_deref(), Some("v"));
}

#[test]
fn session_cookie_text_and_secure_flag() {
    assert_eq!(
        session_cookie("abc", false),
        "poker_session=abc; Path=/; HttpOnly; SameSite=Lax"
    );
    assert_eq!(
        session_cookie("abc", true),
        "poker_session=abc; Path=/; HttpOnly; SameSite=Lax; Secure"
    );
    assert!(cookie_secure(Some("true")));
    assert!(cookie_secure(Some("TrUe")));
    assert!(!cookie_secure(Some("true ")));
    assert!(!cookie_secure(Some("yes")));
    assert!(!cookie_secure(Some("")));
    assert!(!cookie_secure(None));
    assert_eq!(SESSION_COOKIE_NAME, "poker_session");
}

#[test]
fn sessions_are_restored_from_the_cookie() {
    let mut profiles = GuestProfiles::new();
    let (cookie, first) = create_or_restore_session(&mut profiles, None, false);
    let token = cookie
        .strip_prefix("poker_session=")
        .unwrap()
        .split(';')
        .next()
        .unwrap()
        .to_string();
    let header = format!("poker_session={}", token);
    let (again, second) = create_or_restore_session(&mut profiles, Some(&header), true);
    assert_eq!(again, format!("poker_session={}; Path=/; HttpOnly; SameSite=Lax; Secure", token));
    assert_eq!(first.user_id, second.user_id);
    let (_, third) = create_or_restore_session(&mut profiles, Some("poker_session=stale"), false);
    assert_ne!(third.user_id, first.user_id);
}

#[test]
fn websocket_joins_need_a_known_session_and_game() {
    let mut profiles = GuestProfiles::new();
    let mut service = GameService::new();
    let mut ids = GameIdSource::new();
    let game = service
        .create_game(&mut ids, CreateGame { name: "g".to_string(), deck_size: 10, initial_chips: [1, 1] })
        .unwrap();
    let (token, profile) = get_or_create_guest_profile(&mut profiles, None);
    let header = format!("x=y; poker_session={}", token);

    assert_eq!(
        session_profile_from_cookie(&profiles, None).unwrap_err(),
        (401, "Guest session required")
    );
    assert_eq!(
        session_profile_from_cookie(&profiles, Some("poker_session=nope")).unwrap_err(),
        (401, "Guest session expired")
    );
    assert_eq!(
        session_profile_from_cookie(&profiles, Some(&header)).unwrap().user_id,
        profile.user_id
    );
    assert_eq!(
        join(&profiles, &service, Some(&header), "42").unwrap_err(),
        (NOT_FOUND, "Game not found")
    );
    assert_eq!(
        join(&profiles, &service, Some("a=b"), &game.id).unwrap_err(),
        (401, "Guest session required")
    );
    assert_eq!(join(&profiles, &service, Some(&header), &game.id).unwrap().user_id, profile.user_id);
}
