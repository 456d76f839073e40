//! Principals, cookies, logins, the world and the endpoints.
use foundry_circle::auth::{
    check_identity, claim_groups, cookie, earlier_end, expired_session_cookie, from_env, issued_at,
    login_start, logout, oidc_callback, request_token, require_services, require_session,
    required_env, session_cookie, session_expiry, session_token, session_ttl, split_words,
    take_transaction, text_groups, unix_timestamp, Answer, AuthEnv, CallbackAction, CallbackEvent,
    LoginQuery, Moment, Principal, SavedLogin, SessionLookup,
};
use foundry_circle::clock::Duration;
use foundry_circle::driver::{
    join_step, login_step, select_user_script, session_password, session_step, validate_state,
    wait_step, watch_step, ConfigError, DriverConfig, DriverEnv, Failure, FakeDriver,
    FoundryDriver, GameState, JoinPageState, LoginStep, SessionAction, SessionEvent, SessionState,
    Supervisor, WaitStep, WorldSnapshot, WorldState,
};
use foundry_circle::http::{
    capabilities, command, database_url, document, readyz, stays_connected, supervise, world,
    CommandRequest, DatabaseStep,
};
use foundry_circle::json::JsonNode;

fn principal(groups: &[&str]) -> Principal {
    Principal {
        subject: "sub".into(),
        issuer: "https://id.example/".into(),
        display_name: None,
        email: None,
        groups: groups.iter().map(|group| group.to_string()).collect(),
    }
}

fn is_text(answer: &Answer, expected: u16, expected_text: &str) -> bool {
    matches!(answer, Answer::Text { status, text } if *status == expected && *text == expected_text)
}

#[test]
fn admin_group_is_checked_separately_from_access() {
    let principal = Principal {
        subject: "sub".into(),
        issuer: "https://id.example/".into(),
        display_name: None,
        email: None,
        groups: vec![
            "foundry-circle-users".into(),
            "foundry-circle-admins".into(),
        ],
    };
    assert!(principal.is_admin("foundry-circle-admins"));
    assert!(
        principal
            .groups
            .iter()
            .any(|group| group == "foundry-circle-users")
    );
}

#[test]
fn non_admin_access_cannot_enter_admin_routes() {
    let principal = Principal {
        subject: "sub".into(),
        issuer: "https://id.example/".into(),
        display_name: None,
        email: None,
        groups: vec!["foundry-circle-users".into()],
    };

    assert!(!principal.is_admin("foundry-circle-admins"));
    assert!(!principal.is_admin("foundry-circle-user"));
}

#[test]
fn cookie_parser_requires_the_exact_session_name() {
    let header = "other=value; foundry_circle_session=opaque";
    assert_eq!(
        cookie(header, "foundry_circle_session").as_deref(),
        Some("opaque")
    );

    let header = "foundry_circle_session_extra=attacker";
    assert_eq!(cookie(header, "foundry_circle_session"), None);
}

#[test]
fn session_cookie_has_browser_security_flags() {
    let cookie = session_cookie("opaque", Duration::from_secs(60));
    assert!(cookie.contains("HttpOnly"));
    assert!(cookie.contains("Secure"));
    assert!(cookie.contains("SameSite=Lax"));
    assert!(cookie.contains("Path=/"));
    assert!(cookie.contains("Max-Age=60"));
}

#[test]
fn logout_cookie_expires_the_session() {
    let cookie = expired_session_cookie();
    assert!(cookie.contains("Max-Age=0"));
    assert!(cookie.contains("HttpOnly"));
    assert!(cookie.contains("Secure"));
    assert!(cookie.contains("SameSite=Lax"));
}

#[test]
fn database_url_ignores_empty_environment_and_missing_credential() {
    assert_eq!(database_url(&Some("  ".into()), &None), None);
    // The file "/missing/database-url" has no content that could be read.
    assert_eq!(database_url(&None, &None), None);
    assert_eq!(
        database_url(&Some("postgres:///foundry".into()), &None),
        Some("postgres:///foundry".into())
    );
}

#[test]
fn database_url_falls_back_to_the_file() {
    let file = Some(" postgres:///file\n".to_string());
    assert_eq!(
        database_url(&Some(" ".into()), &file).as_deref(),
        Some("postgres:///file")
    );
    assert_eq!(
        database_url(&Some(" postgres:///given ".into()), &file).as_deref(),
        Some("postgres:///given")
    );
    assert_eq!(database_url(&None, &Some("\n".into())), None);
}

#[test]
fn database_is_probed_connected_or_waited_for() {
    let url = Some("postgres:///foundry".to_string());
    let probe = supervise(true, &url, &None);
    assert!(matches!(probe, DatabaseStep::Probe));
    assert!(stays_connected(&probe, true));
    assert!(!stays_connected(&probe, false));
    let connect = supervise(false, &url, &None);
    assert!(matches!(&connect, DatabaseStep::Connect(target) if target == "postgres:///foundry"));
    assert!(stays_connected(&connect, true));
    let wait = supervise(false, &None, &None);
    assert!(matches!(wait, DatabaseStep::Wait));
    assert!(!stays_connected(&wait, true));
}

fn game(is_gm: bool) -> GameState {
    GameState {
        ready: true,
        world_id: Some("canary".into()),
        foundry_version: Some("13.351".into()),
        system_id: Some("daggerheart".into()),
        system_version: Some("1.6.4".into()),
        is_gm,
        no_canvas: true,
        no_world: false,
    }
}

fn config() -> DriverConfig {
    DriverConfig {
        base_url: "https://vtt.example".into(),
        api_user: "api".into(),
        password_file: "/run/credentials/password".into(),
        world_id: "canary".into(),
        foundry_version: "13.351".into(),
        system_id: "daggerheart".into(),
        system_version: "1.6.4".into(),
        chromium: "/bin/chromium".into(),
        profile_dir: "/tmp/foundry".into(),
    }
}

#[test]
fn contract_validation_rejects_non_gm_and_mismatches() {
    let state = GameState {
        ready: true,
        world_id: Some("canary".into()),
        foundry_version: Some("13.351".into()),
        system_id: Some("daggerheart".into()),
        system_version: Some("1.6.4".into()),
        is_gm: false,
        no_canvas: true,
        no_world: false,
    };
    let config = DriverConfig {
        base_url: "https://vtt.example".into(),
        api_user: "api".into(),
        password_file: "/run/credentials/password".into(),
        world_id: "canary".into(),
        foundry_version: "13.351".into(),
        system_id: "daggerheart".into(),
        system_version: "1.6.4".into(),
        chromium: "/bin/chromium".into(),
        profile_dir: "/tmp/foundry".into(),
    };
    assert!(validate_state(&state, &config).is_err());
}

#[test]
fn contract_validation_accepts_the_expected_world() {
    let snapshot = validate_state(&game(true), &config()).unwrap();
    assert_eq!(
        snapshot,
        WorldSnapshot {
            state: WorldState::Ready,
            id: Some("canary".into()),
            epoch: 0,
            foundry_version: Some("13.351".into()),
            system_id: Some("daggerheart".into()),
            system_version: Some("1.6.4".into()),
            is_gm: true,
        }
    );
    let mut other = game(true);
    other.system_version = None;
    assert_eq!(validate_state(&other, &config()), Err(Failure::Contract));
    let mut other = game(true);
    other.world_id = Some("Canary".into());
    assert_eq!(validate_state(&other, &config()), Err(Failure::Contract));
}

#[test]
fn health_is_public_and_readiness_requires_world_and_database() {
    let state = FakeDriver::new(WorldState::Ready).world_state();
    let answer = readyz(state, false);
    assert_eq!(answer.status, 503);
    assert_eq!(answer.state, WorldState::Ready);
    assert!(!answer.database);
    assert!(!answer.ready);
    assert_eq!(readyz(WorldState::Starting, true).status, 503);
    let answer = readyz(WorldState::Ready, true);
    assert_eq!(answer.status, 200);
    assert!(answer.ready);
}

#[test]
fn ready_world_response_matches_the_driver_snapshot() {
    let snapshot = WorldSnapshot {
        state: WorldState::Ready,
        id: Some("canary".into()),
        epoch: 7,
        foundry_version: Some("13.351".into()),
        system_id: Some("daggerheart".into()),
        system_version: Some("1.6.4".into()),
        is_gm: true,
    };
    let driver = FakeDriver::from_snapshot(snapshot);
    let (status, error, descriptor) = world(&driver.snapshot());
    assert_eq!(status, 200);
    assert_eq!(error, None);
    assert_eq!(descriptor.id, "canary");
    assert_eq!(descriptor.epoch, 7);
    assert_eq!(descriptor.state, WorldState::Ready);
    assert_eq!(descriptor.foundry_version.as_deref(), Some("13.351"));
    assert_eq!(descriptor.system_id.as_deref(), Some("daggerheart"));
    assert_eq!(descriptor.system_version.as_deref(), Some("1.6.4"));
    assert!(descriptor.is_gm);
}

#[test]
fn world_that_is_not_ready_is_called_active() {
    let (status, error, descriptor) = world(&WorldSnapshot::starting());
    assert_eq!(status, 503);
    assert_eq!(error, Some("world_not_ready"));
    assert_eq!(descriptor.id, "active");
    assert_eq!(descriptor.state, WorldState::Starting);
}

#[test]
fn protected_world_routes_fail_closed_without_oidc() {
    for header in [None, Some("foundry_circle_session=opaque".to_string())] {
        for database in [false, true] {
            let answer = request_token(false, database, header.clone()).unwrap_err();
            assert!(is_text(&answer, 503, "OIDC is not configured"));
        }
    }
    assert!(require_services(true, true).is_ok());
}

#[test]
fn request_without_a_session_goes_to_the_login() {
    let answer = request_token(true, false, None).unwrap_err();
    assert!(is_text(&answer, 503, "database is not configured"));
    for header in [None, Some("other=value".to_string())] {
        let answer = request_token(true, true, header).unwrap_err();
        assert!(matches!(answer, Answer::Redirect { to } if to == "/api/auth/login"));
    }
    let token = request_token(true, true, Some("a=b;  foundry_circle_session=t=1 ".into()));
    assert_eq!(token.unwrap(), "t=1");
}

#[test]
fn session_is_let_through_only_with_access() {
    let found = SessionLookup::Found(principal(&["foundry-circle-users"]));
    assert_eq!(
        require_session(found, "foundry-circle-users").unwrap().subject,
        "sub"
    );
    let found = SessionLookup::Found(principal(&["foundry-circle-admins"]));
    let answer = require_session(found, "foundry-circle-users").unwrap_err();
    assert!(is_text(
        &answer,
        403,
        "Foundry Circle access is no longer provisioned"
    ));
    let answer = require_session(SessionLookup::Missing, "users").unwrap_err();
    assert!(matches!(answer, Answer::Redirect { to } if to == "/api/auth/login"));
    let answer = require_session(SessionLookup::Failed, "users").unwrap_err();
    assert!(is_text(&answer, 500, "session lookup error"));
}

#[test]
fn session_cookie_reads_back() {
    let handed_out = session_cookie("opaque", Duration::from_secs(43_200));
    assert_eq!(
        handed_out,
        "foundry_circle_session=opaque; Path=/; Max-Age=43200; HttpOnly; Secure; SameSite=Lax"
    );
    let sent_back = handed_out.split(';').next().unwrap();
    assert_eq!(session_token(sent_back).as_deref(), Some("opaque"));
    let behind = format!("theme=dark; {sent_back}");
    assert_eq!(session_token(&behind).as_deref(), Some("opaque"));
    assert_eq!(session_token("foundry_circle_session").as_deref(), None);
    assert_eq!(session_token("").as_deref(), None);
    let token = session_token("foundry_circle_session=a; foundry_circle_session=b");
    assert_eq!(token.as_deref(), Some("a"));
}

#[test]
fn login_goes_through_each_step() {
    let ttl = Duration::from_secs(60);
    let now = Moment { secs: 1_000, nanos: 5 };
    let requested = CallbackEvent::Requested {
        auth: true,
        database: true,
        state: Some("state".into()),
    };
    assert!(matches!(
        oidc_callback(requested, "users", ttl),
        CallbackAction::TakeTransaction(state) if state == "state"
    ));
    let taken = CallbackEvent::Taken {
        login: SavedLogin::Until(Moment { secs: 1_000, nanos: 6 }),
        now,
    };
    assert!(matches!(
        oidc_callback(taken, "users", ttl),
        CallbackAction::CompleteLogin
    ));
    let completed = CallbackEvent::Completed {
        groups: Some(vec!["users".into()]),
    };
    assert!(matches!(
        oidc_callback(completed, "users", ttl),
        CallbackAction::SaveSession
    ));
    let saved = CallbackEvent::Saved {
        saved: true,
        token: "opaque".into(),
        return_to: None,
    };
    match oidc_callback(saved, "users", ttl) {
        CallbackAction::Answer(Answer::RedirectWithCookie { to, cookie }) => {
            assert_eq!(to, "/api/console");
            assert_eq!(
                cookie,
                "foundry_circle_session=opaque; Path=/; Max-Age=60; HttpOnly; Secure; SameSite=Lax"
            );
        }
        other => panic!("unexpected {other:?}"),
    }
    let saved = CallbackEvent::Saved {
        saved: true,
        token: "opaque".into(),
        return_to: Some("/world".into()),
    };
    assert!(matches!(
        oidc_callback(saved, "users", ttl),
        CallbackAction::Answer(Answer::RedirectWithCookie { to, .. }) if to == "/world"
    ));
}

fn refused(event: CallbackEvent, status: u16, text: &str) -> bool {
    match oidc_callback(event, "users", Duration::from_secs(60)) {
        CallbackAction::Answer(answer) => is_text(&answer, status, text),
        _ => false,
    }
}

#[test]
fn login_is_refused_at_each_step() {
    let now = Moment { secs: 1_000, nanos: 5 };
    let requested = |auth: bool, database: bool| CallbackEvent::Requested {
        auth,
        database,
        state: None,
    };
    assert!(refused(requested(false, false), 503, "OIDC is not configured"));
    assert!(refused(requested(true, false), 503, "database is not configured"));
    assert!(refused(requested(true, true), 400, "missing OIDC state"));
    let taken = |login: SavedLogin| CallbackEvent::Taken { login, now };
    assert!(refused(taken(SavedLogin::Missing), 400, "invalid or replayed login flow"));
    assert!(refused(taken(SavedLogin::Until(now)), 400, "invalid or replayed login flow"));
    assert!(refused(taken(SavedLogin::Failed), 500, "login transaction error"));
    assert!(take_transaction(SavedLogin::Until(Moment { secs: 1_001, nanos: 0 }), now).is_ok());
    let completed = |groups: Option<Vec<String>>| CallbackEvent::Completed { groups };
    assert!(refused(completed(None), 502, "OIDC authentication failed"));
    assert!(refused(
        completed(Some(vec!["admins".into()])),
        403,
        "Foundry Circle access is not provisioned"
    ));
    assert!(check_identity(Some(&vec!["users".to_string()]), "users").is_ok());
    let unsaved = CallbackEvent::Saved {
        saved: false,
        token: "opaque".into(),
        return_to: None,
    };
    assert!(refused(unsaved, 500, "session error"));
}

#[test]
fn login_starts_with_a_redirect() {
    let query = LoginQuery { return_to: None };
    assert!(query.return_to.is_none());
    assert!(is_text(&login_start(None, true), 502, "OIDC authentication failed"));
    let url = Some("https://id.example/authorize".to_string());
    assert!(is_text(&login_start(url.clone(), false), 500, "login transaction error"));
    assert!(matches!(
        login_start(url, true),
        Answer::Redirect { to } if to == "https://id.example/authorize"
    ));
}

#[test]
fn logout_takes_the_cookie_back() {
    assert!(is_text(&logout(false), 204, ""));
    assert!(matches!(
        logout(true),
        Answer::RedirectWithCookie { to, cookie }
            if to == "/api/console" && cookie == expired_session_cookie()
    ));
}

#[test]
fn login_configuration_has_defaults() {
    let env = AuthEnv {
        issuer: Some("https://id.example/".into()),
        client_id: Some("circle".into()),
        public_base_url: Some("https://circle.example".into()),
        ..AuthEnv::default()
    };
    let settings = from_env(env).unwrap();
    assert_eq!(settings.redirect_uri, "https://circle.example/api/auth/oidc/callback");
    assert_eq!(settings.scopes, ["openid", "profile", "email", "groups"]);
    assert_eq!(settings.access_group, "foundry-circle-users");
    assert_eq!(settings.admin_group, "foundry-circle-admins");
    assert_eq!(settings.session_ttl, Duration::from_secs(43_200));
    assert_eq!(settings.issuer, "https://id.example/");
    assert_eq!(settings.client_id, "circle");
}

#[test]
fn login_configuration_names_what_is_missing() {
    let mut env = AuthEnv::default();
    assert_eq!(
        from_env(AuthEnv { ..AuthEnv::default() }).unwrap_err(),
        "FOUNDRY_CIRCLE_OIDC_ISSUER is not set"
    );
    env.issuer = Some("https://id.example/".into());
    env.client_id = Some(" ".into());
    assert_eq!(
        from_env(env).unwrap_err(),
        "FOUNDRY_CIRCLE_OIDC_CLIENT_ID is empty"
    );
    assert_eq!(required_env("NAME", Some("value ".into())).unwrap(), "value ");
}

#[test]
fn session_length_is_a_positive_number() {
    assert_eq!(session_ttl(None), Duration::from_secs(43_200));
    assert_eq!(session_ttl(Some("0".into())), Duration::from_secs(43_200));
    assert_eq!(session_ttl(Some("-5".into())), Duration::from_secs(43_200));
    assert_eq!(session_ttl(Some(" 60".into())), Duration::from_secs(43_200));
    assert_eq!(session_ttl(Some("60".into())), Duration::from_secs(60));
    assert_eq!(session_ttl(Some("+60".into())), Duration::from_secs(60));
    assert_eq!(
        session_ttl(Some("18446744073709551616".into())),
        Duration::from_secs(43_200)
    );
}

#[test]
fn words_are_split_as_the_standard_library_does() {
    for text in ["", "  ", "openid", " openid\tprofile \n email", "a\u{3000}b\u{85}c\u{200b}d"] {
        let expected: Vec<&str> = text.split_whitespace().collect();
        assert_eq!(split_words(text), expected);
    }
}

#[test]
fn groups_are_the_texts_in_the_claim() {
    let claims = br#"{"groups": ["users", 7, null, "admins", ["x"]], "email": null}"#;
    assert_eq!(claim_groups(claims), ["users", "admins"]);
    assert!(claim_groups(br#"{"groups": "users"}"#).is_empty());
    assert!(claim_groups(b"{}").is_empty());
    let many: Vec<String> = (0..12).map(|i| format!("\"g{i}\"")).collect();
    let claims = format!("{{\"groups\": [{}]}}", many.join(","));
    assert_eq!(claim_groups(claims.as_bytes())[11], "g11");
    let nodes = vec![JsonNode::Text("a".into()), JsonNode::Object, JsonNode::Null];
    assert_eq!(text_groups(&nodes), ["a"]);
}

#[test]
fn session_ends_with_its_token_or_as_configured() {
    let now = Moment { secs: 1_700_000_000, nanos: 999_999_999 };
    let ttl = Duration::from_secs(60);
    let end = session_expiry(now, ttl, None);
    assert_eq!((end.secs, end.nanos), (1_700_000_060, 999_999_999));
    let end = session_expiry(now, ttl, Some(1_700_000_010));
    assert_eq!((end.secs, end.nanos), (1_700_000_010, 0));
    let end = session_expiry(now, ttl, Some(1_800_000_000));
    assert_eq!((end.secs, end.nanos), (1_700_000_060, 999_999_999));
    // Beyond the years that can be counted, the token does not matter.
    let end = session_expiry(now, ttl, Some(i64::MAX as u64));
    assert_eq!((end.secs, end.nanos), (1_700_000_060, 999_999_999));
    // An end before 1970 is one.
    let end = session_expiry(now, ttl, Some(u64::MAX));
    assert_eq!((end.secs, end.nanos), (-1, 0));
    // The last second of the year 262142 is a time, and the next is none.
    let early = Moment { secs: 8_210_266_876_790, nanos: 0 };
    let end = session_expiry(early, ttl, Some(8_210_266_876_799));
    assert_eq!((end.secs, end.nanos), (8_210_266_876_799, 0));
    let end = session_expiry(early, ttl, Some(8_210_266_876_800));
    assert_eq!((end.secs, end.nanos), (8_210_266_876_850, 0));
    // So is the first second of the year -262143, and none before it.
    let first = (-8_334_601_228_800_i64) as u64;
    let end = session_expiry(now, ttl, Some(first));
    assert_eq!((end.secs, end.nanos), (-8_334_601_228_800, 0));
    let end = session_expiry(now, ttl, Some(first - 1));
    assert_eq!((end.secs, end.nanos), (1_700_000_060, 999_999_999));
    let end = session_expiry(now, Duration::new(0, 1), None);
    assert_eq!((end.secs, end.nanos), (1_700_000_001, 0));
}

#[test]
fn session_length_that_cannot_be_counted_is_twelve_hours() {
    let now = Moment { secs: 0, nanos: 0 };
    let longest = i64::MAX as u64 / 1000;
    let end = earlier_end(now, Duration::new(longest, 807_000_000), None);
    assert_eq!((end.secs, end.nanos), (longest as i64, 807_000_000));
    let end = earlier_end(now, Duration::new(longest, 807_000_001), None);
    assert_eq!((end.secs, end.nanos), (43_200, 0));
    let end = earlier_end(now, Duration::max(), Some(7));
    assert_eq!((end.secs, end.nanos), (7, 0));
}

#[test]
fn login_was_issued_ten_minutes_before_it_expires() {
    assert_eq!(issued_at(1_700_000_600), 1_700_000_000);
    assert_eq!(issued_at(599), 0);
    assert_eq!(unix_timestamp(-1), 0);
    assert_eq!(unix_timestamp(42), 42);
}

#[test]
fn commands_need_an_administrator_and_a_ready_world() {
    let request = || CommandRequest {
        command: "scene.activate".into(),
        payload: "{}".into(),
        idempotency_key: Some("test".into()),
    };
    let admin = principal(&["users", "admins"]);
    let user = principal(&["users"]);
    let answer = command(request(), &admin, None, WorldState::Ready);
    assert_eq!((answer.status, answer.error), (503, "oidc_not_configured"));
    let answer = command(request(), &user, Some("admins"), WorldState::Ready);
    assert_eq!((answer.status, answer.error), (403, "admin_required"));
    assert_eq!(answer.command, None);
    let answer = command(request(), &admin, Some("admins"), WorldState::WorldStopped);
    assert_eq!((answer.status, answer.error), (503, "world_not_ready"));
    let answer = command(request(), &admin, Some("admins"), WorldState::Ready);
    assert_eq!((answer.status, answer.error), (501, "driver_contract_pending"));
    assert_eq!(answer.command.as_deref(), Some("scene.activate"));
}

#[test]
fn documents_wait_for_the_driver() {
    assert_eq!(document(WorldState::Ready), (501, "driver_contract_pending"));
    assert_eq!(document(WorldState::Error), (503, "world_not_ready"));
}

#[test]
fn capabilities_are_listed() {
    let list = capabilities();
    assert_eq!(list.collections, ["actors", "scenes", "messages", "playlists", "tables"]);
    assert_eq!(
        list.commands,
        [
            "chat.create",
            "dice.roll",
            "scene.activate",
            "combat.update",
            "playlist.control"
        ]
    );
    assert!(list.supports_events && list.supports_json_patch);
}

fn driver_env() -> DriverEnv {
    DriverEnv {
        base_url: Some("https://vtt.example//".into()),
        api_user: Some("api".into()),
        password_file: Some("/run/credentials/password".into()),
        world_id: Some("canary".into()),
        foundry_version: Some("13.351".into()),
        system_id: Some("daggerheart".into()),
        system_version: Some("1.6.4".into()),
        chromium: Some("/bin/chromium".into()),
        profile_dir: None,
    }
}

#[test]
fn driver_configuration_is_read_in_order() {
    let config = DriverConfig::from_env(driver_env()).unwrap();
    assert_eq!(config.base_url, "https://vtt.example");
    assert_eq!(config.join_page(), "https://vtt.example/join");
    assert_eq!(config.profile_dir, "/run/foundry-circle/browser");
    assert_eq!(config.system_version, "1.6.4");
    let error = DriverConfig::from_env(DriverEnv::default()).unwrap_err();
    assert!(matches!(error, ConfigError::Missing("FOUNDRY_WORLD_BASE_URL")));
    assert_eq!(error.message(), "FOUNDRY_WORLD_BASE_URL is not set");
    let mut env = driver_env();
    env.chromium = Some("\t".into());
    env.profile_dir = Some("/tmp".into());
    let error = DriverConfig::from_env(env).unwrap_err();
    assert_eq!(error.message(), "FOUNDRY_CHROMIUM is empty");
    let mut env = driver_env();
    env.world_id = None;
    env.system_id = Some("".into());
    let error = DriverConfig::from_env(env).unwrap_err();
    assert_eq!(error.message(), "FOUNDRY_WORLD_ID is not set");
}

#[test]
fn password_is_trimmed_and_not_empty() {
    assert_eq!(session_password(" secret\n").unwrap(), "secret");
    assert_eq!(session_password(" \n"), Err(Failure::Authentication));
}

#[test]
fn failures_have_texts() {
    assert_eq!(Failure::WorldStopped.message(), "world is stopped");
    assert_eq!(Failure::Browser.message(), "browser session failed");
    assert_eq!(Failure::Authentication.message(), "world authentication failed");
    assert_eq!(Failure::Contract.message(), "world contract mismatch");
}

#[test]
fn user_is_named_in_the_script_as_json() {
    let script = select_user_script("GM \"api\"\\\n\u{1}é");
    assert!(script.starts_with("() => { const expected = \"GM \\\"api\\\"\\\\\\n\\u0001é\"; const"));
    assert!(script.contains("document.querySelector(\"select[name='userid']\")"));
    assert!(script.ends_with("{bubbles: true})); return true; }"));
}

#[test]
fn waiting_ends_after_a_minute() {
    assert_eq!(wait_step(Duration::from_secs(0)), WaitStep::LookAgain);
    assert_eq!(wait_step(Duration::new(59, 999_999_999)), WaitStep::LookAgain);
    assert_eq!(
        wait_step(Duration::from_secs(60)),
        WaitStep::Fail(Failure::Authentication)
    );
    let page = |has_form: bool, no_world: bool, game_ready: bool| JoinPageState {
        has_form,
        no_world,
        game_ready,
    };
    assert_eq!(join_step(page(true, true, true)), WaitStep::Fail(Failure::WorldStopped));
    assert_eq!(join_step(page(true, false, false)), WaitStep::Proceed);
    assert_eq!(join_step(page(false, false, true)), WaitStep::Proceed);
    assert_eq!(join_step(page(false, false, false)), WaitStep::LookAgain);
}

#[test]
fn browser_session_logs_in_and_watches() {
    let config = config();
    let page = JoinPageState { has_form: true, no_world: false, game_ready: false };
    let (state, action) = session_step(SessionState::Joining, SessionEvent::JoinPage(page), &config);
    assert!(matches!(action, SessionAction::ChooseUser));
    let (state, action) = session_step(state, SessionEvent::Chosen(true), &config);
    assert!(matches!(action, SessionAction::SubmitPassword));
    let mut loading = game(true);
    loading.ready = false;
    let (state, action) = session_step(state, SessionEvent::World(loading), &config);
    assert!(matches!(action, SessionAction::LookAtWorld(2)));
    let mut canvas = game(true);
    canvas.no_canvas = false;
    let (state, action) = session_step(state, SessionEvent::World(canvas.clone()), &config);
    assert!(matches!(action, SessionAction::ReloadWithoutCanvas));
    let (state, action) = session_step(state, SessionEvent::World(canvas), &config);
    assert!(matches!(action, SessionAction::Report(snapshot, 10) if snapshot.state == WorldState::Ready));
    assert_eq!(state, SessionState::Watching);
    let (state, action) = session_step(state, SessionEvent::World(game(true)), &config);
    assert!(matches!(action, SessionAction::Report(_, 10)));
    let mut stopped = game(true);
    stopped.no_world = true;
    let (state, action) = session_step(state, SessionEvent::World(stopped), &config);
    assert!(matches!(action, SessionAction::End(Failure::WorldStopped)));
    assert_eq!(state, SessionState::Ended);
}

#[test]
fn browser_session_ends_with_each_failure() {
    let config = config();
    let logging_in = SessionState::LoggingIn { reloaded: false };
    let ended = |state: SessionState, event: SessionEvent| match session_step(state, event, &config) {
        (SessionState::Ended, SessionAction::End(failure)) => failure,
        other => panic!("unexpected {other:?}"),
    };
    assert_eq!(ended(SessionState::Joining, SessionEvent::TimedOut), Failure::Authentication);
    assert_eq!(ended(logging_in, SessionEvent::TimedOut), Failure::Authentication);
    assert_eq!(
        ended(SessionState::Choosing, SessionEvent::Chosen(false)),
        Failure::Authentication
    );
    assert_eq!(ended(logging_in, SessionEvent::World(game(false))), Failure::Contract);
    let mut gone = game(true);
    gone.ready = false;
    assert_eq!(ended(SessionState::Watching, SessionEvent::World(gone)), Failure::Browser);
    assert!(matches!(login_step(&game(false), &config, true), LoginStep::Fail(Failure::Contract)));
    assert_eq!(watch_step(&game(false), &config), Err(Failure::Contract));
}

#[test]
fn pauses_between_sessions_double_up_to_a_minute() {
    let mut supervisor = Supervisor::new();
    let mut pauses: Vec<u64> = Vec::new();
    for _ in 0..6 {
        let (report, pause) = supervisor.after_session(Err(Failure::Browser));
        assert_eq!(report.unwrap().state, WorldState::Error);
        pauses.push(pause);
    }
    assert_eq!(pauses, [5, 10, 20, 40, 60, 60]);
    let (report, pause) = supervisor.after_session(Err(Failure::WorldStopped));
    assert_eq!(report.unwrap().state, WorldState::WorldStopped);
    assert_eq!(pause, 15);
    let (_, pause) = supervisor.after_session(Err(Failure::Contract));
    assert_eq!(pause, 30);
    let (report, pause) = supervisor.after_session(Ok(()));
    assert!(report.is_none());
    assert_eq!(pause, 5);
}
