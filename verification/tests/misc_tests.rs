use oidc::cli::{
    can_register, expiration_status, log_level, CreateCommon, CreatePublic, ExpiryStatus,
    GetToken, LogLevel,
};
use oidc::config::{Client, ClientState, ClientType, Config};
use oidc::error::TokenError;
use oidc::flow::{build_redirect_uri, validate_callback, PendingAuthorization};
use oidc::http::HttpOptions;
use oidc::server::{Bind, FlowResult};
use oidc::utils::{hex_char, hex_val, is_text, OrNone};

fn sample_client() -> Client {
    Client {
        issuer_url: "https://idp.example/oidc".to_string(),
        client_type: ClientType::Public { client_id: "abc".to_string() },
        scope: None,
        state: None,
    }
}

fn sample_state(access: &str) -> ClientState {
    ClientState {
        access_token: access.to_string(),
        id_token: Some("ID".to_string()),
        refresh_token: None,
        expires: None,
    }
}

fn pending(csrf: &str) -> PendingAuthorization {
    PendingAuthorization {
        csrf_token: csrf.to_string(),
        pkce_verifier: "verifier".to_string(),
        redirect_uri: "http://localhost:8000".to_string(),
        nonce: "nonce".to_string(),
    }
}

#[test]
fn matching_state_releases_the_code() {
    let result = FlowResult { code: "thecode".to_string(), state: Some("csrf123".to_string()) };
    assert_eq!(validate_callback(&pending("csrf123"), &result).unwrap(), "thecode");
}

#[test]
fn mismatching_state_is_a_csrf_mismatch() {
    let result = FlowResult { code: "thecode".to_string(), state: Some("evil".to_string()) };
    assert_eq!(
        validate_callback(&pending("csrf123"), &result).unwrap_err(),
        TokenError::CsrfMismatch
    );
}

#[test]
fn missing_state_is_a_csrf_mismatch() {
    let result = FlowResult { code: "thecode".to_string(), state: None };
    assert_eq!(
        validate_callback(&pending("csrf123"), &result).unwrap_err(),
        TokenError::CsrfMismatch
    );
}

#[test]
fn redirect_uri_names_the_bound_port() {
    assert_eq!(build_redirect_uri(8000), "http://localhost:8000");
    assert_eq!(build_redirect_uri(0), "http://localhost:0");
    assert_eq!(build_redirect_uri(65535), "http://localhost:65535");
}

#[test]
fn config_stores_clients_under_unique_names() {
    let mut config = Config::new();
    assert!(!config.upsert("a".to_string(), sample_client()));
    assert!(!config.upsert("b".to_string(), sample_client()));
    // replacing keeps the count
    assert!(config.upsert("a".to_string(), sample_client()));
    assert_eq!(config.clients.len(), 2);
    assert!(config.by_name(&"a".to_string()).is_some());
    assert!(config.by_name(&"missing".to_string()).is_none());
}

#[test]
fn config_updates_only_the_named_state() {
    let mut config = Config::new();
    config.upsert("a".to_string(), sample_client());
    config.upsert("b".to_string(), sample_client());
    assert!(config.set_client_state(&"a".to_string(), sample_state("AT-a")));
    assert!(!config.set_client_state(&"missing".to_string(), sample_state("AT-x")));
    let a = config.by_name(&"a".to_string()).unwrap();
    assert_eq!(a.state.as_ref().unwrap().access_token, "AT-a");
    assert!(config.by_name(&"b".to_string()).unwrap().state.is_none());
}

#[test]
fn config_removes_clients_by_name() {
    let mut config = Config::new();
    config.upsert("a".to_string(), sample_client());
    let removed = config.remove_client(&"a".to_string());
    assert!(removed.is_some());
    assert!(config.by_name(&"a".to_string()).is_none());
    assert!(config.remove_client(&"a".to_string()).is_none());
}

#[test]
fn registration_respects_existing_names() {
    let mut config = Config::new();
    config.upsert("taken".to_string(), sample_client());
    assert!(!can_register(&config, &"taken".to_string(), false));
    assert!(can_register(&config, &"taken".to_string(), true));
    assert!(can_register(&config, &"free".to_string(), false));
}

#[test]
fn expiration_status_compares_against_now() {
    assert_eq!(expiration_status(None, 50), ExpiryStatus::NoExpiry);
    assert_eq!(expiration_status(Some(80), 50), ExpiryStatus::Valid(30));
    assert_eq!(expiration_status(Some(20), 50), ExpiryStatus::Expired(30));
    assert_eq!(expiration_status(Some(50), 50), ExpiryStatus::Expired(0));
    assert_eq!(
        expiration_status(Some(i64::MAX), i64::MIN),
        ExpiryStatus::Valid(u64::MAX)
    );
}

#[test]
fn token_selection_honours_the_switches() {
    let get = |id: bool, refresh: bool| GetToken {
        name: "a".to_string(),
        config: None,
        id,
        refresh,
        bearer: false,
        header: false,
        inspect: false,
        force: false,
        http: HttpOptions::default(),
    };
    let state = sample_state("AT");
    assert_eq!(get(false, false).select_token(&state).as_deref(), Some("AT"));
    assert_eq!(get(true, false).select_token(&state).as_deref(), Some("ID"));
    assert_eq!(get(false, true).select_token(&state), None);
}

#[test]
fn output_line_honours_the_switches() {
    let get = |bearer: bool, header: bool| GetToken {
        name: "a".to_string(),
        config: None,
        id: false,
        refresh: false,
        bearer,
        header,
        inspect: false,
        force: false,
        http: HttpOptions::default(),
    };
    assert_eq!(get(false, false).output_line("T".to_string()), "T");
    assert_eq!(get(true, false).output_line("T".to_string()), "Bearer T");
    assert_eq!(get(false, true).output_line("T".to_string()), "Authorization:Bearer T");
}

#[test]
fn bind_mode_prefers_the_only_switches() {
    let create = |bind: Bind, only4: bool, only6: bool| CreatePublic {
        common: CreateCommon {
            name: "n".to_string(),
            force: false,
            skip_initial: false,
            issuer: "https://idp.example".to_string(),
        },
        config: None,
        client_id: "abc".to_string(),
        port: None,
        open_browser: false,
        bind,
        only4,
        only6,
        http: HttpOptions::default(),
    };
    assert_eq!(create(Bind::Prefer6, false, false).bind_mode(), Bind::Prefer6);
    assert_eq!(create(Bind::Prefer6, true, false).bind_mode(), Bind::Only4);
    assert_eq!(create(Bind::Prefer6, false, true).bind_mode(), Bind::Only6);
    assert_eq!(create(Bind::Prefer4, true, true).bind_mode(), Bind::Only4);
}

#[test]
fn log_level_follows_quiet_and_verbose() {
    assert_eq!(log_level(true, 3), LogLevel::Error);
    assert_eq!(log_level(false, 0), LogLevel::Warn);
    assert_eq!(log_level(false, 1), LogLevel::Info);
    assert_eq!(log_level(false, 2), LogLevel::Debug);
    assert_eq!(log_level(false, 7), LogLevel::Trace);
}

#[test]
fn is_text_accepts_exactly_valid_utf8() {
    assert!(is_text(b"plain ascii"));
    assert!(is_text("tøken ✓ 🦀".as_bytes()));
    assert!(is_text(b""));
    // a stray continuation byte
    assert!(!is_text(&[0x80]));
    // a truncated two-byte sequence
    assert!(!is_text(&[0xc3]));
    // an overlong encoding of '/'
    assert!(!is_text(&[0xc0, 0xaf]));
    // a surrogate codepoint
    assert!(!is_text(&[0xed, 0xa0, 0x80]));
    // beyond U+10FFFF
    assert!(!is_text(&[0xf4, 0x90, 0x80, 0x80]));
    // a valid 4-byte character
    assert!(is_text(&[0xf0, 0x9f, 0xa6, 0x80]));
}

#[test]
fn hex_digits_map_both_ways() {
    assert_eq!(hex_val('0'), Some(0));
    assert_eq!(hex_val('f'), Some(15));
    assert_eq!(hex_val('A'), Some(10));
    assert_eq!(hex_val('g'), None);
    assert_eq!(hex_char(0), '0');
    assert_eq!(hex_char(15), 'f');
}

#[test]
fn or_none_shows_a_placeholder() {
    let value = Some("shown".to_string());
    assert_eq!(OrNone(&value).text(), "shown");
    assert_eq!(OrNone(&None).text(), "n/a");
}

#[test]
fn error_messages_tell_the_operator_what_to_do() {
    assert!(TokenError::MissingPriorState.message().contains("re-login"));
    assert!(TokenError::ExpiredRefreshToken.message().contains("re-login"));
    assert_ne!(
        TokenError::MissingPriorState.message(),
        TokenError::ExpiredRefreshToken.message()
    );
}

#[test]
fn every_error_has_its_own_message() {
    let all = [
        TokenError::BindFailure,
        TokenError::DiscoveryFailure,
        TokenError::ExchangeFailure,
        TokenError::CsrfMismatch,
        TokenError::MissingPriorState,
        TokenError::ExpiredRefreshToken,
        TokenError::IdTokenVerificationFailure,
    ];
    for (i, a) in all.iter().enumerate() {
        assert!(!a.message().is_empty());
        for b in &all[i + 1..] {
            assert_ne!(a.message(), b.message());
        }
    }
}
