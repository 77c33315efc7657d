use oidc::config::{Client, ClientState, ClientType};
use oidc::error::TokenError;
use oidc::oidc::{
    complete_fetch, extra_scopes, fetch_token, get_token, state_from_response, GrantRequest,
    TokenResponseData, TokenResult, TokenStep,
};

fn confidential_client(state: Option<ClientState>) -> Client {
    Client {
        issuer_url: "https://idp.example/oidc".to_string(),
        client_type: ClientType::Confidential {
            client_id: "abc".to_string(),
            client_secret: "s3cret".to_string(),
        },
        scope: None,
        state,
    }
}

fn public_client(state: Option<ClientState>) -> Client {
    Client {
        issuer_url: "https://idp.example/oidc".to_string(),
        client_type: ClientType::Public { client_id: "abc".to_string() },
        scope: None,
        state,
    }
}

fn cached_state(refresh: Option<&str>, expires: Option<i64>) -> ClientState {
    ClientState {
        access_token: "AT0".to_string(),
        id_token: None,
        refresh_token: refresh.map(|s| s.to_string()),
        expires,
    }
}

#[test]
fn fresh_cache_is_reused_unmodified() {
    let client = public_client(Some(cached_state(Some("rt"), Some(1_000))));
    match get_token(&client, 999).unwrap() {
        TokenStep::Existing(s) => {
            assert_eq!(s.access_token, "AT0");
            assert_eq!(s.refresh_token.as_deref(), Some("rt"));
            assert_eq!(s.expires, Some(1_000));
        }
        TokenStep::Exchange(_) => panic!("a fresh cache must not cause an exchange"),
    }
}

#[test]
fn expiry_exactly_now_is_not_fresh() {
    let client = confidential_client(Some(cached_state(None, Some(1_000))));
    match get_token(&client, 1_000).unwrap() {
        TokenStep::Exchange(GrantRequest::ClientCredentials { .. }) => {}
        _ => panic!("an expiry at now must cause an exchange"),
    }
}

#[test]
fn absent_expiry_counts_as_non_expiring() {
    let client = confidential_client(Some(cached_state(None, None)));
    match get_token(&client, 1_000_000).unwrap() {
        TokenStep::Existing(s) => assert_eq!(s.access_token, "AT0"),
        TokenStep::Exchange(_) => panic!("a state without expiry must be reused"),
    }
}

#[test]
fn confidential_always_exchanges_client_credentials() {
    let mut client = confidential_client(Some(cached_state(None, Some(0))));
    client.scope = Some("openid profile".to_string());
    match fetch_token(&client, 1_000).unwrap() {
        GrantRequest::ClientCredentials { client_id, client_secret, scopes } => {
            assert_eq!(client_id, "abc");
            assert_eq!(client_secret, "s3cret");
            assert_eq!(scopes, vec!["openid", "profile"]);
        }
        GrantRequest::RefreshExchange { .. } => panic!("wrong grant for a confidential client"),
    }
}

#[test]
fn public_without_state_fails_before_any_network() {
    let client = public_client(None);
    assert_eq!(fetch_token(&client, 0).unwrap_err(), TokenError::MissingPriorState);
}

#[test]
fn public_without_refresh_token_fails() {
    let client = public_client(Some(cached_state(None, Some(0))));
    assert_eq!(fetch_token(&client, 0).unwrap_err(), TokenError::MissingPriorState);
}

#[test]
fn expired_refresh_token_is_preempted() {
    // the cached refresh token decodes to exp = 100
    let token = "eyJhbGciOiJub25lIn0.eyJleHAiOjEwMH0.sig";
    let client = public_client(Some(cached_state(Some(token), Some(0))));
    assert_eq!(fetch_token(&client, 101).unwrap_err(), TokenError::ExpiredRefreshToken);
}

#[test]
fn unexpired_refresh_token_is_exchanged() {
    let token = "eyJhbGciOiJub25lIn0.eyJleHAiOjEwMH0.sig";
    let client = public_client(Some(cached_state(Some(token), Some(0))));
    match fetch_token(&client, 99).unwrap() {
        GrantRequest::RefreshExchange { refresh_token, scopes } => {
            assert_eq!(refresh_token, token);
            assert!(scopes.is_empty());
        }
        GrantRequest::ClientCredentials { .. } => panic!("wrong grant for a public client"),
    }
}

#[test]
fn undecodable_refresh_token_is_still_exchanged() {
    // claims that cannot be decoded give no expiry verdict
    let client = public_client(Some(cached_state(Some("opaque-refresh-token"), Some(0))));
    match fetch_token(&client, 1_000_000).unwrap() {
        GrantRequest::RefreshExchange { refresh_token, .. } => {
            assert_eq!(refresh_token, "opaque-refresh-token");
        }
        GrantRequest::ClientCredentials { .. } => panic!("wrong grant for a public client"),
    }
}

#[test]
fn client_credentials_scenario_yields_refreshed_state() {
    // issuer https://idp.example/oidc, id=abc, secret=s3cret, no cached state
    let client = confidential_client(None);
    match fetch_token(&client, 1_700_000_000).unwrap() {
        GrantRequest::ClientCredentials { client_id, client_secret, scopes } => {
            assert_eq!(client_id, "abc");
            assert_eq!(client_secret, "s3cret");
            assert!(scopes.is_empty());
        }
        GrantRequest::RefreshExchange { .. } => panic!("wrong grant"),
    }
    let resp = TokenResponseData {
        access_token: "AT1".to_string(),
        id_token: None,
        refresh_token: None,
        expires_in: Some(3600),
    };
    match complete_fetch(&client, resp, 1_700_000_000) {
        TokenResult::Refreshed(s) => {
            assert_eq!(s.access_token, "AT1");
            assert_eq!(s.expires, Some(1_700_000_000 + 3600));
            assert_eq!(s.refresh_token, None);
            assert_eq!(s.id_token, None);
        }
        TokenResult::Existing(_) => panic!("a completed fetch must be Refreshed"),
    }
}

#[test]
fn omitted_refresh_token_keeps_the_previous_one() {
    let prior = cached_state(Some("old-refresh"), Some(0));
    let resp = TokenResponseData {
        access_token: "AT2".to_string(),
        id_token: Some("ID2".to_string()),
        refresh_token: None,
        expires_in: None,
    };
    let s = state_from_response(Some(&prior), resp, 50);
    assert_eq!(s.access_token, "AT2");
    assert_eq!(s.id_token.as_deref(), Some("ID2"));
    // never silently dropped
    assert_eq!(s.refresh_token.as_deref(), Some("old-refresh"));
    assert_eq!(s.expires, None);
}

#[test]
fn returned_refresh_token_replaces_the_previous_one() {
    let prior = cached_state(Some("old-refresh"), Some(0));
    let resp = TokenResponseData {
        access_token: "AT2".to_string(),
        id_token: None,
        refresh_token: Some("new-refresh".to_string()),
        expires_in: Some(60),
    };
    let s = state_from_response(Some(&prior), resp, 40);
    assert_eq!(s.refresh_token.as_deref(), Some("new-refresh"));
    assert_eq!(s.expires, Some(100));
}

#[test]
fn expiry_saturates_instead_of_overflowing() {
    let resp = TokenResponseData {
        access_token: "AT".to_string(),
        id_token: None,
        refresh_token: None,
        expires_in: Some(u64::MAX),
    };
    let s = state_from_response(None, resp, i64::MAX - 10);
    assert_eq!(s.expires, Some(i64::MAX));
}

#[test]
fn extra_scopes_splits_on_spaces() {
    assert_eq!(extra_scopes(Some("a b")), vec!["a", "b"]);
    assert_eq!(extra_scopes(Some("openid")), vec!["openid"]);
    assert_eq!(extra_scopes(Some("a  b")), vec!["a", "", "b"]);
    assert_eq!(extra_scopes(Some("")), vec![""]);
    assert!(extra_scopes(None).is_empty());
}
