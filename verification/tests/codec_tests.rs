use oidc::codec::{decode_client_state, encode_client_state};
use oidc::config::ClientState;

fn roundtrip(state: &ClientState) -> ClientState {
    let encoded = encode_client_state(state);
    decode_client_state(&encoded).expect("the encoding of a state must decode")
}

fn assert_same(a: &ClientState, b: &ClientState) {
    assert_eq!(a.access_token, b.access_token);
    assert_eq!(a.id_token, b.id_token);
    assert_eq!(a.refresh_token, b.refresh_token);
    assert_eq!(a.expires, b.expires);
}

#[test]
fn full_state_round_trips() {
    let state = ClientState {
        access_token: "AT1".to_string(),
        id_token: Some("ID1".to_string()),
        refresh_token: Some("RT1".to_string()),
        expires: Some(1_700_000_000),
    };
    assert_same(&state, &roundtrip(&state));
}

#[test]
fn minimal_state_round_trips() {
    let state = ClientState {
        access_token: String::new(),
        id_token: None,
        refresh_token: None,
        expires: None,
    };
    assert_same(&state, &roundtrip(&state));
}

#[test]
fn awkward_contents_round_trip() {
    // field separators carry no weight: lengths are explicit
    let state = ClientState {
        access_token: "a.b|c\nd 0123456789abcdef".to_string(),
        id_token: Some(String::new()),
        refresh_token: Some("1".repeat(100)),
        expires: Some(0),
    };
    assert_same(&state, &roundtrip(&state));
}

#[test]
fn negative_and_extreme_expiry_round_trips() {
    for expires in [i64::MIN, -1, 0, 1, i64::MAX] {
        let state = ClientState {
            access_token: "t".to_string(),
            id_token: None,
            refresh_token: None,
            expires: Some(expires),
        };
        assert_same(&state, &roundtrip(&state));
    }
}

#[test]
fn non_ascii_contents_round_trip() {
    let state = ClientState {
        access_token: "tøken ✓".to_string(),
        id_token: Some("déjà".to_string()),
        refresh_token: None,
        expires: None,
    };
    assert_same(&state, &roundtrip(&state));
}

#[test]
fn encoding_is_as_laid_out() {
    let state = ClientState {
        access_token: "AT".to_string(),
        id_token: None,
        refresh_token: None,
        expires: Some(255),
    };
    assert_eq!(
        encode_client_state(&state),
        "0000000000000002AT00100000000000000ff"
    );
}

#[test]
fn garbage_does_not_decode() {
    assert!(decode_client_state("").is_none());
    assert!(decode_client_state("xyz").is_none());
    // a length prefix pointing past the end
    assert!(decode_client_state("00000000000000ffAT001").is_none());
    // a bad option marker
    assert!(decode_client_state("0000000000000002AT20100000000000000ff").is_none());
    // trailing garbage after a complete state
    assert!(decode_client_state("0000000000000002AT00100000000000000ffX").is_none());
}
