use oidc::claims::{
    b64url_decode, decode_access_claims, decode_refresh_claims, payload_segment, split_dots,
};

#[test]
fn b64url_decodes_known_vectors() {
    assert_eq!(b64url_decode("TWFu"), Some(b"Man".to_vec()));
    assert_eq!(b64url_decode("TWE"), Some(b"Ma".to_vec()));
    assert_eq!(b64url_decode("TQ"), Some(b"M".to_vec()));
    assert_eq!(b64url_decode(""), Some(Vec::new()));
}

#[test]
fn b64url_rejects_bad_input() {
    // a length of 1 mod 4 can encode nothing
    assert_eq!(b64url_decode("A"), None);
    assert_eq!(b64url_decode("AAAAB"), None);
    // characters outside the URL-safe alphabet
    assert_eq!(b64url_decode("TW+u"), None);
    assert_eq!(b64url_decode("TW/u"), None);
    assert_eq!(b64url_decode("TQ=="), None);
    // non-zero trailing bits are not canonical
    assert_eq!(b64url_decode("TR"), None);
    assert_eq!(b64url_decode("TWF"), None);
}

#[test]
fn b64url_uses_url_safe_alphabet() {
    // 0xfb 0xef maps to "--8" in the URL-safe alphabet
    assert_eq!(b64url_decode("--8"), Some(vec![0xfb, 0xef]));
    assert_eq!(b64url_decode("__8"), Some(vec![0xff, 0xff]));
}

#[test]
fn split_dots_splits_compact_tokens() {
    let parts = split_dots("aaa.bbb.ccc");
    assert_eq!(parts, vec!["aaa", "bbb", "ccc"]);
    assert_eq!(split_dots("abc"), vec!["abc"]);
    assert_eq!(split_dots(""), vec![""]);
    assert_eq!(split_dots("a..b"), vec!["a", "", "b"]);
    assert_eq!(split_dots("a."), vec!["a", ""]);
}

#[test]
fn payload_segment_is_the_second_part() {
    assert_eq!(
        payload_segment("eyJhbGciOiJub25lIn0.eyJleHAiOjEwMH0.sig"),
        Some("eyJleHAiOjEwMH0".to_string())
    );
    assert_eq!(payload_segment("h.p"), Some("p".to_string()));
    assert_eq!(payload_segment("nodots"), None);
}

#[test]
fn refresh_claims_extract_exp() {
    let token = "eyJhbGciOiJub25lIn0.eyJleHAiOjEwMH0.sig";
    let claims = decode_refresh_claims(token).unwrap();
    assert_eq!(claims.exp, Some(100));
}

#[test]
fn refresh_claims_without_exp_are_empty() {
    let token = "eyJhbGciOiJub25lIn0.eyJmb28iOiJiYXIifQ.sig";
    let claims = decode_refresh_claims(token).unwrap();
    assert_eq!(claims.exp, None);
}

#[test]
fn refresh_claims_tolerate_non_json_payloads() {
    // "bm90IGpzb24" is "not json": decodable base64url, but no JSON object
    let token = "x.bm90IGpzb24.y";
    let claims = decode_refresh_claims(token).unwrap();
    assert_eq!(claims.exp, None);
}

#[test]
fn refresh_claims_fail_on_undecodable_payloads() {
    // payload is not base64url at all
    assert!(decode_refresh_claims("x.###.y").is_none());
    // no payload segment
    assert!(decode_refresh_claims("justonepart").is_none());
}

#[test]
fn access_claims_extract_the_known_fields() {
    let token = "eyJhbGciOiJub25lIn0.eyJzdWIiOiJhbGljZSIsImlzcyI6Imh0dHBzOi8vaWRwLmV4YW1wbGUiLCJleHAiOjEwMCwic2NvcGUiOiJvcGVuaWQifQ.sig";
    let claims = decode_access_claims(token).unwrap();
    assert_eq!(claims.sub.as_deref(), Some("alice"));
    assert_eq!(claims.iss.as_deref(), Some("https://idp.example"));
    assert_eq!(claims.exp, Some(100));
    assert_eq!(claims.scope.as_deref(), Some("openid"));
    assert_eq!(claims.iat, None);
    assert_eq!(claims.azp, None);
}
