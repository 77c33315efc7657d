use oidc::server::{
    bind_candidates, parse_callback_query, pct_decode, query_of_target, AddrFamily, Bind,
    CallbackChannel, HttpReply, ServerPhase,
};

#[test]
fn bind_policies_list_their_families_in_order() {
    assert_eq!(bind_candidates(Bind::Prefer6), vec![AddrFamily::V6, AddrFamily::V4]);
    assert_eq!(bind_candidates(Bind::Prefer4), vec![AddrFamily::V4, AddrFamily::V6]);
    assert_eq!(bind_candidates(Bind::Only6), vec![AddrFamily::V6]);
    assert_eq!(bind_candidates(Bind::Only4), vec![AddrFamily::V4]);
}

#[test]
fn pct_decode_handles_escapes_and_plus() {
    assert_eq!(pct_decode("abc").as_deref(), Some("abc"));
    assert_eq!(pct_decode("%41%62c").as_deref(), Some("Abc"));
    assert_eq!(pct_decode("a+b").as_deref(), Some("a b"));
    assert_eq!(pct_decode("").as_deref(), Some(""));
    // malformed or non-ASCII escapes are rejected
    assert_eq!(pct_decode("%4"), None);
    assert_eq!(pct_decode("%zz"), None);
    assert_eq!(pct_decode("%C3%A9"), None);
}

#[test]
fn callback_query_parses_code_and_state() {
    let r = parse_callback_query("code=abc&state=xyz").unwrap();
    assert_eq!(r.code, "abc");
    assert_eq!(r.state.as_deref(), Some("xyz"));

    let r = parse_callback_query("state=xyz&code=abc").unwrap();
    assert_eq!(r.code, "abc");
    assert_eq!(r.state.as_deref(), Some("xyz"));

    let r = parse_callback_query("code=abc").unwrap();
    assert_eq!(r.code, "abc");
    assert_eq!(r.state, None);
}

#[test]
fn callback_query_decodes_values() {
    let r = parse_callback_query("code=a%2Fb+c&state=x%3Dy&session_state=ignored").unwrap();
    assert_eq!(r.code, "a/b c");
    assert_eq!(r.state.as_deref(), Some("x=y"));
}

#[test]
fn callback_query_rejects_meaningless_requests() {
    // no code at all
    assert!(parse_callback_query("state=xyz").is_none());
    assert!(parse_callback_query("").is_none());
    // duplicated parameters
    assert!(parse_callback_query("code=a&code=b").is_none());
    assert!(parse_callback_query("code=a&state=x&state=y").is_none());
    // an undecodable value
    assert!(parse_callback_query("code=%zz").is_none());
}

#[test]
fn query_of_target_takes_what_follows_the_first_question_mark() {
    assert_eq!(query_of_target("/?code=abc").as_deref(), Some("code=abc"));
    assert_eq!(query_of_target("/path?a=1?b=2").as_deref(), Some("a=1?b=2"));
    assert_eq!(query_of_target("/nothing"), None);
}

#[test]
fn first_callback_wins_second_sees_gone() {
    let mut ch = CallbackChannel::new();
    // two near-simultaneous requests, ordered by the listener's lock
    let first = ch.handle_request("code=abc&state=xyz");
    let second = ch.handle_request("code=abc&state=xyz");
    assert_eq!(first, HttpReply::Ok200);
    assert_eq!(second, HttpReply::Gone410);
    let delivered = ch.take_result().unwrap().unwrap();
    assert_eq!(delivered.code, "abc");
    assert_eq!(delivered.state.as_deref(), Some("xyz"));
    // the outcome is consumed exactly once
    assert!(ch.take_result().is_none());
}

#[test]
fn delivered_result_is_never_overwritten() {
    let mut ch = CallbackChannel::new();
    assert_eq!(ch.handle_request("code=first&state=s1"), HttpReply::Ok200);
    assert_eq!(ch.handle_request("code=second&state=s2"), HttpReply::Gone410);
    let delivered = ch.take_result().unwrap().unwrap();
    assert_eq!(delivered.code, "first");
}

#[test]
fn malformed_requests_do_not_take_the_slot() {
    let mut ch = CallbackChannel::new();
    assert_eq!(ch.handle_request("state=only"), HttpReply::BadRequest400);
    assert_eq!(ch.handle_request("code=late"), HttpReply::Ok200);
    let delivered = ch.take_result().unwrap().unwrap();
    assert_eq!(delivered.code, "late");
}

#[test]
fn listener_failure_is_delivered_through_the_same_slot() {
    let mut ch = CallbackChannel::new();
    ch.report_failure("listener went away".to_string());
    assert_eq!(ch.phase, ServerPhase::Errored);
    let outcome = ch.take_result().unwrap();
    assert_eq!(outcome.unwrap_err(), "listener went away");
    // a failure after delivery changes nothing
    let mut ch = CallbackChannel::new();
    assert_eq!(ch.handle_request("code=abc"), HttpReply::Ok200);
    ch.report_failure("too late".to_string());
    assert!(ch.take_result().unwrap().is_ok());
}
