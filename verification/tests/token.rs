use base64::Engine;
use ploneapi_shell::config::AuthData;
use ploneapi_shell::token::{
    decode_jwt_exp, new_session, should_refresh_token, TOKEN_REFRESH_LEEWAY,
    TOKEN_REFRESH_MIN_INTERVAL,
};

fn auth(updated_at: i64, token_exp: Option<i64>) -> AuthData {
    AuthData {
        mode: "token".to_string(),
        token: "t".to_string(),
        updated_at,
        username: None,
        token_exp,
    }
}

fn token_with_payload(payload: &str) -> String {
    let encoded = base64::engine::general_purpose::URL_SAFE_NO_PAD.encode(payload);
    format!("aGVhZGVy.{}.c2ln", encoded)
}

#[test]
fn refresh_is_due_once_the_expiry_has_passed() {
    let now = 1_700_000_000;
    assert!(should_refresh_token(&auth(now - 100, Some(now - 1)), now));
}

#[test]
fn refresh_waits_for_the_minimum_interval() {
    let now = 1_700_000_000;
    assert!(!should_refresh_token(&auth(now - 5, Some(now - 1)), now));
}

#[test]
fn refresh_needs_a_known_expiry() {
    let now = 1_700_000_000;
    assert!(!should_refresh_token(&auth(now - 100, None), now));
}

#[test]
fn refresh_begins_at_the_leeway_before_the_expiry() {
    let now = 1_700_000_000;
    assert_eq!(TOKEN_REFRESH_LEEWAY, 120);
    assert!(should_refresh_token(&auth(now - 100, Some(now + 120)), now));
    assert!(!should_refresh_token(&auth(now - 100, Some(now + 121)), now));
}

#[test]
fn refresh_begins_at_the_minimum_interval_after_the_last() {
    let now = 1_700_000_000;
    assert_eq!(TOKEN_REFRESH_MIN_INTERVAL, 30);
    assert!(should_refresh_token(&auth(now - 30, Some(now)), now));
    assert!(!should_refresh_token(&auth(now - 29, Some(now)), now));
}

#[test]
fn refresh_is_decided_without_overflow_at_the_ends_of_the_range() {
    assert!(should_refresh_token(&auth(i64::MIN, Some(i64::MIN)), i64::MAX));
    assert!(!should_refresh_token(&auth(i64::MAX, Some(i64::MAX)), i64::MIN));
    assert!(!should_refresh_token(&auth(i64::MAX, Some(i64::MIN)), 0));
}

#[test]
fn expiry_is_read_from_the_second_segment() {
    assert_eq!(decode_jwt_exp(&token_with_payload("{\"exp\":1700000000}")), Some(1_700_000_000));
    assert_eq!(
        decode_jwt_exp(&token_with_payload("{\"sub\":\"admin\",\"exp\":42}")),
        Some(42)
    );
}

#[test]
fn expiry_is_read_whatever_padding_the_segment_needs() {
    for payload in ["{\"exp\":1}", "{\"exp\":12}", "{\"exp\":123}", "{\"exp\":1234}"] {
        let expected: i64 = payload[7..payload.len() - 1].parse().unwrap();
        assert_eq!(decode_jwt_exp(&token_with_payload(payload)), Some(expected));
    }
}

#[test]
fn expiry_is_read_from_a_token_of_two_segments() {
    let encoded = base64::engine::general_purpose::URL_SAFE_NO_PAD.encode("{\"exp\":7}");
    assert_eq!(decode_jwt_exp(&format!("h.{}", encoded)), Some(7));
}

#[test]
fn a_token_that_is_not_so_made_claims_no_expiry() {
    assert_eq!(decode_jwt_exp(""), None);
    assert_eq!(decode_jwt_exp("no-dots-here"), None);
    assert_eq!(decode_jwt_exp("a.!!!.c"), None);
    assert_eq!(decode_jwt_exp("a..c"), None);
    assert_eq!(decode_jwt_exp(&token_with_payload("not json")), None);
    assert_eq!(decode_jwt_exp(&token_with_payload("{\"sub\":\"admin\"}")), None);
    assert_eq!(decode_jwt_exp(&token_with_payload("{\"exp\":\"soon\"}")), None);
    assert_eq!(decode_jwt_exp(&token_with_payload("{\"exp\":1.5}")), None);
    assert_eq!(decode_jwt_exp(&token_with_payload("[1]")), None);
}

#[test]
fn a_new_session_is_stamped_and_holds_the_expiry() {
    let token = token_with_payload("{\"exp\":99}");
    let s = new_session(&token, Some("admin"), 50);
    assert_eq!(s.mode, "token");
    assert_eq!(s.token, token);
    assert_eq!(s.updated_at, 50);
    assert_eq!(s.username, Some("admin".to_string()));
    assert_eq!(s.token_exp, Some(99));
    let plain = new_session("opaque", None, 51);
    assert_eq!(plain.username, None);
    assert_eq!(plain.token_exp, None);
}
