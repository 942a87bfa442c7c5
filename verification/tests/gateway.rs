use ploneapi_shell::config::{AuthData, Config};
use ploneapi_shell::error::APIError;
use ploneapi_shell::gateway::{
    login_request, read_response, renew_request, request_failed, resolve_url, search_items,
    search_response, set_pair, tags_response, write_response, APIClient, BodyValue, Method,
    Request,
};

fn header<'a>(request: &'a Request, key: &str) -> Option<&'a str> {
    request.headers.iter().find(|(k, _)| k == key).map(|(_, v)| v.as_str())
}

fn param<'a>(request: &'a Request, key: &str) -> Option<&'a str> {
    request.params.iter().find(|(k, _)| k == key).map(|(_, v)| v.as_str())
}

fn session(token: &str) -> AuthData {
    AuthData {
        mode: "token".to_string(),
        token: token.to_string(),
        updated_at: 1_000,
        username: Some("admin".to_string()),
        token_exp: None,
    }
}

fn client(base: &str, auth: Option<AuthData>) -> APIClient {
    APIClient::with_config(Config { base: base.to_string(), auth })
}

#[test]
fn resolve_joins_base_and_path_with_one_separator() {
    assert_eq!(resolve_url(Some("/foo"), "https://host/api/"), "https://host/api/foo");
}

#[test]
fn resolve_leaves_absolute_addresses_alone() {
    assert_eq!(resolve_url(Some("https://other/x"), "https://host/api/"), "https://other/x");
    assert_eq!(resolve_url(Some("http://other/x"), "https://host/api/"), "http://other/x");
}

#[test]
fn resolve_trims_every_separator_at_the_joint() {
    assert_eq!(resolve_url(Some("///a/b/"), "https://host/api///"), "https://host/api/a/b/");
    assert_eq!(resolve_url(Some("a"), "https://host/api"), "https://host/api/a");
}

#[test]
fn resolve_without_a_path_gives_the_base_with_one_separator() {
    assert_eq!(resolve_url(None, "https://host/api/"), "https://host/api/");
    assert_eq!(resolve_url(Some(""), "https://host/api"), "https://host/api/");
}

#[test]
fn resolve_takes_an_address_for_absolute_only_by_its_scheme() {
    assert_eq!(resolve_url(Some("httpx://a"), "https://h"), "https://h/httpx://a");
    assert_eq!(resolve_url(Some("HTTP://a"), "https://h"), "https://h/HTTP://a");
}

#[test]
fn set_pair_replaces_the_value_under_a_key() {
    let mut pairs: Vec<(String, String)> = Vec::new();
    set_pair(&mut pairs, "a".to_string(), "1".to_string());
    set_pair(&mut pairs, "b".to_string(), "2".to_string());
    set_pair(&mut pairs, "a".to_string(), "3".to_string());
    assert_eq!(
        pairs,
        vec![("a".to_string(), "3".to_string()), ("b".to_string(), "2".to_string())]
    );
}

#[test]
fn fetch_request_sends_the_token_of_the_session() {
    let c = client("https://host/api/", Some(session("abc")));
    let r = c.fetch_request(Some("folder"), None, None, false);
    assert_eq!(r.method, Method::Get);
    assert_eq!(r.url, "https://host/api/folder");
    assert_eq!(header(&r, "Authorization"), Some("Bearer abc"));
    assert_eq!(r.headers.len(), 1);
    assert!(r.params.is_empty());
    assert!(r.body.is_empty());
}

#[test]
fn fetch_request_goes_without_the_token_when_asked() {
    let c = client("https://host/api/", Some(session("abc")));
    let r = c.fetch_request(Some("folder"), None, None, true);
    assert_eq!(header(&r, "Authorization"), None);
}

#[test]
fn fetch_request_sends_no_token_without_a_session() {
    let c = client("https://host/api/", None);
    let r = c.fetch_request(None, None, None, false);
    assert!(r.headers.is_empty());
    assert_eq!(r.url, "https://host/api/");
}

#[test]
fn fetch_request_sends_no_token_of_another_mode_or_an_empty_one() {
    let mut basic = session("abc");
    basic.mode = "basic".to_string();
    let r = client("https://h/", Some(basic)).fetch_request(None, None, None, false);
    assert!(r.headers.is_empty());
    let r = client("https://h/", Some(session(""))).fetch_request(None, None, None, false);
    assert!(r.headers.is_empty());
}

#[test]
fn caller_headers_replace_those_of_the_gateway() {
    let c = client("https://host/api/", Some(session("abc")));
    let custom = vec![
        ("Authorization".to_string(), "Basic xyz".to_string()),
        ("X-Trace".to_string(), "1".to_string()),
    ];
    let params = vec![("b_size".to_string(), "5".to_string())];
    let r = c.fetch_request(Some("a"), Some(custom), Some(params), false);
    assert_eq!(header(&r, "Authorization"), Some("Basic xyz"));
    assert_eq!(header(&r, "X-Trace"), Some("1"));
    assert_eq!(r.headers.len(), 2);
    assert_eq!(param(&r, "b_size"), Some("5"));
}

#[test]
fn post_and_patch_requests_say_that_they_carry_json() {
    let c = client("https://host/api/", Some(session("abc")));
    let post = c.post_request(Some("a"), None, false);
    assert_eq!(post.method, Method::Post);
    assert_eq!(header(&post, "Content-Type"), Some("application/json"));
    assert_eq!(header(&post, "Accept"), None);
    assert_eq!(header(&post, "Authorization"), Some("Bearer abc"));
    let patch = c.patch_request(Some("a"), None, false);
    assert_eq!(patch.method, Method::Patch);
    assert_eq!(header(&patch, "Content-Type"), Some("application/json"));
    assert_eq!(header(&patch, "Accept"), Some("application/json"));
}

#[test]
fn search_requests_ask_for_a_page_of_a_thousand() {
    let c = client("https://host/api/", Some(session("abc")));
    let by_type = c.search_by_type_request("Document", Some("/news"), false);
    assert_eq!(by_type.url, "https://host/api/@search");
    assert_eq!(param(&by_type, "portal_type"), Some("Document"));
    assert_eq!(param(&by_type, "b_size"), Some("1000"));
    assert_eq!(param(&by_type, "path"), Some("/news"));
    assert_eq!(header(&by_type, "Authorization"), Some("Bearer abc"));
    let by_subject = c.search_by_subject_request("python", None, true);
    assert_eq!(param(&by_subject, "Subject"), Some("python"));
    assert_eq!(param(&by_subject, "b_size"), Some("1000"));
    assert_eq!(param(&by_subject, "path"), None);
    assert!(by_subject.headers.is_empty());
}

#[test]
fn all_tags_request_asks_for_all_metadata_fields() {
    let c = client("https://host/api/", None);
    let r = c.all_tags_request(Some("docs"), false).unwrap();
    assert_eq!(r.url, "https://host/api/@search");
    assert_eq!(param(&r, "b_size"), Some("1000"));
    assert_eq!(param(&r, "metadata_fields"), Some("_all"));
    assert_eq!(param(&r, "path"), Some("docs"));
    assert_eq!(r.params.len(), 3);
}

#[test]
fn all_tags_request_needs_a_base_endpoint() {
    let c = client("", None);
    assert_eq!(c.all_tags_request(None, false), Err(APIError::Unauthenticated));
}

#[test]
fn update_item_subjects_request_carries_the_tags() {
    let c = client("https://host/api/", Some(session("abc")));
    let r = c.update_item_subjects_request("folder/doc", vec!["keep".to_string()], false);
    assert_eq!(r.method, Method::Patch);
    assert_eq!(r.url, "https://host/api/folder/doc");
    assert_eq!(r.body, vec![("Subject".to_string(), BodyValue::List(vec!["keep".to_string()]))]);
    assert_eq!(header(&r, "Authorization"), Some("Bearer abc"));
    assert_eq!(header(&r, "Accept"), Some("application/json"));
}

#[test]
fn login_request_carries_the_credentials() {
    let r = login_request("https://host/api", "admin", "secret");
    assert_eq!(r.method, Method::Post);
    assert_eq!(r.url, "https://host/api/@login");
    assert_eq!(
        r.body,
        vec![
            ("login".to_string(), BodyValue::Text("admin".to_string())),
            ("password".to_string(), BodyValue::Text("secret".to_string())),
        ]
    );
    assert_eq!(header(&r, "Authorization"), None);
}

#[test]
fn renew_request_carries_the_current_token() {
    let r = renew_request("https://host/api/", "old");
    assert_eq!(r.method, Method::Post);
    assert_eq!(r.url, "https://host/api/@login-renew");
    assert_eq!(header(&r, "Authorization"), Some("Bearer old"));
    assert!(r.body.is_empty());
}

#[test]
fn read_response_hands_out_the_document() {
    let (url, doc) = read_response("https://h/a".to_string(), 200, b"{\"title\": \"T\"}").unwrap();
    assert_eq!(url, "https://h/a");
    assert_eq!(doc.get("title").and_then(|v| v.as_str()), Some("T"));
}

#[test]
fn read_response_reports_a_status_outside_the_two_hundreds() {
    for status in [199u16, 300, 404, 500] {
        assert_eq!(
            read_response("https://h/a".to_string(), status, b"{}"),
            Err(APIError::HttpStatus(status, "https://h/a".to_string()))
        );
    }
    assert!(read_response("https://h/a".to_string(), 299, b"{}").is_ok());
}

#[test]
fn read_response_reports_a_body_that_is_no_json() {
    assert_eq!(
        read_response("https://h/a".to_string(), 200, b"<html>"),
        Err(APIError::InvalidJson)
    );
}

#[test]
fn write_response_puts_up_with_a_body_that_is_no_json() {
    let (url, doc) = write_response("https://h/a".to_string(), 204, b"").unwrap();
    assert_eq!(url, "https://h/a");
    assert!(doc.as_object().unwrap().is_empty());
    let (_, doc) = write_response("https://h/a".to_string(), 200, b"{\"ok\": true}").unwrap();
    assert_eq!(doc.get("ok").and_then(|v| v.as_bool()), Some(true));
    assert_eq!(
        write_response("https://h/a".to_string(), 403, b""),
        Err(APIError::HttpStatus(403, "https://h/a".to_string()))
    );
}

#[test]
fn request_failed_names_the_address_and_the_cause() {
    let e = request_failed("https://h/a".to_string(), "timed out".to_string());
    assert_eq!(e, APIError::RequestError("https://h/a".to_string(), "timed out".to_string()));
    assert_eq!(e.message(), "Unable to reach https://h/a: timed out");
}

#[test]
fn search_items_are_the_elements_of_the_items_array() {
    let doc: serde_json::Value =
        serde_json::from_str("{\"items\": [{\"@id\": \"a\"}, {\"@id\": \"b\"}]}").unwrap();
    let items = search_items(&doc);
    assert_eq!(items.len(), 2);
    assert_eq!(items[1].get("@id").and_then(|v| v.as_str()), Some("b"));
    let none: serde_json::Value = serde_json::from_str("{\"items\": \"x\"}").unwrap();
    assert!(search_items(&none).is_empty());
    let absent: serde_json::Value = serde_json::from_str("{}").unwrap();
    assert!(search_items(&absent).is_empty());
}

#[test]
fn search_response_gives_the_items_or_the_error() {
    let items = search_response("u".to_string(), 200, b"{\"items\": [1, 2, 3]}").unwrap();
    assert_eq!(items.len(), 3);
    assert!(search_response("u".to_string(), 200, b"{}").unwrap().is_empty());
    assert_eq!(search_response("u".to_string(), 200, b"oops"), Err(APIError::InvalidJson));
    assert_eq!(
        search_response("u".to_string(), 401, b"{\"items\": []}"),
        Err(APIError::HttpStatus(401, "u".to_string()))
    );
}

#[test]
fn tags_response_counts_the_tags_of_the_items() {
    let body = b"{\"items\": [{\"Subject\": [\"a\", \"b\"]}, {\"Subject\": [\"a\"]}]}";
    let counts = tags_response("u".to_string(), 200, body).unwrap();
    assert_eq!(counts.len(), 2);
    assert_eq!((counts[0].name.as_str(), counts[0].count), ("a", 2));
    assert_eq!((counts[1].name.as_str(), counts[1].count), ("b", 1));
    assert!(tags_response("u".to_string(), 200, b"{\"items\": []}").unwrap().is_empty());
    assert_eq!(tags_response("u".to_string(), 200, b"["), Err(APIError::InvalidJson));
}

#[test]
fn login_response_replaces_endpoint_and_session() {
    let mut c = client("https://old/", Some(session("old")));
    let doc = c
        .login_response(
            "https://new/api",
            "editor",
            "https://new/api/@login".to_string(),
            200,
            b"{\"token\": \"fresh\"}",
            5_000,
        )
        .unwrap();
    assert_eq!(doc.get("token").and_then(|v| v.as_str()), Some("fresh"));
    assert_eq!(c.config.base, "https://new/api");
    assert_eq!(
        c.config.auth,
        Some(AuthData {
            mode: "token".to_string(),
            token: "fresh".to_string(),
            updated_at: 5_000,
            username: Some("editor".to_string()),
            token_exp: None,
        })
    );
}

#[test]
fn login_response_without_a_token_leaves_the_session() {
    let mut c = client("https://old/", Some(session("old")));
    let r = c.login_response("https://new/", "editor", "u".to_string(), 200, b"{}", 5_000);
    assert_eq!(r, Err(APIError::Other("Login response did not include a token".to_string())));
    assert_eq!(c.config.base, "https://old/");
    assert_eq!(c.config.auth, Some(session("old")));
}

#[test]
fn login_response_that_failed_leaves_the_session() {
    let mut c = client("https://old/", Some(session("old")));
    let r = c.login_response("https://new/", "editor", "u".to_string(), 401, b"{}", 5_000);
    assert_eq!(r, Err(APIError::HttpStatus(401, "u".to_string())));
    let r = c.login_response("https://new/", "editor", "u".to_string(), 200, b"no", 5_000);
    assert_eq!(r, Err(APIError::InvalidJson));
    assert_eq!(c.config.base, "https://old/");
    assert_eq!(c.config.auth, Some(session("old")));
}

#[test]
fn renew_response_replaces_the_session_and_keeps_the_endpoint() {
    let mut c = client("https://host/", Some(session("old")));
    let token = c.renew_response(200, b"{\"token\": \"fresh\"}", Some("admin"), 7_000);
    assert_eq!(token, Some("fresh".to_string()));
    assert_eq!(c.config.base, "https://host/");
    let auth = c.config.auth.unwrap();
    assert_eq!(auth.token, "fresh");
    assert_eq!(auth.updated_at, 7_000);
    assert_eq!(auth.username, Some("admin".to_string()));
}

#[test]
fn renew_response_that_failed_leaves_the_session() {
    let mut c = client("https://host/", Some(session("old")));
    assert_eq!(c.renew_response(500, b"{\"token\": \"fresh\"}", None, 7_000), None);
    assert_eq!(c.renew_response(200, b"not json", None, 7_000), None);
    assert_eq!(c.renew_response(200, b"{\"token\": 5}", None, 7_000), None);
    assert_eq!(c.config.auth, Some(session("old")));
}

#[test]
fn set_base_url_drops_the_session() {
    let mut c = client("https://old/", Some(session("old")));
    c.set_base_url("https://new/".to_string());
    assert_eq!(c.get_base_url(), "https://new/");
    assert_eq!(c.config.auth, None);
}

#[test]
fn delete_config_drops_the_session_and_keeps_the_endpoint() {
    let mut c = client("https://old/", Some(session("old")));
    c.delete_config();
    assert_eq!(c.get_base_url(), "https://old/");
    assert_eq!(c.config.auth, None);
}

#[test]
fn renewal_due_needs_a_session() {
    assert!(!client("https://h/", None).renewal_due(10_000));
    let mut a = session("t");
    a.token_exp = Some(9_999);
    a.updated_at = 9_900;
    assert!(client("https://h/", Some(a)).renewal_due(10_000));
}
