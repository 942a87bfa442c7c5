use ploneapi_shell::json::{element_texts, member_integer, member_text};

#[test]
fn members_of_a_document_are_read_by_their_kind() {
    let v: serde_json::Value =
        serde_json::from_str("{\"token\": \"abc\", \"exp\": 12, \"big\": 18446744073709551615}")
            .unwrap();
    assert_eq!(member_text(&v, "token"), Some("abc".to_string()));
    assert_eq!(member_text(&v, "exp"), None);
    assert_eq!(member_text(&v, "none"), None);
    assert_eq!(member_integer(&v, "exp"), Some(12));
    assert_eq!(member_integer(&v, "big"), None);
    assert_eq!(member_integer(&v, "token"), None);
    let text: serde_json::Value = serde_json::from_str("\"token\"").unwrap();
    assert_eq!(member_text(&text, "token"), None);
}

#[test]
fn the_strings_of_an_array_are_read_in_order() {
    let v: Vec<serde_json::Value> =
        serde_json::from_str("[\"a\", 1, \"b\", {\"c\": \"d\"}, \"\"]").unwrap();
    assert_eq!(element_texts(&v), vec!["a".to_string(), "b".to_string(), String::new()]);
}
