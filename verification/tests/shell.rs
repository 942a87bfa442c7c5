use ploneapi_shell::gateway::listed_items;
use ploneapi_shell::shell::{
    capped_listing, change_directory, display_title, display_type, parse_command, path_display,
    split_words, CommandLine,
};
use ploneapi_shell::token::{expiry_claim, payload_text};

fn lines(list: &[&str]) -> Vec<String> {
    list.iter().map(|s| s.to_string()).collect()
}

#[test]
fn a_line_is_split_at_white_space() {
    assert_eq!(split_words("  ls   /news\tnow\u{a0}x "), lines(&["ls", "/news", "now", "x"]));
    assert_eq!(split_words("single"), lines(&["single"]));
    assert!(split_words("").is_empty());
    assert!(split_words(" \n\t ").is_empty());
}

#[test]
fn a_command_is_read_in_lowercase_with_its_arguments() {
    assert_eq!(
        parse_command("CD  /Plone/News"),
        Some(CommandLine { name: "cd".to_string(), args: lines(&["/Plone/News"]) })
    );
    assert_eq!(
        parse_command("similar-tags Python 80"),
        Some(CommandLine { name: "similar-tags".to_string(), args: lines(&["Python", "80"]) })
    );
    assert_eq!(parse_command("pwd"), Some(CommandLine { name: "pwd".to_string(), args: vec![] }));
    assert_eq!(parse_command("   "), None);
}

#[test]
fn two_dots_lead_to_the_directory_above() {
    assert_eq!(change_directory("a/b/c", ".."), "a/b");
    assert_eq!(change_directory("a/b/c///", ".."), "a/b");
    assert_eq!(change_directory("a", ".."), "");
    assert_eq!(change_directory("", ".."), "");
    assert_eq!(change_directory("/a", ".."), "");
    assert_eq!(change_directory("a//b", ".."), "a/");
}

#[test]
fn a_target_from_the_root_replaces_the_directory() {
    assert_eq!(change_directory("a/b", "/x/y"), "x/y");
    assert_eq!(change_directory("", "///x"), "x");
    assert_eq!(change_directory("a", "/"), "");
}

#[test]
fn any_other_target_is_taken_below_the_directory() {
    assert_eq!(change_directory("a/b", "c"), "a/b/c");
    assert_eq!(change_directory("a/b/", "c/d"), "a/b/c/d");
    assert_eq!(change_directory("", "c"), "c");
    assert_eq!(change_directory("a", "..."), "a/...");
    assert_eq!(change_directory("a", "../b"), "a/../b");
}

#[test]
fn the_root_is_shown_as_a_separator() {
    assert_eq!(path_display(""), "/");
    assert_eq!(path_display("a/b"), "a/b");
}

#[test]
fn a_listing_says_how_many_lines_it_leaves_out() {
    let all = lines(&["  a", "  b", "  c"]);
    assert_eq!(
        capped_listing("Found 3 items:".to_string(), &all, 2),
        lines(&["Found 3 items:", "  a", "  b", "  ... and 1 more"])
    );
    assert_eq!(
        capped_listing("Found 3 items:".to_string(), &all, 3),
        lines(&["Found 3 items:", "  a", "  b", "  c"])
    );
    assert_eq!(
        capped_listing("Found 3 items:".to_string(), &all, 0),
        lines(&["Found 3 items:", "  ... and 3 more"])
    );
    assert_eq!(capped_listing("None".to_string(), &Vec::new(), 5), lines(&["None"]));
}

#[test]
fn items_are_listed_by_title_and_type() {
    let item: serde_json::Value =
        serde_json::from_str("{\"title\": \"News\", \"id\": \"news\", \"@type\": \"Folder\"}")
            .unwrap();
    assert_eq!(display_title(&item), "News");
    assert_eq!(display_type(&item), "Folder");
    let item: serde_json::Value = serde_json::from_str("{\"id\": \"news\"}").unwrap();
    assert_eq!(display_title(&item), "news");
    assert_eq!(display_type(&item), "unknown");
    let item: serde_json::Value =
        serde_json::from_str("{\"title\": 5, \"id\": \"news\", \"@type\": null}").unwrap();
    assert_eq!(display_title(&item), "untitled");
    assert_eq!(display_type(&item), "unknown");
}

#[test]
fn a_document_that_has_to_hold_items_is_told_from_one_that_does_not() {
    let doc: serde_json::Value = serde_json::from_str("{\"items\": [1, 2]}").unwrap();
    assert_eq!(listed_items(&doc).map(|items| items.len()), Some(2));
    let doc: serde_json::Value = serde_json::from_str("{\"items\": []}").unwrap();
    assert_eq!(listed_items(&doc).map(|items| items.len()), Some(0));
    let doc: serde_json::Value = serde_json::from_str("{\"items\": {}}").unwrap();
    assert_eq!(listed_items(&doc), None);
    let doc: serde_json::Value = serde_json::from_str("{}").unwrap();
    assert_eq!(listed_items(&doc), None);
}

#[test]
fn the_second_segment_of_a_token_is_padded_to_a_multiple_of_four() {
    assert_eq!(payload_text("h.abcd.s"), Some("abcd".to_string()));
    assert_eq!(payload_text("h.abcde.s"), Some("abcde===".to_string()));
    assert_eq!(payload_text("h.abcdef.s"), Some("abcdef==".to_string()));
    assert_eq!(payload_text("h.abcdefg.s"), Some("abcdefg=".to_string()));
    assert_eq!(payload_text("h.abc"), Some("abc=".to_string()));
    assert_eq!(payload_text("h..s"), Some(String::new()));
    assert_eq!(payload_text("h."), Some(String::new()));
    assert_eq!(payload_text("h.\u{e9}.s"), Some("\u{e9}==".to_string()));
    assert_eq!(payload_text("header"), None);
    assert_eq!(payload_text(""), None);
}

#[test]
fn the_expiry_is_the_integer_member_of_the_claims() {
    assert_eq!(expiry_claim(b"{\"exp\": 1700000000}"), Some(1_700_000_000));
    assert_eq!(expiry_claim(b"{\"exp\": -3}"), Some(-3));
    assert_eq!(expiry_claim(b"{\"exp\": 9223372036854775808}"), None);
    assert_eq!(expiry_claim(b"{\"exp\": \"1\"}"), None);
    assert_eq!(expiry_claim(b"{}"), None);
    assert_eq!(expiry_claim(b"exp"), None);
}
