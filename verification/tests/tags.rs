use ploneapi_shell::tags::{
    all_item_tags, collect_tag_counts, count_tags, item_tags, sorted_tag_counts, TagCount,
};

fn items(text: &str) -> Vec<serde_json::Value> {
    serde_json::from_str::<Vec<serde_json::Value>>(text).unwrap()
}

fn tag(name: &str, count: usize) -> TagCount {
    TagCount { name: name.to_string(), count }
}

#[test]
fn no_items_give_no_counts() {
    assert!(collect_tag_counts(&Vec::new()).is_empty());
}

#[test]
fn a_tag_is_counted_once_per_occurrence() {
    let found = items("[{\"subject\": [\"a\", \"a\"]}, {\"subject\": \"a\"}]");
    assert_eq!(collect_tag_counts(&found), vec![tag("a", 3)]);
}

#[test]
fn counts_come_in_the_order_in_which_the_tags_first_occur() {
    let found = items(
        "[{\"Subject\": [\"x\", \"y\"]}, {\"Subject\": [\"z\", \"y\"]}, {\"Subject\": [\"x\"]}]",
    );
    assert_eq!(collect_tag_counts(&found), vec![tag("x", 2), tag("y", 2), tag("z", 1)]);
}

#[test]
fn the_first_spelling_of_the_subject_field_that_is_there_counts() {
    let item: serde_json::Value = serde_json::from_str(
        "{\"subjects\": [\"c\"], \"subject\": [\"b\"], \"Subject\": [\"a\"]}",
    )
    .unwrap();
    assert_eq!(item_tags(&item), vec!["a".to_string()]);
    let item: serde_json::Value =
        serde_json::from_str("{\"subjects\": [\"c\"], \"subject\": [\"b\"]}").unwrap();
    assert_eq!(item_tags(&item), vec!["b".to_string()]);
    let item: serde_json::Value = serde_json::from_str("{\"subjects\": [\"c\"]}").unwrap();
    assert_eq!(item_tags(&item), vec!["c".to_string()]);
}

#[test]
fn a_subject_field_that_holds_nothing_usable_still_counts_as_the_field() {
    let item: serde_json::Value =
        serde_json::from_str("{\"Subject\": null, \"subject\": [\"b\"]}").unwrap();
    assert!(item_tags(&item).is_empty());
    let item: serde_json::Value = serde_json::from_str("{\"Subject\": 5}").unwrap();
    assert!(item_tags(&item).is_empty());
}

#[test]
fn elements_that_are_no_strings_are_left_out() {
    let item: serde_json::Value =
        serde_json::from_str("{\"Subject\": [\"a\", 1, null, [\"x\"], \"b\"]}").unwrap();
    assert_eq!(item_tags(&item), vec!["a".to_string(), "b".to_string()]);
}

#[test]
fn an_item_without_a_subject_field_or_that_is_no_object_has_no_tags() {
    let item: serde_json::Value = serde_json::from_str("{\"title\": \"T\"}").unwrap();
    assert!(item_tags(&item).is_empty());
    let item: serde_json::Value = serde_json::from_str("[\"Subject\"]").unwrap();
    assert!(item_tags(&item).is_empty());
}

#[test]
fn the_tags_of_all_items_follow_one_another() {
    let found = items("[{\"Subject\": [\"a\", \"b\"]}, {}, {\"subject\": \"c\"}]");
    assert_eq!(
        all_item_tags(&found),
        vec!["a".to_string(), "b".to_string(), "c".to_string()]
    );
}

#[test]
fn tags_that_differ_in_case_are_counted_apart() {
    let flat = vec!["Python".to_string(), "python".to_string(), "Python".to_string()];
    assert_eq!(count_tags(&flat), vec![tag("Python", 2), tag("python", 1)]);
}

#[test]
fn a_listing_puts_the_higher_count_first_then_the_name_without_regard_to_case() {
    let counts = vec![tag("beta", 1), tag("Alpha", 1), tag("zeta", 5), tag("Gamma", 3)];
    assert_eq!(
        sorted_tag_counts(&counts),
        vec![tag("zeta", 5), tag("Gamma", 3), tag("Alpha", 1), tag("beta", 1)]
    );
}

#[test]
fn a_listing_keeps_the_order_of_tags_that_differ_only_in_case() {
    let counts = vec![tag("Web", 2), tag("web", 2), tag("WEB", 2)];
    assert_eq!(sorted_tag_counts(&counts), vec![tag("Web", 2), tag("web", 2), tag("WEB", 2)]);
    assert!(sorted_tag_counts(&Vec::new()).is_empty());
}
