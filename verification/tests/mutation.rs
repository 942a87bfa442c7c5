use ploneapi_shell::mutation::{
    absorb_items, build_preview, item_path, proposed_tags, put_item, read_item, BulkMutation,
    MatchedItem, MutationResult, MutationStep, PreviewEntry,
};

fn texts(list: &[&str]) -> Vec<String> {
    list.iter().map(|s| s.to_string()).collect()
}

fn item(id: &str, tags: &[&str]) -> serde_json::Value {
    let mut m = serde_json::Map::new();
    m.insert("@id".to_string(), serde_json::Value::String(id.to_string()));
    m.insert("title".to_string(), serde_json::Value::String(format!("Title of {}", id)));
    m.insert(
        "subjects".to_string(),
        serde_json::Value::Array(
            tags.iter().map(|t| serde_json::Value::String(t.to_string())).collect(),
        ),
    );
    serde_json::Value::Object(m)
}

fn finished(step: MutationStep) -> MutationResult {
    match step {
        MutationStep::Finished(result) => result,
        other => panic!("not finished: {:?}", other),
    }
}

const BASE: &str = "https://host/api/";

/// The items of `repository` that carry `subject`, as a search gives them.
fn search(repository: &[serde_json::Value], subject: &str) -> Vec<serde_json::Value> {
    repository
        .iter()
        .filter(|item| {
            item["subjects"].as_array().unwrap().iter().any(|t| t.as_str() == Some(subject))
        })
        .cloned()
        .collect()
}

#[test]
fn merge_dry_run_shows_what_would_change_and_writes_nothing() {
    let repository = vec![
        item("https://host/api/a", &["py"]),
        item("https://host/api/b", &["python"]),
        item("https://host/api/c", &["other"]),
    ];
    let mut m = BulkMutation::merge(
        texts(&["py", "python"]),
        "Python".to_string(),
        true,
        BASE.to_string(),
    );
    assert_eq!(m.step(), MutationStep::Search { subject: "py".to_string() });
    m.search_done(&search(&repository, "py"));
    assert_eq!(m.step(), MutationStep::Search { subject: "python".to_string() });
    m.search_done(&search(&repository, "python"));
    let result = finished(m.step());
    assert_eq!(result.items, 2);
    assert_eq!(result.updated, 0);
    assert_eq!(result.errors, 0);
    assert!(result.dry_run);
    assert_eq!(result.message, None);
    assert_eq!(
        result.preview,
        vec![
            PreviewEntry {
                title: Some("Title of https://host/api/a".to_string()),
                current: texts(&["py"]),
                updated: texts(&["Python"]),
            },
            PreviewEntry {
                title: Some("Title of https://host/api/b".to_string()),
                current: texts(&["python"]),
                updated: texts(&["Python"]),
            },
        ]
    );
    for entry in &result.preview {
        assert!(entry.updated.contains(&"Python".to_string()));
        assert!(!entry.updated.contains(&"py".to_string()));
        assert!(!entry.updated.contains(&"python".to_string()));
    }
}

#[test]
fn remove_writes_the_tags_that_are_left() {
    let mut m = BulkMutation::remove("deprecated".to_string(), false, BASE.to_string());
    assert_eq!(m.step(), MutationStep::Search { subject: "deprecated".to_string() });
    m.search_done(&vec![item("https://host/api/folder/doc", &["deprecated", "keep"])]);
    assert_eq!(
        m.step(),
        MutationStep::Update { path: "folder/doc".to_string(), subjects: texts(&["keep"]) }
    );
    m.update_done(true);
    let result = finished(m.step());
    assert_eq!((result.updated, result.errors, result.items), (1, 0, 1));
    assert!(!result.dry_run);
    assert_eq!(result.preview[0].updated, texts(&["keep"]));
}

#[test]
fn a_failed_write_is_counted_and_the_others_go_on() {
    let mut m = BulkMutation::remove("old".to_string(), false, BASE.to_string());
    m.search_done(&vec![
        item("https://host/api/a", &["old"]),
        item("https://host/api/b", &["old", "x"]),
        item("https://host/api/c", &["y", "old"]),
    ]);
    assert_eq!(m.step(), MutationStep::Update { path: "a".to_string(), subjects: texts(&[]) });
    m.update_done(true);
    assert_eq!(m.step(), MutationStep::Update { path: "b".to_string(), subjects: texts(&["x"]) });
    m.update_done(false);
    assert_eq!(m.step(), MutationStep::Update { path: "c".to_string(), subjects: texts(&["y"]) });
    m.update_done(true);
    let result = finished(m.step());
    assert_eq!((result.updated, result.errors, result.items), (2, 1, 3));
}

#[test]
fn rename_is_a_merge_with_one_source() {
    let mut m =
        BulkMutation::rename("py".to_string(), "Python".to_string(), false, BASE.to_string());
    assert_eq!(m.step(), MutationStep::Search { subject: "py".to_string() });
    m.search_done(&vec![item("https://host/api/a", &["py", "Python", "web"])]);
    assert_eq!(
        m.step(),
        MutationStep::Update { path: "a".to_string(), subjects: texts(&["Python", "web"]) }
    );
}

#[test]
fn a_change_that_finds_nothing_says_so() {
    let mut m = BulkMutation::merge(texts(&["a"]), "b".to_string(), false, BASE.to_string());
    m.search_done(&Vec::new());
    let result = finished(m.step());
    assert_eq!((result.updated, result.errors, result.items), (0, 0, 0));
    assert_eq!(result.message, Some("No matching items found.".to_string()));
    assert!(result.preview.is_empty());
    assert!(!result.dry_run);
}

#[test]
fn a_merge_without_sources_is_finished_at_once() {
    let m = BulkMutation::merge(Vec::new(), "b".to_string(), true, BASE.to_string());
    let result = finished(m.step());
    assert_eq!(result.items, 0);
    assert!(result.dry_run);
    assert_eq!(result.message, Some("No matching items found.".to_string()));
}

#[test]
fn an_item_found_for_two_sources_is_taken_once() {
    let both = item("https://host/api/a", &["py", "python"]);
    let mut m = BulkMutation::merge(
        texts(&["py", "python"]),
        "Python".to_string(),
        false,
        BASE.to_string(),
    );
    m.search_done(&vec![both.clone(), item("https://host/api/b", &["py"])]);
    m.search_done(&vec![both]);
    assert_eq!(
        m.step(),
        MutationStep::Update { path: "a".to_string(), subjects: texts(&["Python"]) }
    );
    m.update_done(true);
    m.update_done(true);
    let result = finished(m.step());
    assert_eq!((result.updated, result.errors, result.items), (2, 0, 2));
}

#[test]
fn a_change_tells_how_many_items_each_search_returned() {
    let mut m = BulkMutation::merge(
        texts(&["py", "python", "none", "py"]),
        "Python".to_string(),
        true,
        BASE.to_string(),
    );
    m.search_done(&vec![item("https://host/api/a", &["py"]), item("https://host/api/b", &["py"])]);
    m.search_done(&vec![item("https://host/api/b", &["python"])]);
    m.search_failed();
    m.search_done(&vec![item("https://host/api/a", &["py"])]);
    let result = finished(m.step());
    assert_eq!(result.items, 2);
    assert_eq!(result.tag_counts, vec![("py".to_string(), 1), ("python".to_string(), 1)]);

    let mut m = BulkMutation::remove("old".to_string(), true, BASE.to_string());
    m.search_done(&Vec::new());
    assert_eq!(finished(m.step()).tag_counts, vec![("old".to_string(), 0)]);
}

#[test]
fn a_failed_search_is_passed_over_in_a_merge() {
    let mut m = BulkMutation::merge(
        texts(&["py", "python"]),
        "Python".to_string(),
        true,
        BASE.to_string(),
    );
    m.search_failed();
    assert_eq!(m.step(), MutationStep::Search { subject: "python".to_string() });
    m.search_done(&vec![item("https://host/api/b", &["python"])]);
    assert_eq!(finished(m.step()).items, 1);
}

#[test]
fn a_failed_search_ends_a_removal() {
    let mut m = BulkMutation::remove("old".to_string(), false, BASE.to_string());
    m.search_failed();
    assert_eq!(m.step(), MutationStep::Failed);
    m.search_done(&vec![item("https://host/api/a", &["old"])]);
    m.update_done(true);
    assert_eq!(m.step(), MutationStep::Failed);
}

#[test]
fn reports_that_are_not_awaited_change_nothing() {
    let mut m = BulkMutation::remove("old".to_string(), false, BASE.to_string());
    m.update_done(true);
    assert_eq!(m.step(), MutationStep::Search { subject: "old".to_string() });
    m.search_done(&vec![item("https://host/api/a", &["old"])]);
    m.search_done(&vec![item("https://host/api/b", &["old"])]);
    m.search_failed();
    assert_eq!(m.step(), MutationStep::Update { path: "a".to_string(), subjects: texts(&[]) });
    m.update_done(false);
    m.update_done(false);
    let result = finished(m.step());
    assert_eq!((result.updated, result.errors, result.items), (0, 1, 1));
}

#[test]
fn the_preview_shows_ten_items_at_most_and_the_change_goes_over_all() {
    let found: Vec<serde_json::Value> =
        (0..12).map(|i| item(&format!("https://host/api/{}", i), &["old"])).collect();
    let mut m = BulkMutation::remove("old".to_string(), false, BASE.to_string());
    m.search_done(&found);
    for i in 0..12 {
        assert_eq!(
            m.step(),
            MutationStep::Update { path: format!("{}", i), subjects: Vec::new() }
        );
        m.update_done(true);
    }
    let result = finished(m.step());
    assert_eq!(result.preview.len(), 10);
    assert_eq!((result.updated, result.errors, result.items), (12, 0, 12));
}

#[test]
fn proposed_tags_take_the_removed_out_and_put_the_appended_last() {
    let none: Option<String> = None;
    assert_eq!(
        proposed_tags(&texts(&["a", "py", "b", "py"]), &texts(&["py"]), &none),
        texts(&["a", "b"])
    );
    assert_eq!(
        proposed_tags(&texts(&["a", "py"]), &texts(&["py"]), &Some("Python".to_string())),
        texts(&["a", "Python"])
    );
    assert_eq!(
        proposed_tags(&texts(&["Python", "py"]), &texts(&["py"]), &Some("Python".to_string())),
        texts(&["Python"])
    );
    assert_eq!(
        proposed_tags(&texts(&["py", "x"]), &texts(&["py"]), &Some("py".to_string())),
        texts(&["x", "py"])
    );
    assert_eq!(proposed_tags(&texts(&[]), &texts(&["py"]), &Some("p".to_string())), texts(&["p"]));
}

#[test]
fn the_path_of_an_item_is_its_identifier_below_the_base() {
    assert_eq!(item_path("https://host/api/folder/doc", "https://host/api/"), "folder/doc");
    assert_eq!(item_path("https://host/api/folder/doc", "https://host/api"), "folder/doc");
    assert_eq!(item_path("https://host/api///doc", "https://host/api"), "doc");
    assert_eq!(item_path("https://other/doc", "https://host/api"), "https://other/doc");
    assert_eq!(item_path("ababc", "ab"), "c");
    assert_eq!(item_path("/doc", ""), "doc");
    assert_eq!(item_path("", "https://host"), "");
}

#[test]
fn an_item_is_read_with_its_identifier_title_and_tags() {
    let v: serde_json::Value = serde_json::from_str(
        "{\"@id\": \"u\", \"title\": \"T\", \"id\": \"i\", \"subjects\": [\"a\", 2, \"b\"]}",
    )
    .unwrap();
    assert_eq!(
        read_item(&v),
        Some(MatchedItem {
            id: "u".to_string(),
            title: Some("T".to_string()),
            subjects: texts(&["a", "b"]),
        })
    );
}

#[test]
fn the_title_of_an_item_falls_back_to_its_id() {
    let v: serde_json::Value = serde_json::from_str("{\"@id\": \"u\", \"id\": \"i\"}").unwrap();
    let read = read_item(&v).unwrap();
    assert_eq!(read.title, Some("i".to_string()));
    assert!(read.subjects.is_empty());
    let v: serde_json::Value =
        serde_json::from_str("{\"@id\": \"u\", \"title\": null, \"id\": \"i\"}").unwrap();
    assert_eq!(read_item(&v).unwrap().title, None);
    let v: serde_json::Value =
        serde_json::from_str("{\"@id\": \"u\", \"subjects\": 5}").unwrap();
    let read = read_item(&v).unwrap();
    assert_eq!(read.title, None);
    assert!(read.subjects.is_empty());
}

#[test]
fn the_tags_of_an_item_are_read_under_every_spelling_of_the_field() {
    let read = |text: &str| {
        let v: serde_json::Value = serde_json::from_str(text).unwrap();
        read_item(&v).unwrap().subjects
    };
    assert_eq!(read("{\"@id\": \"u\", \"Subject\": [\"py\", \"keep\"]}"), texts(&["py", "keep"]));
    assert_eq!(read("{\"@id\": \"u\", \"subject\": [\"a\"]}"), texts(&["a"]));
    assert_eq!(read("{\"@id\": \"u\", \"subjects\": [\"b\"]}"), texts(&["b"]));
    assert_eq!(read("{\"@id\": \"u\", \"subjects\": \"a\"}"), texts(&["a"]));
    assert_eq!(
        read("{\"@id\": \"u\", \"subjects\": [\"c\"], \"Subject\": [\"a\"]}"),
        texts(&["a"])
    );
}

#[test]
fn a_merge_keeps_the_tags_that_are_no_sources() {
    let found: serde_json::Value = serde_json::from_str(
        "{\"@id\": \"https://host/api/a\", \"Subject\": [\"py\", \"keep\"]}",
    )
    .unwrap();
    let mut m = BulkMutation::merge(texts(&["py"]), "Python".to_string(), true, BASE.to_string());
    m.search_done(&vec![found.clone()]);
    let result = finished(m.step());
    assert_eq!(result.preview.len(), 1);
    assert_eq!(result.preview[0].current, texts(&["py", "keep"]));
    assert_eq!(result.preview[0].updated, texts(&["keep", "Python"]));

    let mut m = BulkMutation::merge(texts(&["py"]), "Python".to_string(), false, BASE.to_string());
    m.search_done(&vec![found]);
    assert_eq!(
        m.step(),
        MutationStep::Update { path: "a".to_string(), subjects: texts(&["keep", "Python"]) }
    );
}

#[test]
fn a_removal_keeps_the_other_tags_of_an_item_tagged_under_the_capital_key() {
    let found: serde_json::Value = serde_json::from_str(
        "{\"@id\": \"https://host/api/doc\", \"Subject\": [\"deprecated\", \"keep\"]}",
    )
    .unwrap();
    let mut m = BulkMutation::remove("deprecated".to_string(), false, BASE.to_string());
    m.search_done(&vec![found]);
    assert_eq!(
        m.step(),
        MutationStep::Update { path: "doc".to_string(), subjects: texts(&["keep"]) }
    );
}

#[test]
fn a_result_without_an_identifier_is_no_item() {
    let v: serde_json::Value = serde_json::from_str("{\"title\": \"T\"}").unwrap();
    assert_eq!(read_item(&v), None);
    let v: serde_json::Value = serde_json::from_str("{\"@id\": 5}").unwrap();
    assert_eq!(read_item(&v), None);
    let mut items: Vec<MatchedItem> = Vec::new();
    absorb_items(&mut items, &vec![v, item("a", &["x"])]);
    assert_eq!(items.len(), 1);
    assert_eq!(items[0].id, "a");
}

#[test]
fn an_item_put_again_takes_the_place_of_the_first() {
    let mut items: Vec<MatchedItem> = Vec::new();
    let make = |id: &str, tag: &str| MatchedItem {
        id: id.to_string(),
        title: None,
        subjects: texts(&[tag]),
    };
    put_item(&mut items, make("a", "1"));
    put_item(&mut items, make("b", "2"));
    put_item(&mut items, make("a", "3"));
    assert_eq!(items, vec![make("a", "3"), make("b", "2")]);
}

#[test]
fn a_preview_lists_current_and_proposed_tags() {
    let items = vec![MatchedItem {
        id: "a".to_string(),
        title: None,
        subjects: texts(&["x", "old"]),
    }];
    let preview = build_preview(&items, &texts(&["old"]), &Some("new".to_string()));
    assert_eq!(
        preview,
        vec![PreviewEntry {
            title: None,
            current: texts(&["x", "old"]),
            updated: texts(&["x", "new"]),
        }]
    );
}
