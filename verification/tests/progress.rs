use ploneapi_shell::progress::ProgressState;

#[test]
fn progress_starts_empty() {
    let p = ProgressState::new();
    assert_eq!((p.current, p.total, p.message.as_str()), (0, 0, ""));
    let p = ProgressState::starting();
    assert_eq!((p.current, p.total, p.message.as_str()), (0, 0, "Starting..."));
}

#[test]
fn the_total_is_set_with_its_message() {
    let mut p = ProgressState::starting();
    p.set_total(250);
    assert_eq!((p.current, p.total, p.message.as_str()), (0, 250, "Processing 250 tags..."));
}

#[test]
fn comparing_and_completed_name_their_numbers() {
    let p = ProgressState::comparing(20, 1000);
    assert_eq!((p.current, p.total, p.message.as_str()), (20, 1000, "Comparing tags: 20/1000"));
    let p = ProgressState::completed(37, 4);
    assert_eq!((p.current, p.total, p.message.as_str()), (37, 37, "Found 4 similar pairs"));
}
