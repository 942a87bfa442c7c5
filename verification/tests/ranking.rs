use ploneapi_shell::ranking::{ranked_order, ranks_first, RankKey};

fn key(score: i32, count: usize, lower: &str) -> RankKey {
    RankKey { score, count, lower: lower.chars().collect() }
}

#[test]
fn keys_rank_by_score_then_count_then_name() {
    assert!(ranks_first(&key(90, 1, "z"), &key(80, 9, "a")));
    assert!(ranks_first(&key(80, 9, "z"), &key(80, 1, "a")));
    assert!(ranks_first(&key(80, 1, "a"), &key(80, 1, "b")));
    assert!(!ranks_first(&key(80, 1, "a"), &key(80, 1, "a")));
    assert!(!ranks_first(&key(-1, 1, "a"), &key(0, 1, "a")));
}

#[test]
fn the_ranked_order_is_stable() {
    let keys = vec![key(1, 1, "b"), key(2, 1, "a"), key(1, 1, "b"), key(1, 2, "c"), key(1, 1, "a")];
    assert_eq!(ranked_order(&keys), vec![1, 3, 4, 0, 2]);
    assert!(ranked_order(&Vec::new()).is_empty());
}
