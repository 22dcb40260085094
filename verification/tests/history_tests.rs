use ghs::history::SearchHistory;

#[test]
fn add_search_deduplicates_and_fronts() {
    let mut h = SearchHistory::new(vec!["a".to_string(), "b".to_string(), "c".to_string()]);
    h.add_search("b".to_string());
    assert_eq!(h.searches, vec!["b", "a", "c"]);
}

#[test]
fn add_search_caps_at_one_hundred() {
    let mut h = SearchHistory::new((0..100).map(|i| format!("q{}", i)).collect());
    h.add_search("fresh".to_string());
    assert_eq!(h.searches.len(), 100);
    assert_eq!(h.searches[0], "fresh");
    assert_eq!(h.searches[99], "q98");
}

#[test]
fn selection_walks_and_clamps() {
    let mut h = SearchHistory::new(vec!["a".to_string(), "b".to_string()]);
    assert!(h.get_selected().is_none());
    h.select_next();
    assert_eq!(h.get_selected().map(String::as_str), Some("a"));
    h.select_next();
    assert_eq!(h.get_selected().map(String::as_str), Some("b"));
    h.select_next();
    assert_eq!(h.get_selected().map(String::as_str), Some("b"));
    h.select_prev();
    assert_eq!(h.get_selected().map(String::as_str), Some("a"));
    h.select_prev();
    assert_eq!(h.get_selected().map(String::as_str), Some("a"));
    h.clear_selection();
    assert!(h.get_selected().is_none());
}

#[test]
fn selection_on_empty_history_stays_empty() {
    let mut h = SearchHistory::new(Vec::new());
    h.select_next();
    assert!(h.get_selected().is_none());
    h.select_prev();
    assert!(h.get_selected().is_none());
}
