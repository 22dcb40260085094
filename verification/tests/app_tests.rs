use ghs::api::{CodeResultsWithPagination, PaginationInfo};
use ghs::app::{App, AppEffect, AppMessage, AppState, Screen, SearchState};
use ghs::keys::{Key, KeyPress};
use ghs::results::{CodeResults, ItemRepository, ItemResult, RepositoryOwner};

fn plain(code: Key) -> KeyPress {
    KeyPress { code, ctrl: false }
}

fn ctrl(code: Key) -> KeyPress {
    KeyPress { code, ctrl: true }
}

fn item(name: &str) -> ItemResult {
    ItemResult {
        name: name.to_string(),
        path: name.to_string(),
        html_url: format!("https://x/{}", name),
        text_matches: Vec::new(),
        repository: ItemRepository {
            name: "r".to_string(),
            full_name: "org/r".to_string(),
            owner: RepositoryOwner {
                login: "org".to_string(),
            },
        },
    }
}

fn page(names: Vec<&str>, next: Option<&str>) -> CodeResultsWithPagination {
    CodeResultsWithPagination {
        results: CodeResults {
            items: names.into_iter().map(item).collect(),
        },
        pagination: Some(PaginationInfo {
            prev: None,
            next: next.map(str::to_string),
            first: None,
            last: None,
        }),
    }
}

fn names(state: &SearchState) -> Vec<String> {
    match state {
        SearchState::Loaded { results, .. } | SearchState::LoadingMore { results, .. } => {
            results.items.iter().map(|i| i.name.clone()).collect()
        }
        _ => Vec::new(),
    }
}

#[test]
fn submit_enters_loading_and_results_screen() {
    let mut app = App::new();
    let mut scr = AppState::default();
    for c in "  rust  ".chars() {
        app.handle_key(plain(Key::Char(c)), &mut scr);
    }
    let eff = app.handle_key(plain(Key::Enter), &mut scr);
    match eff {
        Some(AppEffect::StartSearch { query }) => assert_eq!(query, "rust"),
        _ => panic!("expected a search to start"),
    }
    assert!(matches!(app.search_state, SearchState::Loading { .. }));
    assert_eq!(scr.current_screen, Screen::SearchResults);
}

#[test]
fn empty_query_is_not_submitted() {
    let mut app = App::new();
    let mut scr = AppState::default();
    app.handle_key(plain(Key::Char(' ')), &mut scr);
    let eff = app.handle_key(plain(Key::Enter), &mut scr);
    assert!(eff.is_none());
    assert!(matches!(app.search_state, SearchState::Idle));
    assert_eq!(scr.current_screen, Screen::SearchPrompt);
}

#[test]
fn escape_asks_to_exit_from_the_prompt() {
    let mut app = App::new();
    let mut scr = AppState::default();
    app.handle_key(plain(Key::Esc), &mut scr);
    assert!(scr.should_exit);
}

#[test]
fn history_recall_fills_the_input() {
    let mut app = App::new();
    let mut scr = AppState::default();
    app.handle_message(AppMessage::HistoryLoaded {
        searches: vec!["older".to_string(), "oldest".to_string()],
    });
    app.handle_key(ctrl(Key::Char('j')), &mut scr);
    assert_eq!(app.input_state.input, "older");
    app.handle_key(ctrl(Key::Char('j')), &mut scr);
    assert_eq!(app.input_state.input, "oldest");
    app.handle_key(ctrl(Key::Char('k')), &mut scr);
    assert_eq!(app.input_state.input, "older");
}

#[test]
fn completed_search_loads_page_one_and_records_history() {
    let mut app = App::new();
    let eff = app.handle_message(AppMessage::SearchComplete {
        results: page(vec!["a", "b"], Some("next-url")),
        query: "rust".to_string(),
    });
    assert!(matches!(eff, Some(AppEffect::SaveHistory)));
    match &app.search_state {
        SearchState::Loaded {
            query,
            current_page,
            ..
        } => {
            assert_eq!(query, "rust");
            assert_eq!(*current_page, 1);
        }
        _ => panic!("expected a loaded state"),
    }
    assert_eq!(app.search_history.searches, vec!["rust"]);
}

#[test]
fn pagination_merge_appends_in_order() {
    let mut app = App::new();
    app.handle_message(AppMessage::SearchComplete {
        results: page(vec!["a", "b"], Some("next-url")),
        query: "rust".to_string(),
    });
    let eff = app.try_load_next_page();
    match eff {
        Some(AppEffect::FetchPage { query, page }) => {
            assert_eq!(query, "rust");
            assert_eq!(page, 2);
        }
        _ => panic!("expected a page fetch"),
    }
    assert!(matches!(app.search_state, SearchState::LoadingMore { .. }));
    app.handle_message(AppMessage::PaginationComplete {
        results: page(vec!["c", "d"], None),
        page: 2,
    });
    // Page one's items followed by page two's, in order, nothing
    // reordered or deduplicated.
    assert_eq!(names(&app.search_state), vec!["a", "b", "c", "d"]);
    match &app.search_state {
        SearchState::Loaded { current_page, .. } => assert_eq!(*current_page, 2),
        _ => panic!("expected a loaded state"),
    }
}

#[test]
fn stale_pagination_reply_is_ignored() {
    let mut app = App::new();
    let eff = app.handle_message(AppMessage::PaginationComplete {
        results: page(vec!["c"], None),
        page: 2,
    });
    assert!(eff.is_none());
    assert!(matches!(app.search_state, SearchState::Idle));
}

#[test]
fn no_next_link_means_no_fetch() {
    let mut app = App::new();
    app.handle_message(AppMessage::SearchComplete {
        results: page(vec!["a"], None),
        query: "rust".to_string(),
    });
    assert!(app.try_load_next_page().is_none());
    assert!(matches!(app.search_state, SearchState::Loaded { .. }));
}

#[test]
fn fetch_errors_are_fatal_effects() {
    let mut app = App::new();
    let eff = app.handle_message(AppMessage::SearchError {
        error: "boom".to_string(),
    });
    match eff {
        Some(AppEffect::Fatal { error }) => assert_eq!(error, "boom"),
        _ => panic!("expected a fatal effect"),
    }
}

#[test]
fn loading_states_report_loading() {
    let mut app = App::new();
    assert!(!app.search_state.is_loading());
    assert_eq!(app.search_state.num_results(), 0);
    app.handle_message(AppMessage::SearchComplete {
        results: page(vec!["a"], Some("n")),
        query: "q".to_string(),
    });
    assert!(!app.search_state.is_loading());
    app.try_load_next_page();
    assert!(app.search_state.is_loading());
}
