use ghs::buffers::{Canvas, Rect};
use ghs::keys::{Key, KeyPress};
use ghs::results::{CodeResults, ItemRepository, ItemResult, MatchSegment, RepositoryOwner, TextMatch};
use ghs::search_results::{
    adjust_scroll, fragment_lines, iter_text_matches_filtered, FilterMode, KeyHandleResult,
    SearchResults, SearchResultsState,
};

fn plain(code: Key) -> KeyPress {
    KeyPress { code, ctrl: false }
}

fn sample_item(path: &str, repo: &str, url: &str, fragments: Vec<&str>) -> ItemResult {
    ItemResult {
        name: path.to_string(),
        path: path.to_string(),
        html_url: url.to_string(),
        text_matches: fragments
            .into_iter()
            .map(|f| TextMatch {
                fragment: f.to_string(),
                matches: Vec::new(),
            })
            .collect(),
        repository: ItemRepository {
            name: repo.to_string(),
            full_name: repo.to_string(),
            owner: RepositoryOwner {
                login: repo.to_string(),
            },
        },
    }
}

fn sample_code() -> CodeResults {
    CodeResults {
        items: vec![
            sample_item("src/alpha.rs", "org/alpha", "https://x/alpha", vec!["alpha text"]),
            sample_item("src/beta.rs", "org/beta", "https://x/beta", vec!["beta text", "more beta"]),
        ],
    }
}

#[test]
fn slash_always_reaches_editing() {
    let code = sample_code();
    let mut st = SearchResultsState::default();
    assert_eq!(st.filter_mode, FilterMode::Inactive);
    st.handle_key(plain(Key::Char('/')), 0, &code);
    assert_eq!(st.filter_mode, FilterMode::Editing);
}

#[test]
fn esc_from_empty_editing_reaches_inactive() {
    let code = sample_code();
    let mut st = SearchResultsState::default();
    st.handle_key(plain(Key::Char('/')), 0, &code);
    assert_eq!(st.filter_mode, FilterMode::Editing);
    st.handle_key(plain(Key::Esc), 0, &code);
    assert_eq!(st.filter_mode, FilterMode::Inactive);
}

#[test]
fn esc_from_nonempty_editing_keeps_filter_applied() {
    let code = sample_code();
    let mut st = SearchResultsState::default();
    st.handle_key(plain(Key::Char('/')), 0, &code);
    st.handle_key(plain(Key::Char('b')), 0, &code);
    st.handle_key(plain(Key::Esc), 0, &code);
    assert_eq!(st.filter_mode, FilterMode::Applied);
    assert_eq!(st.filter_input_state.input, "b");
    st.handle_key(plain(Key::Esc), 0, &code);
    assert_eq!(st.filter_mode, FilterMode::Inactive);
    assert_eq!(st.filter_input_state.input, "");
}

#[test]
fn filter_is_case_insensitive_and_narrows() {
    let code = sample_code();
    let mut st = SearchResultsState::default();
    assert_eq!(iter_text_matches_filtered(&code, &st).len(), 3);
    st.handle_key(plain(Key::Char('/')), 0, &code);
    st.handle_key(plain(Key::Char('B')), 0, &code);
    st.handle_key(plain(Key::Enter), 0, &code);
    assert_eq!(st.filter_mode, FilterMode::Applied);
    // "B" lowercased matches only the beta item's path/repo/fragments.
    assert_eq!(
        iter_text_matches_filtered(&code, &st),
        vec![(1, 0), (1, 1)]
    );
}

#[test]
fn editing_the_filter_resets_selection() {
    let code = sample_code();
    let mut st = SearchResultsState::default();
    st.handle_key(plain(Key::Down), 0, &code);
    assert_eq!(st.selected_item_idx, 1);
    st.handle_key(plain(Key::Char('/')), 0, &code);
    st.handle_key(plain(Key::Char('b')), 0, &code);
    assert_eq!(st.selected_item_idx, 0);
}

#[test]
fn navigation_wraps_the_filtered_count() {
    let code = sample_code();
    let mut st = SearchResultsState::default();
    st.handle_key(plain(Key::Down), 0, &code);
    assert_eq!(st.selected_item_idx, 1);
    st.handle_key(plain(Key::Down), 0, &code);
    assert_eq!(st.selected_item_idx, 2);
    st.handle_key(plain(Key::Down), 0, &code);
    assert_eq!(st.selected_item_idx, 0);
    st.handle_key(plain(Key::Up), 0, &code);
    assert_eq!(st.selected_item_idx, 2);
    st.handle_key(plain(Key::Up), 0, &code);
    assert_eq!(st.selected_item_idx, 1);
}

#[test]
fn near_the_end_asks_for_another_page() {
    let code = sample_code();
    let mut st = SearchResultsState::default();
    let r = st.handle_key(plain(Key::Char('j')), 0, &code);
    assert!(matches!(r, KeyHandleResult::NeedsPagination));
}

#[test]
fn enter_asks_to_open_the_selected_url() {
    let code = sample_code();
    let mut st = SearchResultsState::default();
    st.handle_key(plain(Key::Down), 0, &code);
    let r = st.handle_key(plain(Key::Enter), 0, &code);
    match r {
        KeyHandleResult::OpenUrl(url) => assert_eq!(url, "https://x/beta"),
        _ => panic!("expected an open request"),
    }
}

#[test]
fn fragment_lines_tags_matched_runs() {
    let tm = TextMatch {
        fragment: "hello world".to_string(),
        matches: vec![MatchSegment {
            indices: (0, 5),
            text: "hello".to_string(),
        }],
    };
    let lines = fragment_lines(&tm);
    assert_eq!(lines.len(), 1);
    let spans = &lines[0].spans;
    assert_eq!(spans.len(), 2);
    assert_eq!(spans[0].text, "hello");
    assert!(spans[0].is_match);
    assert_eq!(spans[1].text, " world");
    assert!(!spans[1].is_match);
}

#[test]
fn fragment_lines_expands_tabs_and_drops_carriage_returns() {
    let tm = TextMatch {
        fragment: "\ta\rb".to_string(),
        matches: Vec::new(),
    };
    let lines = fragment_lines(&tm);
    assert_eq!(lines.len(), 1);
    assert_eq!(lines[0].spans.len(), 1);
    assert_eq!(lines[0].spans[0].text, "    ab");
}

#[test]
fn scroll_moves_down_just_enough() {
    assert_eq!(adjust_scroll(0, 30, 40, 10), 30);
}

#[test]
fn scroll_moves_up_to_the_selection() {
    assert_eq!(adjust_scroll(50, 30, 40, 10), 30);
}

#[test]
fn scroll_stays_put_when_selection_is_visible() {
    assert_eq!(adjust_scroll(25, 30, 35, 10), 25);
}

#[test]
fn scroll_with_oversized_selection_shows_its_bottom() {
    // A selection taller than the viewport scrolls down to its bottom
    // edge; it is only pulled up to its top when that was already above
    // the incoming window.
    assert_eq!(adjust_scroll(0, 5, 25, 10), 15);
    assert_eq!(adjust_scroll(8, 5, 25, 10), 5);
}

#[test]
fn render_brings_selection_into_view() {
    let code = sample_code();
    let mut st = SearchResultsState::default();
    st.handle_key(plain(Key::Down), 0, &code);
    st.handle_key(plain(Key::Down), 0, &code);
    assert_eq!(st.selected_item_idx, 2);
    let widget = SearchResults {
        code: &code,
        is_focused: true,
    };
    let mut buf = Canvas::empty(Rect::new(0, 0, 40, 8));
    widget.render(Rect::new(0, 0, 40, 8), &mut buf, &mut st);
    // Three fragments of one line each, four rows apiece: the third spans
    // rows [8, 12), the viewport is 6 rows tall, so the scroll lands at 6.
    assert_eq!(st.vertical_scroll, 6);
}

#[test]
fn render_paints_the_first_title() {
    let code = sample_code();
    let mut st = SearchResultsState::default();
    let widget = SearchResults {
        code: &code,
        is_focused: true,
    };
    let mut buf = Canvas::empty(Rect::new(0, 0, 40, 12));
    widget.render(Rect::new(0, 0, 40, 12), &mut buf, &mut st);
    // The first fragment's title row reads " org/alpha src/alpha.rs " and
    // lands on the first row inside the border.
    let expected = " org/alpha src/alpha.rs ";
    for (i, ch) in expected.chars().enumerate() {
        let cell = buf.cell((1 + i as u16, 1)).expect("cell in range");
        assert_eq!(cell.symbol, ch);
    }
    // Its fragment text follows on the next row.
    let body = "alpha text";
    for (i, ch) in body.chars().enumerate() {
        let cell = buf.cell((1 + i as u16, 2)).expect("cell in range");
        assert_eq!(cell.symbol, ch);
    }
}
