//! The application state machine: the lifecycle of a query from idle
//! through loading, loaded and loading-more, the routing of key presses
//! per screen, and the handling of messages from background work. All
//! outside work is returned to the caller as an effect to perform.

use vstd::prelude::*;

use crate::api::CodeResultsWithPagination;
use crate::history::{
    spec_after_add, spec_select_next, spec_select_prev, spec_selected, SearchHistory,
};
use crate::keys::{Key, KeyPress};
use crate::results::{spec_count_sat, CodeResults};
use crate::search_results::{
    iter_text_matches_filtered, spec_results_key, FilterMode, KeyHandleResult, SearchResultsState,
};
use crate::strutil::{spec_trim, trim_str};
use crate::text_input::{spec_cursor_after, spec_text_after, TextInputState};

verus! {

/// The lifecycle of a query: only a loaded state carries results, and only
/// a loaded state can begin loading more.
#[derive(Clone)]
pub enum SearchState {
    Idle,
    Loading { query: String },
    Loaded {
        query: String,
        results: CodeResults,
        pagination: Option<crate::api::PaginationInfo>,
        current_page: u32,
    },
    LoadingMore {
        query: String,
        results: CodeResults,
        pagination: Option<crate::api::PaginationInfo>,
        current_page: u32,
    },
}

impl Default for SearchState {
    /// No query yet.
    fn default() -> (r: Self)
        ensures
            r is Idle,
    {
        SearchState::Idle
    }
}

/// The results a state shows, when it shows any.
pub open spec fn shown_results(s: SearchState) -> Option<CodeResults> {
    match s {
        SearchState::Loaded { results, .. } => Some(results),
        SearchState::LoadingMore { results, .. } => Some(results),
        _ => None,
    }
}

impl SearchState {
    /// Whether a fetch is in flight.
    pub fn is_loading(&self) -> (r: bool)
        ensures
            r == (*self is Loading || *self is LoadingMore),
    {
        match self {
            SearchState::Loading { .. } => true,
            SearchState::LoadingMore { .. } => true,
            _ => false,
        }
    }

    /// The number of text matches held; zero while nothing is loaded.
    pub fn num_results(&self) -> (r: usize)
        ensures
            r as int == match shown_results(*self) {
                Some(results) => spec_count_sat(results.items@),
                None => 0int,
            },
    {
        match self {
            SearchState::Loaded { results, .. } => results.count(),
            SearchState::LoadingMore { results, .. } => results.count(),
            _ => 0,
        }
    }
}

/// A message from background work back to the event loop.
#[derive(Clone)]
pub enum AppMessage {
    SearchComplete { results: CodeResultsWithPagination, query: String },
    SearchError { error: String },
    PaginationComplete { results: CodeResultsWithPagination, page: u32 },
    PaginationError { error: String },
    HistoryLoaded { searches: Vec<String> },
}

/// Outside work the state machine asks its caller to perform.
pub enum AppEffect {
    StartSearch { query: String },
    FetchPage { query: String, page: u32 },
    SaveHistory,
    Fatal { error: String },
    OpenUrl { url: String },
}

/// The whole application state.
#[derive(Clone)]
pub struct App {
    pub search_state: SearchState,
    pub search_history: SearchHistory,
    pub input_state: TextInputState,
    pub search_results_state: SearchResultsState,
}

/// Which screen the client shows.
#[derive(Debug, Clone, Copy, PartialEq, Eq, Structural)]
pub enum Screen {
    SearchPrompt,
    SearchResults,
}

/// Screen-level state owned by the event loop.
#[derive(Debug, Clone)]
pub struct AppState {
    pub should_exit: bool,
    pub current_screen: Screen,
    pub frame_counter: u32,
}

impl Default for AppState {
    /// On the prompt screen, not exiting, at frame zero.
    fn default() -> (r: Self)
        ensures
            r.should_exit == false,
            r.current_screen == Screen::SearchPrompt,
            r.frame_counter == 0,
    {
        AppState { should_exit: false, current_screen: Screen::SearchPrompt, frame_counter: 0 }
    }
}

/// What trying to load the next page does: only a loaded state whose
/// pagination has a `next` link starts another fetch, moving to
/// loading-more with the same fields and asking for the following page;
/// anything else changes nothing.
pub open spec fn spec_try_load(pre: SearchState, post: SearchState, r: Option<AppEffect>) -> bool {
    match pre {
        SearchState::Loaded { query, results, pagination, current_page } => {
            if (pagination matches Some(p) && p.next is Some) && current_page < u32::MAX {
                &&& post == (SearchState::LoadingMore { query, results, pagination, current_page })
                &&& r == Some(AppEffect::FetchPage { query, page: (current_page + 1) as u32 })
            } else {
                post == pre && r is None
            }
        },
        _ => post == pre && r is None,
    }
}

/// How the results-screen verdict maps onto the search state and the
/// returned effect: a pagination request follows the next-page rule, an
/// open request surfaces the url, and anything else changes nothing.
pub open spec fn spec_try_load_inner(
    inner: KeyHandleResult,
    pre: SearchState,
    post: SearchState,
    r: Option<AppEffect>,
) -> bool {
    match inner {
        KeyHandleResult::NeedsPagination => spec_try_load(pre, post, r),
        KeyHandleResult::Handled => post == pre && r is None,
        KeyHandleResult::OpenUrl(u) => post == pre && (r matches Some(AppEffect::OpenUrl { url })
            && url@ == u@),
    }
}

/// How one message evolves the application (see `App::handle_message`).
pub open spec fn spec_handle_message(pre: App, post: App, msg: AppMessage, r: Option<AppEffect>) -> bool {
    match msg {
        AppMessage::SearchComplete { results, query } => {
            &&& post.search_state == (SearchState::Loaded {
                query,
                results: results.results,
                pagination: results.pagination,
                current_page: 1u32,
            })
            &&& post.search_results_state.filter_mode == FilterMode::Inactive
            &&& post.search_results_state.filter_input_state.input@.len() == 0
            &&& post.search_results_state.filter_input_state.cursor_position == 0
            &&& post.search_results_state.vertical_scroll
                == pre.search_results_state.vertical_scroll
            &&& post.search_results_state.selected_item_idx
                == pre.search_results_state.selected_item_idx
            &&& post.search_history.searches@ == spec_after_add(
                pre.search_history.searches@,
                query,
            )
            &&& post.search_history.selected_idx == pre.search_history.selected_idx
            &&& r == Some(AppEffect::SaveHistory)
        },
        AppMessage::SearchError { error } => post == pre && r == Some(
            AppEffect::Fatal { error },
        ),
        AppMessage::PaginationComplete { results, page } => match pre.search_state {
            SearchState::LoadingMore { query, results: cur, pagination: _, current_page: _ } => {
                &&& (post.search_state matches SearchState::Loaded {
                    query: q2,
                    results: r2,
                    pagination: p2,
                    current_page: cp2,
                } && q2 == query && r2.items@ == cur.items@ + results.results.items@ && p2
                    == results.pagination && cp2 == page)
                &&& post.search_history == pre.search_history
                &&& post.search_results_state == pre.search_results_state
                &&& r is None
            },
            _ => post == pre && r is None,
        },
        AppMessage::PaginationError { error } => post == pre && r == Some(
            AppEffect::Fatal { error },
        ),
        AppMessage::HistoryLoaded { searches } => {
            &&& post.search_history.searches == searches
            &&& post.search_history.selected_idx is None
            &&& post.search_state == pre.search_state
            &&& post.search_results_state == pre.search_results_state
            &&& r is None
        },
    }
}

/// How one key press on the prompt screen evolves the application and the
/// screen state (see `App::handle_key`).
pub open spec fn spec_prompt_key(
    pre: App,
    post: App,
    key: KeyPress,
    scr0: AppState,
    scr1: AppState,
    r: Option<AppEffect>,
) -> bool {
    if key.code is Esc || (key.code == Key::Char('c') && key.ctrl) {
        &&& post == pre
        &&& scr1.should_exit == true
        &&& scr1.current_screen == scr0.current_screen
        &&& scr1.frame_counter == scr0.frame_counter
        &&& r is None
    } else if key.code is Down || (key.code == Key::Char('j') && key.ctrl) {
        &&& post.search_history == spec_select_next(pre.search_history)
        &&& match spec_selected(post.search_history) {
            Some(q) => post.input_state.input@ == q@ && post.input_state.cursor_position
                == q@.len(),
            None => post.input_state == pre.input_state,
        }
        &&& post.search_state == pre.search_state
        &&& post.search_results_state == pre.search_results_state
        &&& scr1 == scr0
        &&& r is None
    } else if key.code is Up || (key.code == Key::Char('k') && key.ctrl) {
        &&& post.search_history == spec_select_prev(pre.search_history)
        &&& match spec_selected(post.search_history) {
            Some(q) => post.input_state.input@ == q@ && post.input_state.cursor_position
                == q@.len(),
            None => post.input_state == pre.input_state,
        }
        &&& post.search_state == pre.search_state
        &&& post.search_results_state == pre.search_results_state
        &&& scr1 == scr0
        &&& r is None
    } else if key.code is Enter || (key.code == Key::Char('l') && key.ctrl) {
        let q = spec_trim(pre.input_state.input@);
        if q.len() > 0 {
            &&& (post.search_state matches SearchState::Loading { query } && query@ == q)
            &&& (r matches Some(AppEffect::StartSearch { query }) && query@ == q)
            &&& post.search_history.searches == pre.search_history.searches
            &&& post.search_history.selected_idx is None
            &&& post.input_state == pre.input_state
            &&& post.search_results_state == pre.search_results_state
            &&& scr1.current_screen == Screen::SearchResults
            &&& scr1.should_exit == scr0.should_exit
            &&& scr1.frame_counter == scr0.frame_counter
        } else {
            post == pre && scr1 == scr0 && r is None
        }
    } else {
        if !key.ctrl {
            &&& post.search_history.searches == pre.search_history.searches
            &&& post.search_history.selected_idx is None
            &&& post.input_state.input@ == spec_text_after(
                pre.input_state.input@,
                pre.input_state.cursor_position as int,
                key,
            )
            &&& post.input_state.cursor_position as int == spec_cursor_after(
                pre.input_state.input@,
                pre.input_state.cursor_position as int,
                key,
            )
            &&& post.search_state == pre.search_state
            &&& post.search_results_state == pre.search_results_state
            &&& scr1 == scr0
            &&& r is None
        } else {
            post == pre && scr1 == scr0 && r is None
        }
    }
}

/// How one key press on the results screen evolves the application and the
/// screen state (see `App::handle_key`).
pub open spec fn spec_results_screen_key(
    pre: App,
    post: App,
    key: KeyPress,
    scr0: AppState,
    scr1: AppState,
    r: Option<AppEffect>,
) -> bool {
    if key.code is Esc && pre.search_results_state.filter_mode == FilterMode::Inactive {
        &&& post == pre
        &&& scr1.current_screen == Screen::SearchPrompt
        &&& scr1.should_exit == scr0.should_exit
        &&& scr1.frame_counter == scr0.frame_counter
        &&& r is None
    } else {
        if shown_results(pre.search_state) is Some {
            &&& exists|results: CodeResults, inner: KeyHandleResult|
                shown_results(pre.search_state) == Some(results) && #[trigger] spec_results_key(
                    pre.search_results_state,
                    post.search_results_state,
                    key,
                    results,
                    inner,
                ) && spec_try_load_inner(inner, pre.search_state, post.search_state, r)
            &&& post.input_state == pre.input_state
            &&& post.search_history == pre.search_history
            &&& scr1 == scr0
        } else {
            post == pre && scr1 == scr0 && r is None
        }
    }
}

/// How one key press evolves the application and the screen state (see
/// `App::handle_key`).
pub open spec fn spec_app_key(
    pre: App,
    post: App,
    key: KeyPress,
    scr0: AppState,
    scr1: AppState,
    r: Option<AppEffect>,
) -> bool {
    match scr0.current_screen {
        Screen::SearchPrompt => spec_prompt_key(pre, post, key, scr0, scr1, r),
        Screen::SearchResults => spec_results_screen_key(pre, post, key, scr0, scr1, r),
    }
}

impl App {
    /// A fresh application: no query, empty history, empty input.
    pub fn new() -> (r: App)
        ensures
            r.search_state is Idle,
            r.search_history.searches@.len() == 0,
            r.search_history.selected_idx is None,
            r.input_state.input@.len() == 0,
            r.input_state.cursor_position == 0,
            r.search_results_state.vertical_scroll == 0,
            r.search_results_state.selected_item_idx == 0,
            r.search_results_state.filter_mode == FilterMode::Inactive,
            r.search_results_state.filter_input_state.input@.len() == 0,
            r.search_results_state.filter_input_state.cursor_position == 0,
    {
        App {
            search_state: SearchState::Idle,
            search_history: SearchHistory { searches: Vec::new(), selected_idx: None },
            input_state: TextInputState { input: String::new(), cursor_position: 0 },
            search_results_state: SearchResultsState {
                vertical_scroll: 0,
                selected_item_idx: 0,
                filter_mode: FilterMode::Inactive,
                filter_input_state: TextInputState { input: String::new(), cursor_position: 0 },
            },
        }
    }

    /// Begins loading the next page when one exists: from a loaded state
    /// whose pagination has a `next` link, moves to loading-more with the
    /// same results and asks the caller to fetch the following page.
    pub fn try_load_next_page(&mut self) -> (r: Option<AppEffect>)
        ensures
            final(self).search_history == old(self).search_history,
            final(self).input_state == old(self).input_state,
            final(self).search_results_state == old(self).search_results_state,
            spec_try_load(old(self).search_state, final(self).search_state, r),
    {
        let mut st = SearchState::Idle;
        core::mem::swap(&mut st, &mut self.search_state);
        match st {
            SearchState::Loaded { query, results, pagination, current_page } => {
                let has_next = match &pagination {
                    Some(p) => p.next.is_some(),
                    None => false,
                };
                if has_next && current_page < u32::MAX {
                    let query_for_fetch = query.clone();
                    let page = current_page + 1;
                    self.search_state = SearchState::LoadingMore {
                        query,
                        results,
                        pagination,
                        current_page,
                    };
                    Some(AppEffect::FetchPage { query: query_for_fetch, page })
                } else {
                    self.search_state = SearchState::Loaded {
                        query,
                        results,
                        pagination,
                        current_page,
                    };
                    None
                }
            },
            other => {
                self.search_state = other;
                None
            },
        }
    }

    /// Applies one message from background work. A completed search
    /// becomes the loaded state at page one, resets the filter and records
    /// the query in the history; a completed pagination appends the new
    /// items after the existing ones and moves back to loaded with the new
    /// page number, and is ignored unless a page load was in flight; fetch
    /// failures ask the caller to terminate; a loaded history replaces the
    /// current one.
    pub fn handle_message(&mut self, msg: AppMessage) -> (r: Option<AppEffect>)
        requires
            old(self).search_history.searches@.len() < usize::MAX,
        ensures
            final(self).input_state == old(self).input_state,
            spec_handle_message(*old(self), *final(self), msg, r),
    {
        match msg {
            AppMessage::SearchComplete { results, query } => {
                self.search_state = SearchState::Loaded {
                    query: query.clone(),
                    results: results.results,
                    pagination: results.pagination,
                    current_page: 1,
                };
                self.search_results_state.filter_mode = FilterMode::Inactive;
                self.search_results_state.filter_input_state.input = String::new();
                self.search_results_state.filter_input_state.cursor_position = 0;
                self.search_history.add_search(query);
                Some(AppEffect::SaveHistory)
            },
            AppMessage::SearchError { error } => Some(AppEffect::Fatal { error }),
            AppMessage::PaginationComplete { results, page } => {
                let mut st = SearchState::Idle;
                core::mem::swap(&mut st, &mut self.search_state);
                match st {
                    SearchState::LoadingMore {
                        query,
                        results: mut cur,
                        pagination: _,
                        current_page: _,
                    } => {
                        let mut new_items = results.results.items;
                        cur.items.append(&mut new_items);
                        self.search_state = SearchState::Loaded {
                            query,
                            results: cur,
                            pagination: results.pagination,
                            current_page: page,
                        };
                        None
                    },
                    other => {
                        self.search_state = other;
                        None
                    },
                }
            },
            AppMessage::PaginationError { error } => Some(AppEffect::Fatal { error }),
            AppMessage::HistoryLoaded { searches } => {
                self.search_history = SearchHistory::new(searches);
                None
            },
        }
    }

    /// Routes one key press on the prompt screen.
    fn handle_prompt_key(&mut self, key: KeyPress, state: &mut AppState) -> (r: Option<AppEffect>)
        requires
            old(state).current_screen == Screen::SearchPrompt,
            old(self).input_state.wf(),
            old(self).input_state.input@.len() < usize::MAX,
        ensures
            final(self).input_state.wf(),
            final(self).search_results_state == old(self).search_results_state,
            spec_prompt_key(*old(self), *final(self), key, *old(state), *final(state), r),
    {
        let ctrl = key.ctrl;
        if matches!(key.code, Key::Esc) || (key.code == Key::Char('c') && ctrl) {
            state.should_exit = true;
            return None;
        }
        if matches!(key.code, Key::Down) || (key.code == Key::Char('j') && ctrl) {
            self.search_history.select_next();
            match self.search_history.get_selected() {
                Some(q) => {
                    let qc = q.clone();
                    let n = qc.as_str().unicode_len();
                    self.input_state.input = qc;
                    self.input_state.cursor_position = n;
                },
                None => {},
            }
            return None;
        }
        if matches!(key.code, Key::Up) || (key.code == Key::Char('k') && ctrl) {
            self.search_history.select_prev();
            match self.search_history.get_selected() {
                Some(q) => {
                    let qc = q.clone();
                    let n = qc.as_str().unicode_len();
                    self.input_state.input = qc;
                    self.input_state.cursor_position = n;
                },
                None => {},
            }
            return None;
        }
        if matches!(key.code, Key::Enter) || (key.code == Key::Char('l') && ctrl) {
            let trimmed = trim_str(self.input_state.input.as_str());
            if trimmed.as_str().unicode_len() > 0 {
                let query_for_fetch = trimmed.clone();
                self.search_state = SearchState::Loading { query: trimmed };
                self.search_history.clear_selection();
                state.current_screen = Screen::SearchResults;
                return Some(AppEffect::StartSearch { query: query_for_fetch });
            }
            return None;
        }
        if !ctrl {
            self.search_history.clear_selection();
            self.input_state.handle_key(key);
        }
        None
    
    }

    /// Routes one key press on the results screen.
    fn handle_results_key(&mut self, key: KeyPress, state: &mut AppState) -> (r: Option<AppEffect>)
        requires
            old(state).current_screen == Screen::SearchResults,
            old(self).search_results_state.filter_input_state.wf(),
            old(self).search_results_state.filter_input_state.input@.len() < usize::MAX,
            old(self).search_results_state.selected_item_idx < usize::MAX,
        ensures
            final(self).input_state == old(self).input_state,
            final(self).search_results_state.filter_input_state.wf(),
            spec_results_screen_key(*old(self), *final(self), key, *old(state), *final(state), r),
    {
        if matches!(key.code, Key::Esc) && matches!(
            self.search_results_state.filter_mode,
            FilterMode::Inactive,
        ) {
            state.current_screen = Screen::SearchPrompt;
            return None;
        }
        let ghost pre_sub = self.search_results_state;
        let ghost pre_state = self.search_state;
        let ghost mut res_v: CodeResults = vstd::pervasive::arbitrary();
        let inner: Option<KeyHandleResult> = match &self.search_state {
            SearchState::Loaded { results, .. } => {
                proof {
                    res_v = *results;
                    assert(shown_results(pre_state) == Some(res_v));
                }
                let cnt = iter_text_matches_filtered(
                    results,
                    &self.search_results_state,
                ).len();
                Some(self.search_results_state.handle_key(key, cnt, results))
            },
            SearchState::LoadingMore { results, .. } => {
                proof {
                    res_v = *results;
                    assert(shown_results(pre_state) == Some(res_v));
                }
                let cnt = iter_text_matches_filtered(
                    results,
                    &self.search_results_state,
                ).len();
                Some(self.search_results_state.handle_key(key, cnt, results))
            },
            _ => None,
        };
        match inner {
            None => None,
            Some(KeyHandleResult::NeedsPagination) => {
                let r = self.try_load_next_page();
                proof {
                    let w = KeyHandleResult::NeedsPagination;
                    assert(spec_results_key(
                        pre_sub,
                        self.search_results_state,
                        key,
                        res_v,
                        w,
                    ) && spec_try_load_inner(w, pre_state, self.search_state, r));
                }
                r
            },
            Some(KeyHandleResult::Handled) => {
                proof {
                    let w = KeyHandleResult::Handled;
                    assert(spec_results_key(
                        pre_sub,
                        self.search_results_state,
                        key,
                        res_v,
                        w,
                    ) && spec_try_load_inner(
                        w,
                        pre_state,
                        self.search_state,
                        None::<AppEffect>,
                    ));
                }
                None
            },
            Some(KeyHandleResult::OpenUrl(url)) => {
                let r = Some(AppEffect::OpenUrl { url: url.clone() });
                proof {
                    let w = KeyHandleResult::OpenUrl(url);
                    assert(spec_results_key(
                        pre_sub,
                        self.search_results_state,
                        key,
                        res_v,
                        w,
                    ) && spec_try_load_inner(w, pre_state, self.search_state, r));
                }
                r
            },
        }
    }

    /// Routes one key press for the current screen.
    ///
    /// On the prompt screen: escape or control-c asks to exit; down and up
    /// recall history entries into the input; enter submits a nonempty
    /// trimmed query, moving to loading and to the results screen; any
    /// other key without control edits the input and drops the history
    /// highlight. On the results screen: escape with no filter returns to
    /// the prompt; everything else is routed to the results-screen state
    /// machine, and a request for more pages is honoured when the state
    /// allows it.
    pub fn handle_key(&mut self, key: KeyPress, state: &mut AppState) -> (r: Option<AppEffect>)
        requires
            old(self).input_state.wf(),
            old(self).input_state.input@.len() < usize::MAX,
            old(self).search_results_state.filter_input_state.wf(),
            old(self).search_results_state.filter_input_state.input@.len() < usize::MAX,
            old(self).search_results_state.selected_item_idx < usize::MAX,
        ensures
            final(self).input_state.wf(),
            final(self).search_results_state.filter_input_state.wf(),
            spec_app_key(*old(self), *final(self), key, *old(state), *final(state), r),
    {
        match state.current_screen {
            Screen::SearchPrompt => self.handle_prompt_key(key, state),
            Screen::SearchResults => self.handle_results_key(key, state),
        }
    }
}

} // verus!
