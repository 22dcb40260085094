//! The results screen: filtering, navigation over the filtered matches,
//! and the filter-mode state machine nested inside it.

use vstd::prelude::*;

use crate::keys::{Key, KeyPress};
use crate::ranges::pair_views;
use crate::results::{CodeResults, ItemResult, TextMatch};
use crate::strutil::{contains_str, lower_of, lowercase, spec_contains};
use crate::buffers::{blank_cell, blit, blit_cell, Canvas, Cell, CellStyle, Color, Rect};
use crate::text_input::{spec_cursor_after, spec_text_after, TextInputState};

verus! {

/// The filter sub-machine of the results screen.
#[derive(Debug, Clone, Copy, PartialEq, Eq, Structural)]
pub enum FilterMode {
    Inactive,
    Editing,
    Applied,
}

impl Default for FilterMode {
    /// No filter.
    fn default() -> (r: Self)
        ensures
            r == FilterMode::Inactive,
    {
        FilterMode::Inactive
    }
}

/// The rendering half of the results widget.
#[derive(Clone)]
pub struct SearchResults<'a> {
    pub code: &'a CodeResults,
    pub is_focused: bool,
}

/// The browsing state of the results screen: scroll, selection, and the
/// filter sub-machine with its input.
#[derive(Debug, Clone)]
pub struct SearchResultsState {
    pub vertical_scroll: usize,
    pub selected_item_idx: usize,
    pub filter_mode: FilterMode,
    pub filter_input_state: TextInputState,
}

impl Default for SearchResultsState {
    /// Top of the list, nothing selected, no filter.
    fn default() -> (r: SearchResultsState)
        ensures
            r.vertical_scroll == 0,
            r.selected_item_idx == 0,
            r.filter_mode == FilterMode::Inactive,
            r.filter_input_state.input@.len() == 0,
            r.filter_input_state.cursor_position == 0,
    {
        SearchResultsState {
            vertical_scroll: 0,
            selected_item_idx: 0,
            filter_mode: FilterMode::Inactive,
            filter_input_state: TextInputState { input: String::new(), cursor_position: 0 },
        }
    }
}

/// What a key press on the results screen asks the caller to do.
pub enum KeyHandleResult {
    Handled,
    NeedsPagination,
    OpenUrl(String),
}

/// Whether a match is shown under the current filter: with no filter, or
/// an empty filter text, everything is shown; otherwise the lowercased
/// filter text must occur in the lowercased file path, repository name, or
/// fragment.
pub open spec fn spec_include(state: SearchResultsState, item: ItemResult, tm: TextMatch) -> bool {
    if state.filter_mode == FilterMode::Inactive || state.filter_input_state.input@.len() == 0 {
        true
    } else {
        let f = lower_of(state.filter_input_state.input@);
        ||| spec_contains(lower_of(item.path@), f)
        ||| spec_contains(lower_of(item.repository.full_name@), f)
        ||| spec_contains(lower_of(tm.fragment@), f)
    }
}

/// The filtered matches of one item, as `(item index, match index)` pairs,
/// over the first `j` matches.
pub open spec fn spec_filtered_matches(
    state: SearchResultsState,
    item: ItemResult,
    i: int,
    j: int,
) -> Seq<(int, int)>
    decreases j,
{
    if j <= 0 {
        Seq::empty()
    } else {
        spec_filtered_matches(state, item, i, j - 1) + (if spec_include(
            state,
            item,
            item.text_matches@[j - 1],
        ) {
            seq![(i, j - 1)]
        } else {
            Seq::empty()
        })
    }
}

/// The filtered matches of the first `i` items, in order.
pub open spec fn spec_filtered_items(state: SearchResultsState, code: CodeResults, i: int) -> Seq<
    (int, int),
>
    decreases i,
{
    if i <= 0 {
        Seq::empty()
    } else {
        spec_filtered_items(state, code, i - 1) + spec_filtered_matches(
            state,
            code.items@[i - 1],
            i - 1,
            code.items@[i - 1].text_matches@.len() as int,
        )
    }
}

/// Every match shown under the current filter, in item order then match
/// order, as `(item index, match index)` pairs.
pub open spec fn spec_filtered(code: CodeResults, state: SearchResultsState) -> Seq<(int, int)> {
    spec_filtered_items(state, code, code.items@.len() as int)
}

proof fn lemma_filtered_matches_bounds(state: SearchResultsState, item: ItemResult, i: int, j: int)
    requires
        j <= item.text_matches@.len(),
    ensures
        forall|k: int|
            0 <= k < spec_filtered_matches(state, item, i, j).len() ==> (
            #[trigger] spec_filtered_matches(state, item, i, j)[k]).0 == i && 0
                <= spec_filtered_matches(state, item, i, j)[k].1 < item.text_matches@.len(),
    decreases j,
{
    if j > 0 {
        lemma_filtered_matches_bounds(state, item, i, j - 1);
        let prev = spec_filtered_matches(state, item, i, j - 1);
        let cur = spec_filtered_matches(state, item, i, j);
        assert forall|k: int| 0 <= k < cur.len() implies (#[trigger] cur[k]).0 == i && 0 <= cur[k].1
            < item.text_matches@.len() by {
            if k < prev.len() {
                assert(cur[k] == prev[k]);
            }
        }
    }
}

proof fn lemma_filtered_items_bounds(state: SearchResultsState, code: CodeResults, i: int)
    requires
        i <= code.items@.len(),
    ensures
        forall|k: int|
            0 <= k < spec_filtered_items(state, code, i).len() ==> {
                let p = #[trigger] spec_filtered_items(state, code, i)[k];
                &&& 0 <= p.0 < i
                &&& 0 <= p.1 < code.items@[p.0].text_matches@.len()
            },
    decreases i,
{
    if i > 0 {
        lemma_filtered_items_bounds(state, code, i - 1);
        lemma_filtered_matches_bounds(
            state,
            code.items@[i - 1],
            i - 1,
            code.items@[i - 1].text_matches@.len() as int,
        );
        let prev = spec_filtered_items(state, code, i - 1);
        let add = spec_filtered_matches(
            state,
            code.items@[i - 1],
            i - 1,
            code.items@[i - 1].text_matches@.len() as int,
        );
        let cur = spec_filtered_items(state, code, i);
        assert forall|k: int| 0 <= k < cur.len() implies {
            let p = #[trigger] cur[k];
            &&& 0 <= p.0 < i
            &&& 0 <= p.1 < code.items@[p.0].text_matches@.len()
        } by {
            if k < prev.len() {
                assert(cur[k] == prev[k]);
            } else {
                assert(cur[k] == add[k - prev.len()]);
            }
        }
    }
}

/// Every pair of the filtered list indexes a real item and match.
pub proof fn lemma_filtered_bounds(state: SearchResultsState, code: CodeResults)
    ensures
        forall|k: int|
            0 <= k < spec_filtered(code, state).len() ==> {
                let p = #[trigger] spec_filtered(code, state)[k];
                &&& 0 <= p.0 < code.items@.len()
                &&& 0 <= p.1 < code.items@[p.0].text_matches@.len()
            },
{
    lemma_filtered_items_bounds(state, code, code.items@.len() as int);
}

/// Every match shown under the current filter, in order, as
/// `(item index, match index)` pairs.
pub fn iter_text_matches_filtered(code: &CodeResults, state: &SearchResultsState) -> (r: Vec<
    (usize, usize),
>)
    ensures
        pair_views(r@) == spec_filtered(*code, *state),
{
    let mut out: Vec<(usize, usize)> = Vec::new();
    let mut i: usize = 0;
    proof {
        assert(pair_views(out@) =~= spec_filtered_items(*state, *code, 0));
    }
    while i < code.items.len()
        invariant
            i <= code.items@.len(),
            pair_views(out@) == spec_filtered_items(*state, *code, i as int),
        decreases code.items@.len() - i,
    {
        let item = &code.items[i];
        let mut j: usize = 0;
        proof {
            assert(pair_views(out@) + spec_filtered_matches(*state, *item, i as int, 0)
                =~= pair_views(out@));
        }
        while j < item.text_matches.len()
            invariant
                i < code.items@.len(),
                j <= item.text_matches@.len(),
                item == &code.items@[i as int],
                pair_views(out@) == spec_filtered_items(*state, *code, i as int)
                    + spec_filtered_matches(*state, *item, i as int, j as int),
            decreases item.text_matches@.len() - j,
        {
            let tm = &item.text_matches[j];
            let ghost prevm = spec_filtered_matches(*state, *item, i as int, j as int);
            proof {
                assert(spec_filtered_matches(*state, *item, i as int, j + 1) == prevm + (
                if spec_include(*state, *item, item.text_matches@[j as int]) {
                    seq![(i as int, j as int)]
                } else {
                    Seq::<(int, int)>::empty()
                }));
            }
            if state.should_include_match(item, tm) {
                let ghost out0 = out@;
                out.push((i, j));
                proof {
                    assert(spec_include(*state, *item, item.text_matches@[j as int]));
                    assert(out@ == out0.push((i, j)));
                    assert(pair_views(out@) =~= pair_views(out0) + seq![(i as int, j as int)]);
                    assert(pair_views(out@) =~= spec_filtered_items(*state, *code, i as int)
                        + spec_filtered_matches(*state, *item, i as int, j + 1));
                }
            } else {
                proof {
                    assert(prevm + Seq::<(int, int)>::empty() =~= prevm);
                    assert(pair_views(out@) =~= spec_filtered_items(*state, *code, i as int)
                        + spec_filtered_matches(*state, *item, i as int, j + 1));
                }
            }
            j = j + 1;
        }
        i = i + 1;
    }
    out
}

/// How one key press evolves the results-screen state and what it asks
/// the caller to do (see `SearchResultsState::handle_key`).
pub open spec fn spec_results_key(
    pre: SearchResultsState,
    post: SearchResultsState,
    key: KeyPress,
    code: CodeResults,
    r: KeyHandleResult,
) -> bool {
    &&& post.filter_input_state.wf()
    &&& post.vertical_scroll == pre.vertical_scroll
    &&& match pre.filter_mode {
        FilterMode::Editing => match key.code {
            Key::Esc => post.filter_mode == (if pre.filter_input_state.input@.len() == 0 {
                FilterMode::Inactive
            } else {
                FilterMode::Applied
            }) && post.filter_input_state == pre.filter_input_state && post.selected_item_idx
                == pre.selected_item_idx && (r matches KeyHandleResult::Handled),
            Key::Enter => post.filter_mode == FilterMode::Applied && post.filter_input_state
                == pre.filter_input_state && post.selected_item_idx == pre.selected_item_idx && (
            r matches KeyHandleResult::Handled),
            _ => {
                let inp0 = pre.filter_input_state.input@;
                let cur0 = pre.filter_input_state.cursor_position as int;
                &&& post.filter_mode == FilterMode::Editing
                &&& post.filter_input_state.input@ == spec_text_after(inp0, cur0, key)
                &&& post.filter_input_state.cursor_position as int == spec_cursor_after(
                    inp0,
                    cur0,
                    key,
                )
                &&& post.selected_item_idx == (if spec_text_after(inp0, cur0, key) != inp0 {
                    0int
                } else {
                    pre.selected_item_idx as int
                })
                &&& r matches KeyHandleResult::Handled
            },
        },
        FilterMode::Applied => match key.code {
            Key::Esc => post.filter_mode == FilterMode::Inactive
                && post.filter_input_state.input@.len() == 0
                && post.filter_input_state.cursor_position == 0 && post.selected_item_idx == 0 && (
            r matches KeyHandleResult::Handled),
            Key::Char('/') => post.filter_mode == FilterMode::Editing && post.filter_input_state
                == pre.filter_input_state && post.selected_item_idx == pre.selected_item_idx && (
            r matches KeyHandleResult::Handled),
            _ => spec_navigation(pre, post, key, code, r),
        },
        FilterMode::Inactive => match key.code {
            Key::Char('/') => post.filter_mode == FilterMode::Editing && post.filter_input_state
                == pre.filter_input_state && post.selected_item_idx == pre.selected_item_idx && (
            r matches KeyHandleResult::Handled),
            _ => spec_navigation(pre, post, key, code, r),
        },
    }
}

impl SearchResultsState {
    /// Whether a match is shown under the current filter.
    pub fn should_include_match(&self, item: &ItemResult, text_match: &TextMatch) -> (r: bool)
        ensures
            r == spec_include(*self, *item, *text_match),
    {
        if self.filter_mode == FilterMode::Inactive || self.filter_input_state.input.as_str().unicode_len() == 0 {
            return true;
        }
        let filter = lowercase(self.filter_input_state.input.as_str());
        let path_l = lowercase(item.path.as_str());
        if contains_str(path_l.as_str(), filter.as_str()) {
            return true;
        }
        let repo_l = lowercase(item.repository.full_name.as_str());
        if contains_str(repo_l.as_str(), filter.as_str()) {
            return true;
        }
        let frag_l = lowercase(text_match.fragment.as_str());
        contains_str(frag_l.as_str(), filter.as_str())
    }

    /// Routes one key press on the results screen.
    ///
    /// The filter sub-machine goes first: from no filter, `/` begins
    /// editing; while editing, escape keeps the filter applied when its
    /// text is nonempty and clears it when empty, enter applies it, and
    /// every other key edits the text, resetting the selection when the
    /// text changes; from an applied filter, escape clears it and `/`
    /// resumes editing. Otherwise the key navigates the filtered matches:
    /// down and up move through them, wrapping at either end, down asking
    /// for another page near the end; enter asks to open the selected
    /// match's url.
    pub fn handle_key(&mut self, key: KeyPress, _total_items: usize, code: &CodeResults) -> (r:
        KeyHandleResult)
        requires
            old(self).filter_input_state.wf(),
            old(self).filter_input_state.input@.len() < usize::MAX,
            old(self).selected_item_idx < usize::MAX,
        ensures
            spec_results_key(*old(self), *final(self), key, *code, r),
    {
        match self.filter_mode {
            FilterMode::Editing => {
                match key.code {
                    Key::Esc => {
                        self.filter_mode = if self.filter_input_state.input.as_str().unicode_len()
                            == 0 {
                            FilterMode::Inactive
                        } else {
                            FilterMode::Applied
                        };
                        return KeyHandleResult::Handled;
                    },
                    Key::Enter => {
                        self.filter_mode = FilterMode::Applied;
                        return KeyHandleResult::Handled;
                    },
                    _ => {
                        let old_input = self.filter_input_state.input.clone();
                        self.filter_input_state.handle_key(key);
                        if !(old_input == self.filter_input_state.input) {
                            self.selected_item_idx = 0;
                        }
                        return KeyHandleResult::Handled;
                    },
                }
            },
            FilterMode::Applied => {
                match key.code {
                    Key::Esc => {
                        self.filter_mode = FilterMode::Inactive;
                        self.filter_input_state.input = String::new();
                        self.filter_input_state.cursor_position = 0;
                        self.selected_item_idx = 0;
                        return KeyHandleResult::Handled;
                    },
                    Key::Char(c) => {
                        if c == '/' {
                            self.filter_mode = FilterMode::Editing;
                            return KeyHandleResult::Handled;
                        }
                    },
                    _ => {},
                }
            },
            FilterMode::Inactive => {
                match key.code {
                    Key::Char(c) => {
                        if c == '/' {
                            self.filter_mode = FilterMode::Editing;
                            return KeyHandleResult::Handled;
                        }
                    },
                    _ => {},
                }
            },
        }
        self.navigate(key, code)
    }

    /// One step back, wrapping modulo `count`.
    fn select_prev_wrapping(&mut self, count: usize)
        requires
            count > 0,
        ensures
            final(self).selected_item_idx as int == (old(self).selected_item_idx + count - 1)
                % count as int,
            final(self).vertical_scroll == old(self).vertical_scroll,
            final(self).filter_mode == old(self).filter_mode,
            final(self).filter_input_state == old(self).filter_input_state,
    {
        let idx = self.selected_item_idx % count;
        proof {
            let pre = old(self).selected_item_idx as int;
            let c = count as int;
            let q = pre / c;
            vstd::arithmetic::div_mod::lemma_fundamental_div_mod(pre, c);
            assert(c * q == q * c) by (nonlinear_arith);
            assert((q + 1) * c == q * c + c) by (nonlinear_arith);
            if idx == 0 {
                vstd::arithmetic::div_mod::lemma_fundamental_div_mod_converse(
                    pre + c - 1,
                    c,
                    q,
                    c - 1,
                );
            } else {
                vstd::arithmetic::div_mod::lemma_fundamental_div_mod_converse(
                    pre + c - 1,
                    c,
                    q + 1,
                    idx as int - 1,
                );
            }
        }
        self.selected_item_idx = if idx == 0 {
            count - 1
        } else {
            idx - 1
        };
    }

    /// Navigation over the filtered matches, shared by the filterless and
    /// applied-filter modes.
    fn navigate(&mut self, key: KeyPress, code: &CodeResults) -> (r: KeyHandleResult)
        requires
            old(self).selected_item_idx < usize::MAX,
        ensures
            final(self).filter_input_state == old(self).filter_input_state,
            final(self).vertical_scroll == old(self).vertical_scroll,
            spec_navigation(*old(self), *final(self), key, *code, r),
    {
        let filtered = iter_text_matches_filtered(code, self);
        let filtered_count = filtered.len();
        if filtered_count == 0 {
            return KeyHandleResult::Handled;
        }
        match key.code {
            Key::Char(c) => {
                if c == 'j' {
                    self.selected_item_idx = (self.selected_item_idx + 1) % filtered_count;
                    if filtered_count - self.selected_item_idx <= 5 {
                        return KeyHandleResult::NeedsPagination;
                    }
                    return KeyHandleResult::Handled;
                }
                if c == 'k' {
                    self.select_prev_wrapping(filtered_count);
                    return KeyHandleResult::Handled;
                }
                if c == 'l' {
                    return self.open_selected(&filtered, code);
                }
                KeyHandleResult::Handled
            },
            Key::Down => {
                self.selected_item_idx = (self.selected_item_idx + 1) % filtered_count;
                if filtered_count - self.selected_item_idx <= 5 {
                    return KeyHandleResult::NeedsPagination;
                }
                KeyHandleResult::Handled
            },
            Key::Up => {
                self.select_prev_wrapping(filtered_count);
                KeyHandleResult::Handled
            },
            Key::Enter => self.open_selected(&filtered, code),
            _ => KeyHandleResult::Handled,
        }
    }

    /// Yields the url of the selected filtered match, if the selection is
    /// in range.
    fn open_selected(&mut self, filtered: &Vec<(usize, usize)>, code: &CodeResults) -> (r:
        KeyHandleResult)
        requires
            pair_views(filtered@) == spec_filtered(*code, *old(self)),
        ensures
            *final(self) == *old(self),
            ({
                let f = spec_filtered(*code, *old(self));
                if old(self).selected_item_idx < f.len() {
                    r matches KeyHandleResult::OpenUrl(u) && u@ == code.items@[f[old(self).selected_item_idx as int].0].html_url@
                } else {
                    r matches KeyHandleResult::Handled
                }
            }),
    {
        if self.selected_item_idx < filtered.len() {
            let pair = filtered[self.selected_item_idx];
            proof {
                lemma_filtered_bounds(*old(self), *code);
                assert(pair_views(filtered@)[old(self).selected_item_idx as int] == (
                    pair.0 as int,
                    pair.1 as int,
                ));
            }
            let url = code.items[pair.0].html_url.clone();
            KeyHandleResult::OpenUrl(url)
        } else {
            KeyHandleResult::Handled
        }
    }
}

/// What navigating with one key does: down advances the selection and up
/// steps it back, both wrapping modulo the filtered count, down asking for
/// another page within five entries of the end; enter asks to open the
/// selected match's url, and anything else is absorbed; with no filtered
/// matches nothing changes.
pub open spec fn spec_navigation(
    pre: SearchResultsState,
    post: SearchResultsState,
    key: KeyPress,
    code: CodeResults,
    r: KeyHandleResult,
) -> bool {
    let fcount = spec_filtered(code, pre).len() as int;
    &&& post.filter_mode == pre.filter_mode
    &&& post.filter_input_state == pre.filter_input_state
    &&& if fcount == 0 {
        post.selected_item_idx == pre.selected_item_idx && (r matches KeyHandleResult::Handled)
    } else {
        match key.code {
            Key::Down | Key::Char('j') => {
                &&& post.selected_item_idx as int == (pre.selected_item_idx + 1) % fcount
            &&& if post.selected_item_idx + 5 >= fcount {
                    r matches KeyHandleResult::NeedsPagination
                } else {
                    r matches KeyHandleResult::Handled
                }
            },
            Key::Up | Key::Char('k') => {
                &&& post.selected_item_idx as int == (pre.selected_item_idx + fcount - 1) % fcount
                &&& r matches KeyHandleResult::Handled
            },
            Key::Enter | Key::Char('l') => {
                &&& post.selected_item_idx == pre.selected_item_idx
                &&& if pre.selected_item_idx < fcount {
                    r matches KeyHandleResult::OpenUrl(u) && u@ == code.items@[spec_filtered(
                        code,
                        pre,
                    )[pre.selected_item_idx as int].0].html_url@
                } else {
                    r matches KeyHandleResult::Handled
                }
            },
            _ => post.selected_item_idx == pre.selected_item_idx && (
            r matches KeyHandleResult::Handled),
        }
    }
}

/// A fragment's content as it is displayed: each tab becomes four spaces
/// and each carriage return is dropped.
pub open spec fn spec_expand(s: Seq<char>) -> Seq<char>
    decreases s.len(),
{
    if s.len() == 0 {
        Seq::empty()
    } else {
        (if s[0] == '\t' {
            seq![' ', ' ', ' ', ' ']
        } else if s[0] == '\r' {
            Seq::empty()
        } else {
            seq![s[0]]
        }) + spec_expand(s.skip(1))
    }
}

proof fn lemma_expand_len(s: Seq<char>)
    ensures
        spec_expand(s).len() <= 4 * s.len(),
    decreases s.len(),
{
    if s.len() > 0 {
        lemma_expand_len(s.skip(1));
    }
}

/// The display form of one line's content.
fn expand_content(s: &str) -> (r: String)
    ensures
        r@ == spec_expand(s@),
{
    let n = s.unicode_len();
    let mut out = String::new();
    let mut i: usize = 0;
    proof {
        assert(s@.subrange(0, n as int) =~= s@);
        assert(s@.skip(0) =~= s@);
    }
    while i < n
        invariant
            i <= n,
            n == s@.len(),
            out@ + spec_expand(s@.skip(i as int)) == spec_expand(s@),
        decreases n - i,
    {
        let c = s.get_char(i);
        let ghost rem = s@.skip(i as int);
        proof {
            assert(rem[0] == s@[i as int]);
            assert(rem.skip(1) =~= s@.skip(i + 1));
        }
        if c == '\t' {
            out.append("    ");
            proof {
                reveal_strlit("    ");
                assert(out@ + spec_expand(s@.skip(i + 1)) =~= spec_expand(s@));
            }
        } else if c == '\r' {
            proof {
                assert(out@ + spec_expand(s@.skip(i + 1)) =~= spec_expand(s@));
            }
        } else {
            crate::strutil::push_char(&mut out, c);
            proof {
                assert(out@ + spec_expand(s@.skip(i + 1)) =~= spec_expand(s@));
            }
        }
        i = i + 1;
    }
    proof {
        assert(s@.skip(n as int) =~= Seq::<char>::empty());
        assert(out@ =~= out@ + spec_expand(s@.skip(n as int)));
    }
    out
}

/// One run of displayed text, either part of a match or not.
pub struct StyledSpan {
    pub text: String,
    pub is_match: bool,
}

/// One displayed line: its runs in order.
pub struct StyledLine {
    pub spans: Vec<StyledSpan>,
}

/// The filled-out segments of one line of a fragment: the line's absolute
/// character range, covered by the fragment's match ranges. The range's
/// width is that of the displayed (expanded) content, while the match
/// ranges are offsets into the raw fragment: on a line holding a tab or an
/// embedded carriage return the highlighted runs therefore shift, a known
/// quirk of the display pipeline that is kept deliberately.
pub open spec fn spec_line_segs(tm: TextMatch, l: (Seq<char>, int, int)) -> Seq<(int, int, bool)> {
    let e = spec_expand(l.0);
    crate::ranges::spec_fill((l.1, l.1 + e.len() as int), crate::ranges::match_views(tm.matches@), l.1)
}

/// The styled lines of one fragment: each logical line is expanded for
/// display, its absolute range is covered by the match ranges, and each
/// resulting segment becomes a run of the displayed text, tagged as
/// matched or not. Because the covered range uses the expanded width while
/// the match ranges index the raw fragment (see `spec_line_segs`),
/// highlights can shift on lines holding tabs or embedded carriage
/// returns; that quirk is preserved deliberately.
pub fn fragment_lines(text_match: &TextMatch) -> (r: Vec<StyledLine>)
    requires
        text_match.wf(),
        5 * text_match.fragment@.len() <= usize::MAX,
    ensures
        ({
            let ls = crate::lines::spec_lines(text_match.fragment@, 0);
            &&& r@.len() == ls.len()
            &&& forall|k: int|
                0 <= k < ls.len() ==> {
                    let e = spec_expand(ls[k].0);
                    let segs = spec_line_segs(*text_match, ls[k]);
                    let spans = (#[trigger] r@[k]).spans@;
                    &&& spans.len() == segs.len()
                    &&& forall|m: int|
                        0 <= m < segs.len() ==> (#[trigger] spans[m]).is_match == segs[m].2
                            && spans[m].text@ == e.subrange(
                            segs[m].0 - ls[k].1,
                            segs[m].1 - ls[k].1,
                        )
                }
        }),
{
    let ghost ls = crate::lines::spec_lines(text_match.fragment@, 0);
    let flen = text_match.fragment.as_str().unicode_len();
    proof {
        crate::lines::lemma_lines_props(text_match.fragment@, 0);
    }
    let lines = crate::lines::smart_iter_lines(text_match.fragment.as_str());
    let mut out: Vec<StyledLine> = Vec::new();
    let mut li: usize = 0;
    while li < lines.len()
        invariant
            text_match.wf(),
            5 * text_match.fragment@.len() <= usize::MAX,
            flen == text_match.fragment@.len(),
            ls == crate::lines::spec_lines(text_match.fragment@, 0),
            lines@.len() == ls.len(),
            forall|k: int|
                0 <= k < ls.len() ==> (#[trigger] lines@[k]).content@ == ls[k].0
                    && lines@[k].start as int == ls[k].1,
            forall|k: int|
                0 <= k < ls.len() ==> 0 <= (#[trigger] ls[k]).1 && ls[k].1 + ls[k].0.len() <= flen,
            li <= ls.len(),
            out@.len() == li,
            forall|k: int|
                0 <= k < li ==> {
                    let e = spec_expand(ls[k].0);
                    let segs = spec_line_segs(*text_match, ls[k]);
                    let spans = (#[trigger] out@[k]).spans@;
                    &&& spans.len() == segs.len()
                    &&& forall|m: int|
                        0 <= m < segs.len() ==> (#[trigger] spans[m]).is_match == segs[m].2
                            && spans[m].text@ == e.subrange(
                            segs[m].0 - ls[k].1,
                            segs[m].1 - ls[k].1,
                        )
                },
        decreases ls.len() - li,
    {
        let line = &lines[li];
        let content = expand_content(line.content.as_str());
        let clen = content.as_str().unicode_len();
        proof {
            lemma_expand_len(ls[li as int].0);
        }
        let line_start = line.start;
        let line_end = line_start + clen;
        let ghost ctx = (line_start as int, line_end as int);
        let ghost rsv = crate::ranges::match_views(text_match.matches@);
        let segs = crate::ranges::fill_out_segments((line_start, line_end), &text_match.matches);
        proof {
            assert forall|k: int| 0 <= k < rsv.len() implies (#[trigger] rsv[k]).0 < rsv[k].1 by {
                assert(text_match.matches@[k].indices.0 < text_match.matches@[k].indices.1);
            }
            assert forall|k: int, l: int| 0 <= k < l < rsv.len() implies (#[trigger] rsv[k]).1 <= (
            #[trigger] rsv[l]).0 by {
                assert(text_match.matches@[k].indices.1 <= text_match.matches@[l].indices.0);
            }
            crate::ranges::lemma_fill_out_tiles(ctx, rsv);
        }
        let ghost segv = crate::ranges::spec_fill(ctx, rsv, ctx.0);
        let mut spans: Vec<StyledSpan> = Vec::new();
        let mut m: usize = 0;
        while m < segs.len()
            invariant
                crate::ranges::seg_views(segs@) == segv,
                forall|k: int|
                    0 <= k < segv.len() ==> ctx.0 <= (#[trigger] segv[k]).0 < segv[k].1 <= ctx.1,
                ctx == (line_start as int, line_end as int),
                line_end == line_start + clen,
                content@.len() == clen,
                content@ == spec_expand(ls[li as int].0),
                segv == spec_line_segs(*text_match, ls[li as int]),
                li < ls.len(),
                line_start as int == ls[li as int].1,
                m <= segs@.len(),
                spans@.len() == m,
                forall|k: int|
                    0 <= k < m ==> (#[trigger] spans@[k]).is_match == segv[k].2
                        && spans@[k].text@ == content@.subrange(
                        segv[k].0 - line_start as int,
                        segv[k].1 - line_start as int,
                    ),
            decreases segs@.len() - m,
        {
            let sg = segs[m];
            proof {
                assert(crate::ranges::seg_views(segs@)[m as int] == (
                    sg.start as int,
                    sg.end as int,
                    sg.is_match,
                ));
            }
            let local_start = sg.start - line_start;
            let local_end = sg.end - line_start;
            let text = content.as_str().substring_char(local_start, local_end).to_owned();
            spans.push(StyledSpan { text, is_match: sg.is_match });
            m = m + 1;
        }
        out.push(StyledLine { spans });
        li = li + 1;
    }
    out
}

/// Writes the characters of `s` along row `y` from column `x`, clipped to
/// the rectangle `clip`: afterwards every cell of `clip` on that row under
/// the span holds its character in `style`, and every other cell keeps its
/// value.
fn draw_span(buf: &mut Canvas, clip: Rect, x: u16, y: u16, s: &str, style: CellStyle)
    requires
        old(buf).wf(),
        clip.wf(),
    ensures
        final(buf).wf(),
        final(buf).area == old(buf).area,
        forall|xx: int, yy: int|
            old(buf).area.spec_contains(xx, yy) ==> #[trigger] final(buf).cell_at(xx, yy) == (
            if clip.spec_contains(xx, yy) && yy == y as int && x as int <= xx < x as int
                + s@.len() {
                Cell { symbol: s@[xx - x as int], style }
            } else {
                old(buf).cell_at(xx, yy)
            }),
{
    if !(y >= clip.y && y < clip.y + clip.height) {
        return ;
    }
    let n = s.unicode_len();
    let right = clip.x as usize + clip.width as usize;
    let limit = if (x as usize) < right {
        right - x as usize
    } else {
        0
    };
    let mut i: usize = 0;
    while i < n && i < limit
        invariant
            clip.wf(),
            n == s@.len(),
            right == clip.x as usize + clip.width as usize,
            (x as usize) < right ==> x as usize + limit == right,
            (x as usize) >= right ==> limit == 0,
            buf.wf(),
            buf.area == old(buf).area,
            clip.y <= y < clip.y + clip.height,
            i <= n,
            forall|xx: int, yy: int|
                old(buf).area.spec_contains(xx, yy) ==> #[trigger] buf.cell_at(xx, yy) == (
                if clip.spec_contains(xx, yy) && yy == y as int && x as int <= xx < x as int
                    + i {
                    Cell { symbol: s@[xx - x as int], style }
                } else {
                    old(buf).cell_at(xx, yy)
                }),
        decreases n - i,
    {
        let c = s.get_char(i);
        let cx = x as usize + i;
        if cx >= clip.x as usize {
            buf.put(cx as u16, y, Cell { symbol: c, style });
        }
        i = i + 1;
    }
    proof {
        assert forall|xx: int, yy: int|
            old(buf).area.spec_contains(xx, yy) && clip.spec_contains(xx, yy) && yy == y as int
                && x as int <= xx < x as int + s@.len() implies xx < x as int + i by {
            assert(xx < clip.x + clip.width);
        }
    }
}

/// The title text drawn above a fragment: the repository name and the
/// file path, each padded by one space.
pub open spec fn spec_title(item: ItemResult) -> Seq<char> {
    seq![' '] + item.repository.full_name@ + seq![' '] + item.path@ + seq![' ']
}

/// Whether the absolute position `pos` of a fragment's line lies inside a
/// matched segment of that line.
pub open spec fn spec_pos_matched(tm: TextMatch, l: (Seq<char>, int, int), pos: int) -> bool {
    let segs = spec_line_segs(tm, l);
    exists|m: int| 0 <= m < segs.len() && (#[trigger] segs[m]).0 <= pos < segs[m].1 && segs[m].2
}

/// How one drawn cell of a fragment is styled: matched runs in bold
/// yellow, the rest plain, the whole block inverted while selected.
pub open spec fn spec_cell_style(matched: bool, selected: bool) -> CellStyle {
    if matched {
        CellStyle { fg: Color::Yellow, bold: true, reversed: selected }
    } else {
        CellStyle { fg: Color::Reset, bold: false, reversed: selected }
    }
}

/// What a fragment's slot holds at `(x, y)`: the title on the slot's first
/// row, then one row per logical line carrying its expanded content styled
/// by match membership; every cell the fragment does not draw keeps
/// `under`.
pub open spec fn spec_tm_cell(
    item: ItemResult,
    tm: TextMatch,
    area: Rect,
    selected: bool,
    x: int,
    y: int,
    under: Cell,
) -> Cell {
    let ls = crate::lines::spec_lines(tm.fragment@, 0);
    let title = spec_title(item);
    if y == area.y && area.x <= x < area.x + title.len() {
        Cell {
            symbol: title[x - area.x],
            style: CellStyle { fg: Color::LightCyan, bold: true, reversed: selected },
        }
    } else if area.y + 1 <= y < area.y + 1 + ls.len() && area.x <= x < area.x + spec_expand(
        ls[y - area.y - 1].0,
    ).len() {
        let l = ls[y - area.y - 1];
        Cell {
            symbol: spec_expand(l.0)[x - area.x],
            style: spec_cell_style(spec_pos_matched(tm, l, l.1 + (x - area.x)), selected),
        }
    } else {
        under
    }
}

/// Draws one fragment into its slot of the canvas: the title row, then
/// the styled lines of the fragment, the whole block drawn inverted while
/// selected. Every cell of `area` then holds exactly what `spec_tm_cell`
/// gives it; cells outside `area` keep their value.
#[verifier::rlimit(100)]
pub fn render_text_match(
    idx: usize,
    item_result: &ItemResult,
    text_match: &TextMatch,
    area: Rect,
    buf: &mut Canvas,
    state: &SearchResultsState,
)
    requires
        old(buf).wf(),
        area.wf(),
        text_match.wf(),
        5 * text_match.fragment@.len() <= usize::MAX,
    ensures
        final(buf).wf(),
        final(buf).area == old(buf).area,
        forall|xx: int, yy: int|
            old(buf).area.spec_contains(xx, yy) ==> #[trigger] final(buf).cell_at(xx, yy) == (
            if area.spec_contains(xx, yy) {
                spec_tm_cell(
                    *item_result,
                    *text_match,
                    area,
                    state.selected_item_idx == idx,
                    xx,
                    yy,
                    old(buf).cell_at(xx, yy),
                )
            } else {
                old(buf).cell_at(xx, yy)
            }),
{
    let ghost ls = crate::lines::spec_lines(text_match.fragment@, 0);
    let ghost rsv = crate::ranges::match_views(text_match.matches@);
    let ghost sel = state.selected_item_idx == idx;
    let flen = text_match.fragment.as_str().unicode_len();
    proof {
        crate::lines::lemma_lines_props(text_match.fragment@, 0);
        assert forall|m: int| 0 <= m < rsv.len() implies (#[trigger] rsv[m]).0 < rsv[m].1 by {
            assert(text_match.matches@[m].indices.0 < text_match.matches@[m].indices.1);
        }
        assert forall|m: int, l: int| 0 <= m < l < rsv.len() implies (#[trigger] rsv[m]).1 <= (
        #[trigger] rsv[l]).0 by {
            assert(text_match.matches@[m].indices.1 <= text_match.matches@[l].indices.0);
        }
    }
    let selected = state.selected_item_idx == idx;
    let mut title = String::from_str(" ");
    title.append(item_result.repository.full_name.as_str());
    title.append(" ");
    title.append(item_result.path.as_str());
    title.append(" ");
    proof {
        reveal_strlit(" ");
        assert(title@ =~= spec_title(*item_result));
    }
    let title_style = CellStyle { fg: Color::LightCyan, bold: true, reversed: selected };
    draw_span(buf, area, area.x, area.y, title.as_str(), title_style);
    let lines = fragment_lines(text_match);
    let mut k: usize = 0;
    proof {
        assert forall|xx: int, yy: int| old(buf).area.spec_contains(xx, yy) implies #[trigger] buf
            .cell_at(xx, yy) == (if area.spec_contains(xx, yy) && yy < area.y + 1 {
            spec_tm_cell(*item_result, *text_match, area, sel, xx, yy, old(buf).cell_at(xx, yy))
        } else {
            old(buf).cell_at(xx, yy)
        }) by {
            if area.spec_contains(xx, yy) && yy < area.y + 1 {
                assert(yy == area.y as int);
            }
        }
    }
    while k < lines.len()
        invariant
            area.wf(),
            buf.wf(),
            buf.area == old(buf).area,
            text_match.wf(),
            5 * text_match.fragment@.len() <= usize::MAX,
            flen == text_match.fragment@.len(),
            ls == crate::lines::spec_lines(text_match.fragment@, 0),
            rsv == crate::ranges::match_views(text_match.matches@),
            forall|m: int| 0 <= m < rsv.len() ==> (#[trigger] rsv[m]).0 < rsv[m].1,
            forall|m: int, l: int|
                0 <= m < l < rsv.len() ==> (#[trigger] rsv[m]).1 <= (#[trigger] rsv[l]).0,
            sel == (state.selected_item_idx == idx),
            sel == selected,
            lines@.len() == ls.len(),
            forall|j: int|
                0 <= j < ls.len() ==> 0 <= (#[trigger] ls[j]).1 && ls[j].1 + ls[j].0.len() <= flen,
            forall|j: int|
                0 <= j < ls.len() ==> {
                    let e = spec_expand(ls[j].0);
                    let segs = spec_line_segs(*text_match, ls[j]);
                    let spans = (#[trigger] lines@[j]).spans@;
                    &&& spans.len() == segs.len()
                    &&& forall|m: int|
                        0 <= m < segs.len() ==> (#[trigger] spans[m]).is_match == segs[m].2
                            && spans[m].text@ == e.subrange(
                            segs[m].0 - ls[j].1,
                            segs[m].1 - ls[j].1,
                        )
                },
            k <= ls.len(),
            forall|xx: int, yy: int|
                old(buf).area.spec_contains(xx, yy) ==> #[trigger] buf.cell_at(xx, yy) == (
                if area.spec_contains(xx, yy) && yy < area.y + 1 + k {
                    spec_tm_cell(
                        *item_result,
                        *text_match,
                        area,
                        sel,
                        xx,
                        yy,
                        old(buf).cell_at(xx, yy),
                    )
                } else {
                    old(buf).cell_at(xx, yy)
                }),
        decreases lines@.len() - k,
    {
        let ghost l = ls[k as int];
        let ghost e = spec_expand(l.0);
        let ghost cs = l.1;
        let ghost segs = spec_line_segs(*text_match, l);
        proof {
            lemma_expand_len(l.0);
            crate::ranges::lemma_fill_out_tiles((cs, cs + e.len() as int), rsv);
            crate::ranges::lemma_fill_out_disjoint((cs, cs + e.len() as int), rsv);
        }
        if k < u16::MAX as usize && area.y as usize + 1 + k <= u16::MAX as usize {
            let ly = area.y as usize + 1 + k;
            let line = &lines[k];
            let mut x_cur: usize = area.x as usize;
            let mut sp: usize = 0;
            while sp < line.spans.len()
                invariant
                    area.wf(),
                    buf.wf(),
                    buf.area == old(buf).area,
                    ly == area.y + 1 + k,
                    ly <= u16::MAX,
                    sel == selected,
                    k < ls.len(),
                    l == ls[k as int],
                    e == spec_expand(l.0),
                    cs == l.1,
                    0 <= cs && cs + l.0.len() <= flen,
                    e.len() <= 4 * l.0.len(),
                    5 * flen <= usize::MAX,
                    segs == spec_line_segs(*text_match, l),
                    line == &lines@[k as int],
                    line.spans@.len() == segs.len(),
                    forall|m: int|
                        0 <= m < segs.len() ==> (#[trigger] line.spans@[m]).is_match == segs[m].2
                            && line.spans@[m].text@ == e.subrange(segs[m].0 - cs, segs[m].1 - cs),
                    segs.len() > 0 ==> segs[0].0 == cs && segs[segs.len() - 1].1 == cs + e.len(),
                    forall|m: int|
                        0 <= m < segs.len() ==> cs <= (#[trigger] segs[m]).0 < segs[m].1 <= cs
                            + e.len(),
                    forall|m: int|
                        0 <= m < segs.len() - 1 ==> (#[trigger] segs[m]).1 == segs[m + 1].0,
                    forall|a: int, b: int|
                        0 <= a < b < segs.len() ==> (#[trigger] segs[a]).1 <= (#[trigger] segs[b]).0,
                    sp <= segs.len(),
                    x_cur as int == area.x + (if sp < segs.len() {
                        segs[sp as int].0 - cs
                    } else {
                        e.len() as int
                    }),
                    forall|xx: int, yy: int|
                        old(buf).area.spec_contains(xx, yy) ==> #[trigger] buf.cell_at(xx, yy) == (
                        if area.spec_contains(xx, yy) && yy < ly {
                            spec_tm_cell(
                                *item_result,
                                *text_match,
                                area,
                                sel,
                                xx,
                                yy,
                                old(buf).cell_at(xx, yy),
                            )
                        } else if area.spec_contains(xx, yy) && yy == ly && xx < x_cur {
                            Cell {
                                symbol: e[xx - area.x],
                                style: spec_cell_style(
                                    spec_pos_matched(*text_match, l, cs + (xx - area.x)),
                                    sel,
                                ),
                            }
                        } else {
                            old(buf).cell_at(xx, yy)
                        }),
                ensures
                    sp == line.spans@.len() || x_cur > u16::MAX as usize,
                decreases line.spans@.len() - sp,
            {
                let span = &line.spans[sp];
                if x_cur > u16::MAX as usize {
                    break ;
                }
                let style = if span.is_match {
                    CellStyle { fg: Color::Yellow, bold: true, reversed: selected }
                } else {
                    CellStyle { fg: Color::Reset, bold: false, reversed: selected }
                };
                let ghost a = segs[sp as int].0 - cs;
                let ghost b = segs[sp as int].1 - cs;
                let ghost x0 = x_cur as int;
                let ghost sp0 = sp as int;
                let ghost buf0 = *buf;
                draw_span(buf, area, x_cur as u16, ly as u16, span.text.as_str(), style);
                let w = span.text.as_str().unicode_len();
                proof {
                    assert(span.text@ == e.subrange(a, b));
                    assert(w == b - a);
                    assert forall|xx: int|
                        area.x + a <= xx < area.x + b implies #[trigger] span.text@[xx - (area.x
                        + a)] == e[xx - area.x] by {
                        assert(e.subrange(a, b)[xx - area.x - a] == e[xx - area.x]);
                    }
                    assert forall|pos: int|
                        segs[sp as int].0 <= pos < segs[sp as int].1 implies #[trigger]
                    spec_pos_matched(*text_match, l, pos) == segs[sp as int].2 by {
                        if segs[sp as int].2 {
                            assert(spec_pos_matched(*text_match, l, pos));
                        } else {
                            assert forall|m: int|
                                0 <= m < segs.len() && (#[trigger] segs[m]).0 <= pos
                                    < segs[m].1 implies !segs[m].2 by {
                                if m < sp as int {
                                    assert(segs[m].1 <= segs[sp as int].0);
                                } else if m > sp as int {
                                    assert(segs[sp as int].1 <= segs[m].0);
                                }
                            }
                            assert(!spec_pos_matched(*text_match, l, pos));
                        }
                    }
                }
                x_cur = x_cur + w;
                sp = sp + 1;
                proof {
                    if sp < segs.len() {
                        assert(segs[sp as int - 1].1 == segs[sp as int].0);
                    }
                    assert forall|xx: int, yy: int|
                        old(buf).area.spec_contains(xx, yy) implies #[trigger] buf.cell_at(xx, yy)
                        == (if area.spec_contains(xx, yy) && yy < ly {
                        spec_tm_cell(
                            *item_result,
                            *text_match,
                            area,
                            sel,
                            xx,
                            yy,
                            old(buf).cell_at(xx, yy),
                        )
                    } else if area.spec_contains(xx, yy) && yy == ly && xx < x_cur {
                        Cell {
                            symbol: e[xx - area.x],
                            style: spec_cell_style(
                                spec_pos_matched(*text_match, l, cs + (xx - area.x)),
                                sel,
                            ),
                        }
                    } else {
                        old(buf).cell_at(xx, yy)
                    }) by {
                        if area.spec_contains(xx, yy) && yy == ly as int && x0 <= xx < x_cur {
                            assert(buf.cell_at(xx, yy) == Cell {
                                symbol: span.text@[xx - x0],
                                style,
                            });
                            assert(span.text@[xx - (area.x + a)] == e[xx - area.x]);
                            assert(segs[sp0].0 <= cs + (xx - area.x) < segs[sp0].1);
                            assert(spec_pos_matched(*text_match, l, cs + (xx - area.x))
                                == segs[sp0].2);
                        } else {
                            assert(buf.cell_at(xx, yy) == buf0.cell_at(xx, yy));
                        }
                    }
                }
            }
            proof {
                assert forall|xx: int, yy: int|
                    old(buf).area.spec_contains(xx, yy) implies #[trigger] buf.cell_at(xx, yy) == (
                    if area.spec_contains(xx, yy) && yy < area.y + 1 + (k + 1) {
                        spec_tm_cell(
                            *item_result,
                            *text_match,
                            area,
                            sel,
                            xx,
                            yy,
                            old(buf).cell_at(xx, yy),
                        )
                    } else {
                        old(buf).cell_at(xx, yy)
                    }) by {
                    if area.spec_contains(xx, yy) && yy == ly {
                        assert(xx < area.x + area.width);
                        if xx < x_cur {
                            assert(area.x <= xx < area.x + e.len());
                        } else {
                            assert(sp == line.spans@.len());
                            assert(xx >= area.x + e.len());
                        }
                    }
                }
            }
        } else {
            proof {
                assert forall|xx: int, yy: int|
                    old(buf).area.spec_contains(xx, yy) && area.spec_contains(xx, yy) implies yy
                    != area.y + 1 + k by {
                    assert(yy < area.y + area.height <= u16::MAX);
                }
            }
        }
        k = k + 1;
    }
}

/// Where the scroll lands after the selection is brought into view: the
/// window is moved down just enough when the selection's bottom lies below
/// it, moved up to the selection's top when that lies above the incoming
/// window, and is left alone when the selection already fits.
pub open spec fn spec_adjust(scroll: int, sel_start: int, sel_end: int, h: int) -> int {
    let s1 = if sel_end > scroll + h {
        sel_end - h
    } else {
        scroll
    };
    if sel_start < scroll {
        sel_start
    } else {
        s1
    }
}

/// Brings the selection's rendered range `[sel_start, sel_end)` into the
/// viewport of height `viewport` by moving `scroll` as little as possible:
/// afterwards the whole range lies inside the window whenever it fits, and
/// a selection already in view leaves the scroll untouched.
pub fn adjust_scroll(scroll: usize, sel_start: usize, sel_end: usize, viewport: usize) -> (r: usize)
    requires
        sel_start <= sel_end,
    ensures
        r as int == spec_adjust(scroll as int, sel_start as int, sel_end as int, viewport as int),
        sel_end - sel_start <= viewport ==> r <= sel_start && sel_end <= r + viewport,
        sel_start >= scroll && sel_end <= scroll + viewport ==> r == scroll,
{
    let s1: usize = if sel_end > viewport && sel_end - viewport > scroll {
        sel_end - viewport
    } else {
        scroll
    };
    if sel_start < scroll {
        sel_start
    } else {
        s1
    }
}

/// The rendered height of one filtered match: its fragment's line count.
pub open spec fn spec_height(code: CodeResults, p: (int, int)) -> int {
    crate::lines::spec_lines(code.items@[p.0].text_matches@[p.1].fragment@, 0).len() as int
}

/// The canvas row where the `k`-th filtered match begins: every earlier
/// match contributes its height plus three rows of frame.
pub open spec fn spec_off(code: CodeResults, st: SearchResultsState, k: int) -> int
    decreases k,
{
    if k <= 0 {
        0
    } else {
        spec_off(code, st, k - 1) + (if k - 1 < spec_filtered(code, st).len() {
            spec_height(code, spec_filtered(code, st)[k - 1]) + 3
        } else {
            0
        })
    }
}

/// A row count clamped to what a canvas can hold.
pub open spec fn cap_u16(v: int) -> int {
    if v <= 0xffff {
        v
    } else {
        0xffff
    }
}

proof fn lemma_off_monotone(code: CodeResults, st: SearchResultsState, a: int, b: int)
    requires
        0 <= a <= b,
    ensures
        spec_off(code, st, a) <= spec_off(code, st, b),
    decreases b - a,
{
    if a < b {
        lemma_off_monotone(code, st, a, b - 1);
    }
}

proof fn lemma_off_beyond(code: CodeResults, st: SearchResultsState, k: int)
    requires
        k >= spec_filtered(code, st).len(),
        k >= 0,
    ensures
        spec_off(code, st, k) == spec_off(code, st, spec_filtered(code, st).len() as int),
    decreases k,
{
    if k > spec_filtered(code, st).len() {
        lemma_off_beyond(code, st, k - 1);
    }
}

proof fn lemma_sorted_chain(s: Seq<crate::results::MatchSegment>, k: int, l: int)
    requires
        forall|m: int|
            0 <= m < s.len() ==> (#[trigger] s[m]).indices.0 < s[m].indices.1,
        forall|m: int|
            0 <= m < s.len() - 1 ==> (#[trigger] s[m]).indices.1 <= s[m + 1].indices.0,
        0 <= k < l < s.len(),
    ensures
        s[k].indices.1 <= s[l].indices.0,
    decreases l - k,
{
    if k + 1 < l {
        lemma_sorted_chain(s, k, l - 1);
        assert(s[l - 1].indices.1 <= s[l].indices.0);
    } else {
        assert(s[k].indices.1 <= s[k + 1].indices.0);
    }
}

/// Whether the match ranges are nonempty, ascending and non-overlapping.
fn matches_wf(tm: &TextMatch) -> (r: bool)
    ensures
        r == tm.wf(),
{
    let n = tm.matches.len();
    let mut k: usize = 0;
    while k < n
        invariant
            n == tm.matches@.len(),
            k <= n,
            forall|m: int|
                0 <= m < k ==> (#[trigger] tm.matches@[m]).indices.0 < tm.matches@[m].indices.1,
            forall|m: int|
                0 <= m < k && m + 1 < n ==> (#[trigger] tm.matches@[m]).indices.1 <= tm.matches@[m
                    + 1].indices.0,
        decreases n - k,
    {
        let seg = &tm.matches[k];
        if !(seg.indices.0 < seg.indices.1) {
            return false;
        }
        if k + 1 < n {
            let nxt = &tm.matches[k + 1];
            if !(seg.indices.1 <= nxt.indices.0) {
                return false;
            }
        }
        k = k + 1;
    }
    proof {
        assert forall|a: int, b: int| 0 <= a < b < n implies (#[trigger] tm.matches@[a]).indices.1
            <= (#[trigger] tm.matches@[b]).indices.0 by {
            lemma_sorted_chain(tm.matches@, a, b);
        }
    }
    true
}

/// The part of the results area inside its one-cell border, where the
/// scrolled window of the canvas lands.
pub open spec fn spec_inner(area: Rect) -> Rect {
    if area.width >= 2 && area.height >= 2 {
        Rect { x: (area.x + 1) as u16, y: (area.y + 1) as u16, width: (area.width - 2) as u16, height: (area.height - 2) as u16 }
    } else {
        Rect { x: area.x, y: area.y, width: 0u16, height: 0u16 }
    }
}

/// The slot of the `k`-th filtered match on the off-screen canvas: its
/// rows on the canvas, full width.
pub open spec fn spec_slot(code: CodeResults, st: SearchResultsState, width: u16, k: int) -> Rect {
    Rect {
        x: 0u16,
        y: spec_off(code, st, k) as u16,
        width,
        height: (spec_height(code, spec_filtered(code, st)[k]) + 3) as u16,
    }
}

/// What the off-screen canvas holds: every filtered match drawn into its
/// slot exactly as `spec_tm_cell` gives it (a fragment with malformed
/// match ranges, or one too large for offset arithmetic, leaves its slot
/// blank), and every row below the slots blank.
pub open spec fn spec_canvas_painted(code: CodeResults, st: SearchResultsState, canvas: Canvas) -> bool {
    let f = spec_filtered(code, st);
    &&& forall|k: int|
        0 <= k < f.len() ==> {
            let p = #[trigger] f[k];
            let item = code.items@[p.0];
            let tm = item.text_matches@[p.1];
            let slot = spec_slot(code, st, canvas.area.width, k);
            forall|x: int, y: int|
                canvas.area.spec_contains(x, y) && slot.spec_contains(x, y)
                    ==> #[trigger] canvas.cell_at(x, y) == (if tm.wf() && 5 * tm.fragment@.len()
                    <= usize::MAX {
                    spec_tm_cell(item, tm, slot, st.selected_item_idx == k, x, y, blank_cell())
                } else {
                    blank_cell()
                })
        }
    &&& forall|x: int, y: int|
        canvas.area.spec_contains(x, y) && y >= spec_off(code, st, f.len() as int)
            ==> #[trigger] canvas.cell_at(x, y) == blank_cell()
}

impl<'a> SearchResults<'a> {
    /// Lays out every filtered fragment vertically on an off-screen canvas
    /// sized to the total content height, brings the selected fragment
    /// into view, and copies the scrolled window of the canvas into the
    /// area of `buf` inside its border. Afterwards the selected fragment's
    /// rendered range lies within the visible window whenever the canvas
    /// was not clipped and the fragment fits the viewport, and the window
    /// shows the scrolled cells of that canvas.
    #[verifier::rlimit(100)]
    pub fn render(&self, area: Rect, buf: &mut Canvas, state: &mut SearchResultsState)
        requires
            old(buf).wf(),
            area.wf(),
        ensures
            final(buf).wf(),
            final(buf).area == old(buf).area,
            final(state).selected_item_idx == old(state).selected_item_idx,
            final(state).filter_mode == old(state).filter_mode,
            final(state).filter_input_state == old(state).filter_input_state,
            ({
                let code = *self.code;
                let st0 = *old(state);
                let f = spec_filtered(code, st0);
                let sel = st0.selected_item_idx as int;
                let inner_h: int = if area.width >= 2 && area.height >= 2 {
                    area.height - 2
                } else {
                    0
                };
                &&& forall|x: int, y: int|
                    old(buf).area.spec_contains(x, y) && !spec_inner(area).spec_contains(x, y)
                        ==> #[trigger] final(buf).cell_at(x, y) == old(buf).cell_at(x, y)
                &&& final(state).vertical_scroll as int == spec_adjust(
                    st0.vertical_scroll as int,
                    cap_u16(spec_off(code, st0, sel)),
                    cap_u16(spec_off(code, st0, sel + 1)),
                    inner_h,
                )
                &&& (sel < f.len() && spec_off(code, st0, f.len() as int) <= 0xffff && spec_height(
                    code,
                    f[sel],
                ) + 3 <= inner_h) ==> spec_off(code, st0, sel) >= final(state).vertical_scroll
                    && spec_off(code, st0, sel + 1) <= final(state).vertical_scroll + inner_h
                &&& spec_off(code, st0, f.len() as int) <= 0xffff ==> exists|canvas: Canvas|
                    {
                        &&& canvas.wf()
                        &&& canvas.area == (Rect {
                            x: 0u16,
                            y: 0u16,
                            width: spec_inner(area).width,
                            height: spec_off(code, st0, f.len() as int) as u16,
                        })
                        &&& #[trigger] spec_canvas_painted(code, st0, canvas)
                        &&& forall|x: int, y: int|
                            old(buf).area.spec_contains(x, y) && spec_inner(area).spec_contains(
                                x,
                                y,
                            ) ==> #[trigger] final(buf).cell_at(x, y) == blit_cell(
                                *old(buf),
                                canvas,
                                spec_inner(area),
                                (
                                    0u16,
                                    cap_u16(
                                        spec_adjust(
                                            st0.vertical_scroll as int,
                                            cap_u16(spec_off(code, st0, sel)),
                                            cap_u16(spec_off(code, st0, sel + 1)),
                                            inner_h,
                                        ),
                                    ) as u16,
                                ),
                                x,
                                y,
                            )
                    }
            }),
    {
        let ghost code = *self.code;
        let ghost st0 = *state;
        let ghost f = spec_filtered(code, st0);
        let inner: Rect = if area.width >= 2 && area.height >= 2 {
            Rect::new(area.x + 1, area.y + 1, area.width - 2, area.height - 2)
        } else {
            Rect::new(area.x, area.y, 0, 0)
        };
        proof {
            assert(inner == spec_inner(area));
        }
        let filtered = iter_text_matches_filtered(self.code, state);
        proof {
            lemma_filtered_bounds(st0, code);
        }
        let n = filtered.len();
        let mut offs: Vec<u16> = Vec::new();
        offs.push(0);
        let mut heights: Vec<usize> = Vec::new();
        let mut acc: u64 = 0;
        let mut k: usize = 0;
        while k < n
            invariant
                *state == st0,
                code == *self.code,
                f == spec_filtered(code, st0),
                pair_views(filtered@) == f,
                n == filtered@.len(),
                k <= n,
                heights@.len() == k,
                offs@.len() == k + 1,
                forall|m: int|
                    0 <= m < f.len() ==> 0 <= (#[trigger] f[m]).0 < code.items@.len() && 0 <= f[m].1
                        < code.items@[f[m].0].text_matches@.len(),
                forall|m: int|
                    0 <= m < k ==> (#[trigger] heights@[m]) as int == spec_height(code, f[m]),
                forall|m: int|
                    0 <= m <= k ==> (#[trigger] offs@[m]) as int == cap_u16(spec_off(code, st0, m)),
                acc == offs@[k as int] as u64,
            decreases n - k,
        {
            let p = filtered[k];
            proof {
                assert(pair_views(filtered@)[k as int] == (p.0 as int, p.1 as int));
            }
            let item = &self.code.items[p.0];
            let tm = &item.text_matches[p.1];
            let h = crate::lines::count_lines(tm.fragment.as_str());
            heights.push(h);
            let hh: u64 = if h as u64 > 65535 {
                65535
            } else {
                h as u64
            };
            acc = acc + hh + 3;
            if acc > 65535 {
                acc = 65535;
            }
            offs.push(acc as u16);
            proof {
                lemma_off_monotone(code, st0, 0, k as int);
                assert(spec_off(code, st0, k + 1) == spec_off(code, st0, k as int) + spec_height(
                    code,
                    f[k as int],
                ) + 3);
                assert(acc as int == cap_u16(spec_off(code, st0, k + 1)));
            }
            k = k + 1;
        }
        let total_u16: u16 = acc as u16;
        let mut tbuf = Canvas::empty(Rect::new(0, 0, inner.width, total_u16));
        let mut k2: usize = 0;
        while k2 < n
            invariant
                *state == st0,
                code == *self.code,
                f == spec_filtered(code, st0),
                pair_views(filtered@) == f,
                n == filtered@.len(),
                k2 <= n,
                heights@.len() == n,
                offs@.len() == n + 1,
                forall|m: int|
                    0 <= m < f.len() ==> 0 <= (#[trigger] f[m]).0 < code.items@.len() && 0 <= f[m].1
                        < code.items@[f[m].0].text_matches@.len(),
                forall|m: int|
                    0 <= m <= n ==> (#[trigger] offs@[m]) as int == cap_u16(spec_off(code, st0, m)),
                forall|m: int|
                    0 <= m < n ==> (#[trigger] heights@[m]) as int == spec_height(code, f[m]),
                tbuf.wf(),
                tbuf.area == (Rect { x: 0u16, y: 0u16, width: inner.width, height: total_u16 }),
                total_u16 as int == cap_u16(spec_off(code, st0, n as int)),
                spec_off(code, st0, n as int) <= 0xffff ==> {
                    &&& forall|j: int|
                        0 <= j < k2 ==> {
                            let p = #[trigger] f[j];
                            let item = code.items@[p.0];
                            let tm = item.text_matches@[p.1];
                            let slot = spec_slot(code, st0, tbuf.area.width, j);
                            forall|x: int, y: int|
                                tbuf.area.spec_contains(x, y) && slot.spec_contains(x, y)
                                    ==> #[trigger] tbuf.cell_at(x, y) == (if tm.wf() && 5
                                    * tm.fragment@.len() <= usize::MAX {
                                    spec_tm_cell(
                                        item,
                                        tm,
                                        slot,
                                        st0.selected_item_idx == j,
                                        x,
                                        y,
                                        blank_cell(),
                                    )
                                } else {
                                    blank_cell()
                                })
                        }
                    &&& forall|x: int, y: int|
                        tbuf.area.spec_contains(x, y) && y >= spec_off(code, st0, k2 as int)
                            ==> #[trigger] tbuf.cell_at(x, y) == blank_cell()
                },
            decreases n - k2,
        {
            let p = filtered[k2];
            proof {
                assert(pair_views(filtered@)[k2 as int] == (p.0 as int, p.1 as int));
            }
            let item = &self.code.items[p.0];
            let tm = &item.text_matches[p.1];
            let y_off = offs[k2];
            let h = heights[k2];
            let slot_h_wide: u64 = if h as u64 > 65535 {
                65535
            } else {
                h as u64 + 3
            };
            let slot_h: u16 = if slot_h_wide > 65535 - y_off as u64 {
                65535 - y_off
            } else {
                slot_h_wide as u16
            };
            let ghost fit = spec_off(code, st0, n as int) <= 0xffff;
            let ghost slot_spec = spec_slot(code, st0, tbuf.area.width, k2 as int);
            proof {
                if fit {
                    lemma_off_monotone(code, st0, 0, k2 as int);
                    lemma_off_monotone(code, st0, k2 + 1, n as int);
                    assert(spec_off(code, st0, k2 + 1) == spec_off(code, st0, k2 as int)
                        + spec_height(code, f[k2 as int]) + 3);
                    assert(y_off as int == spec_off(code, st0, k2 as int));
                    assert(h as int == spec_height(code, f[k2 as int]));
                    assert(slot_h as int == h + 3);
                    assert(slot_spec == (Rect { x: 0u16, y: y_off, width: inner.width, height: slot_h }));
                }
            }
            let flen = tm.fragment.as_str().unicode_len();
            let tm_ok = matches_wf(tm) && flen <= usize::MAX / 5;
            proof {
                assert((flen <= usize::MAX / 5) == (5 * flen <= usize::MAX));
                assert(tm_ok == (tm.wf() && 5 * tm.fragment@.len() <= usize::MAX));
            }
            let ghost tb0 = tbuf;
            if tm_ok {
                let slot = Rect::new(0, y_off, inner.width, slot_h);
                render_text_match(k2, item, tm, slot, &mut tbuf, state);
            }
            proof {
                if fit {
                    assert forall|x: int, y: int|
                        tbuf.area.spec_contains(x, y) && slot_spec.spec_contains(x, y) implies
                        #[trigger] tbuf.cell_at(x, y) == (if tm.wf() && 5 * tm.fragment@.len()
                            <= usize::MAX {
                        spec_tm_cell(
                            *item,
                            *tm,
                            slot_spec,
                            st0.selected_item_idx == k2 as int,
                            x,
                            y,
                            blank_cell(),
                        )
                    } else {
                        blank_cell()
                    }) by {
                        assert(y >= spec_off(code, st0, k2 as int));
                        assert(tb0.cell_at(x, y) == blank_cell());
                    }
                    assert forall|j: int| 0 <= j < k2 + 1 implies {
                        let pj = #[trigger] f[j];
                        let itemj = code.items@[pj.0];
                        let tmj = itemj.text_matches@[pj.1];
                        let slotj = spec_slot(code, st0, tbuf.area.width, j);
                        forall|x: int, y: int|
                            tbuf.area.spec_contains(x, y) && slotj.spec_contains(x, y)
                                ==> #[trigger] tbuf.cell_at(x, y) == (if tmj.wf() && 5
                                * tmj.fragment@.len() <= usize::MAX {
                                spec_tm_cell(
                                    itemj,
                                    tmj,
                                    slotj,
                                    st0.selected_item_idx == j,
                                    x,
                                    y,
                                    blank_cell(),
                                )
                            } else {
                                blank_cell()
                            })
                    } by {
                        if j < k2 as int {
                            let pj = f[j];
                            let slotj = spec_slot(code, st0, tbuf.area.width, j);
                            lemma_off_monotone(code, st0, j + 1, k2 as int);
                            assert(spec_off(code, st0, j + 1) == spec_off(code, st0, j)
                                + spec_height(code, f[j]) + 3);
                            lemma_off_monotone(code, st0, 0, j);
                            assert forall|x: int, y: int|
                                tbuf.area.spec_contains(x, y) && slotj.spec_contains(
                                    x,
                                    y,
                                ) implies #[trigger] tbuf.cell_at(x, y) == tb0.cell_at(x, y) by {
                                assert(y < spec_off(code, st0, j + 1));
                                assert(!slot_spec.spec_contains(x, y));
                            }
                        }
                    }
                    assert forall|x: int, y: int|
                        tbuf.area.spec_contains(x, y) && y >= spec_off(code, st0, k2 + 1) implies
                        #[trigger] tbuf.cell_at(x, y) == blank_cell() by {
                        assert(!slot_spec.spec_contains(x, y));
                        assert(tb0.cell_at(x, y) == blank_cell());
                    }
                }
            }
            k2 = k2 + 1;
        }
        let sel = state.selected_item_idx;
        let idx_s = if sel < n {
            sel
        } else {
            n
        };
        let idx_e = if sel < n {
            sel + 1
        } else {
            n
        };
        proof {
            if sel >= n {
                lemma_off_beyond(code, st0, sel as int);
                lemma_off_beyond(code, st0, sel as int + 1);
            }
            lemma_off_monotone(code, st0, idx_s as int, idx_e as int);
        }
        let start_c = offs[idx_s] as usize;
        let end_c = offs[idx_e] as usize;
        let vh = inner.height as usize;
        let new_scroll = adjust_scroll(state.vertical_scroll, start_c, end_c, vh);
        proof {
            let selg = st0.selected_item_idx as int;
            if selg < f.len() && spec_off(code, st0, f.len() as int) <= 0xffff && spec_height(
                code,
                f[selg],
            ) + 3 <= inner.height as int {
                lemma_off_monotone(code, st0, selg, f.len() as int);
                lemma_off_monotone(code, st0, selg + 1, f.len() as int);
                lemma_off_monotone(code, st0, 0, selg);
                assert(spec_off(code, st0, selg + 1) == spec_off(code, st0, selg) + spec_height(
                    code,
                    f[selg],
                ) + 3);
                assert(start_c as int == spec_off(code, st0, selg));
                assert(end_c as int == spec_off(code, st0, selg + 1));
            }
        }
        state.vertical_scroll = new_scroll;
        let scroll_u16: u16 = if new_scroll > 65535 {
            65535
        } else {
            new_scroll as u16
        };
        blit(buf, &tbuf, inner, (0, scroll_u16));
        proof {
            if spec_off(code, st0, f.len() as int) <= 0xffff {
                let selg = st0.selected_item_idx as int;
                let inner_h: int = if area.width >= 2 && area.height >= 2 {
                    area.height - 2
                } else {
                    0
                };
                let scr = spec_adjust(
                    st0.vertical_scroll as int,
                    cap_u16(spec_off(code, st0, selg)),
                    cap_u16(spec_off(code, st0, selg + 1)),
                    inner_h,
                );
                assert(tbuf.area == (Rect {
                    x: 0u16,
                    y: 0u16,
                    width: spec_inner(area).width,
                    height: spec_off(code, st0, f.len() as int) as u16,
                }));
                assert(spec_canvas_painted(code, st0, tbuf));
                assert(scroll_u16 as int == cap_u16(scr));
                assert(scroll_u16 == cap_u16(scr) as u16);
                assert forall|x: int, y: int|
                    old(buf).area.spec_contains(x, y) && spec_inner(area).spec_contains(
                        x,
                        y,
                    ) implies #[trigger] buf.cell_at(x, y) == blit_cell(
                    *old(buf),
                    tbuf,
                    spec_inner(area),
                    (0u16, cap_u16(scr) as u16),
                    x,
                    y,
                ) by {}
            }
        }
    }
}

} // verus!
