//! Search history: an ordered list of past query strings, most recent
//! first, capped in length, with an optional highlighted index used for
//! recall navigation.

use vstd::prelude::*;

verus! {

/// The largest number of entries the history keeps.
pub const MAX_HISTORY_SIZE: usize = 100;

/// Past query strings, most recent first, with the optional index that
/// recall navigation currently highlights.
#[derive(Debug, Clone)]
pub struct SearchHistory {
    pub searches: Vec<String>,
    pub selected_idx: Option<usize>,
}

/// Whether an entry reads differently from the query `q`.
pub open spec fn differs_from(q: String) -> spec_fn(String) -> bool {
    |s: String| s@ != q@
}

/// What the history holds after a query is recorded: the query at the
/// front, every other copy of it removed, cut off at the cap.
pub open spec fn spec_after_add(searches: Seq<String>, query: String) -> Seq<String> {
    let kept = seq![query] + searches.filter(differs_from(query));
    if kept.len() <= MAX_HISTORY_SIZE {
        kept
    } else {
        kept.take(MAX_HISTORY_SIZE as int)
    }
}

/// The history after the highlight moves one entry down.
pub open spec fn spec_select_next(h: SearchHistory) -> SearchHistory {
    if h.searches@.len() == 0 {
        h
    } else {
        SearchHistory {
            searches: h.searches,
            selected_idx: Some(
                match h.selected_idx {
                    None => 0usize,
                    Some(idx) => if idx + 1 < h.searches@.len() {
                        (idx + 1) as usize
                    } else {
                        (h.searches@.len() - 1) as usize
                    },
                },
            ),
        }
    }
}

/// The history after the highlight moves one entry up.
pub open spec fn spec_select_prev(h: SearchHistory) -> SearchHistory {
    if h.searches@.len() == 0 {
        h
    } else {
        SearchHistory {
            searches: h.searches,
            selected_idx: Some(
                match h.selected_idx {
                    None => 0usize,
                    Some(idx) => if idx > 0 {
                        (idx - 1) as usize
                    } else {
                        0usize
                    },
                },
            ),
        }
    }
}

/// The entry the highlight points at, if it is set and in bounds.
pub open spec fn spec_selected(h: SearchHistory) -> Option<String> {
    match h.selected_idx {
        Some(idx) => if idx < h.searches@.len() {
            Some(h.searches@[idx as int])
        } else {
            None
        },
        None => None,
    }
}

impl SearchHistory {
    /// A history over the given entries, with nothing highlighted.
    pub fn new(searches: Vec<String>) -> (r: SearchHistory)
        ensures
            r.searches == searches,
            r.selected_idx is None,
    {
        SearchHistory { searches, selected_idx: None }
    }

    /// Records a completed query: removes existing occurrences, adds it to
    /// the front, and cuts the list off at the cap. The highlight is left
    /// as it is.
    pub fn add_search(&mut self, query: String)
        requires
            old(self).searches@.len() < usize::MAX,
        ensures
            final(self).searches@ == spec_after_add(old(self).searches@, query),
            final(self).selected_idx == old(self).selected_idx,
    {
        let mut kept: Vec<String> = Vec::new();
        kept.push(query.clone());
        let mut i: usize = 0;
        proof {
            reveal_with_fuel(Seq::<String>::filter, 2);
            assert(self.searches@.take(0).filter(differs_from(query)) =~= Seq::<String>::empty());
        }
        while i < self.searches.len()
            invariant
                i <= self.searches@.len(),
                kept@ == seq![query] + self.searches@.take(i as int).filter(differs_from(query)),
            decreases self.searches@.len() - i,
        {
            let s = &self.searches[i];
            proof {
                reveal_with_fuel(Seq::<String>::filter, 2);
                let t = self.searches@.take(i + 1);
                assert(t.drop_last() =~= self.searches@.take(i as int));
                assert(t.last() == self.searches@[i as int]);
            }
            if !(*s == query) {
                kept.push(s.clone());
                proof {
                    reveal_with_fuel(Seq::<String>::filter, 2);
                    let t = self.searches@.take(i + 1);
                    assert(t.len() == i + 1);
                    assert(differs_from(query)(t.last()));
                    assert(t.filter(differs_from(query)) == t.drop_last().filter(
                        differs_from(query),
                    ).push(t.last()));
                    assert(kept@ =~= seq![query] + t.filter(differs_from(query)));
                }
            } else {
                proof {
                    reveal_with_fuel(Seq::<String>::filter, 2);
                    let t = self.searches@.take(i + 1);
                    assert(!differs_from(query)(t.last()));
                    assert(t.filter(differs_from(query)) == t.drop_last().filter(
                        differs_from(query),
                    ));
                    assert(kept@ =~= seq![query] + t.filter(differs_from(query)));
                }
            }
            i = i + 1;
        }
        proof {
            assert(self.searches@.take(self.searches@.len() as int) =~= self.searches@);
        }
        if kept.len() > MAX_HISTORY_SIZE {
            kept.truncate(MAX_HISTORY_SIZE);
        }
        self.searches = kept;
    }

    /// Moves the highlight one entry down, to the first entry if nothing
    /// was highlighted, never past the last entry; a highlight out of
    /// bounds is clamped to the last entry. Does nothing when the history
    /// is empty.
    pub fn select_next(&mut self)
        ensures
            *final(self) == spec_select_next(*old(self)),
    {
        if self.searches.len() == 0 {
            return ;
        }
        self.selected_idx = Some(
            match self.selected_idx {
                None => 0,
                Some(idx) => {
                    if idx < self.searches.len() - 1 {
                        idx + 1
                    } else {
                        self.searches.len() - 1
                    }
                },
            },
        );
    }

    /// Moves the highlight one entry up, to the first entry if nothing was
    /// highlighted, never above the first. Does nothing when the history
    /// is empty.
    pub fn select_prev(&mut self)
        ensures
            *final(self) == spec_select_prev(*old(self)),
    {
        if self.searches.len() == 0 {
            return ;
        }
        self.selected_idx = Some(
            match self.selected_idx {
                None => 0,
                Some(idx) => {
                    if idx > 0 {
                        idx - 1
                    } else {
                        0
                    }
                },
            },
        );
    }

    /// The highlighted entry, if the highlight is set and in bounds.
    pub fn get_selected(&self) -> (r: Option<&String>)
        ensures
            match r {
                Some(q) => spec_selected(*self) == Some(*q),
                None => spec_selected(*self) is None,
            },
    {
        match self.selected_idx {
            Some(idx) => {
                if idx < self.searches.len() {
                    Some(&self.searches[idx])
                } else {
                    None
                }
            },
            None => None,
        }
    }

    /// Clears the highlight.
    pub fn clear_selection(&mut self)
        ensures
            final(self).searches == old(self).searches,
            final(self).selected_idx is None,
    {
        self.selected_idx = None;
    }
}

impl Default for SearchHistory {
    /// An empty history.
    fn default() -> (r: SearchHistory)
        ensures
            r.searches@.len() == 0,
            r.selected_idx is None,
    {
        SearchHistory { searches: Vec::new(), selected_idx: None }
    }
}

} // verus!
