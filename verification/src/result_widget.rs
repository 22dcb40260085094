//! A minimal results pane kept alongside the full results screen: the data
//! it would show and its scroll position.

use vstd::prelude::*;

use crate::results::CodeResults;

verus! {

/// A pane over a result set.
pub struct ResultWidget<'a> {
    pub results: &'a CodeResults,
}

/// Its scroll position.
pub struct ResultWidgetState {
    pub scroll: usize,
}

} // verus!
