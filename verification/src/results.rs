//! Data model of a search response: repository file hits, each with its
//! text matches and their match ranges.

use vstd::prelude::*;

verus! {

/// An ordered result set: one entry per repository file hit.
#[derive(Clone)]
pub struct CodeResults {
    pub items: Vec<ItemResult>,
}

/// One repository file hit.
#[derive(Clone)]
pub struct ItemResult {
    pub name: String,
    pub path: String,
    pub html_url: String,
    pub text_matches: Vec<TextMatch>,
    pub repository: ItemRepository,
}

/// The repository a hit belongs to.
#[derive(Clone)]
pub struct ItemRepository {
    pub name: String,
    pub full_name: String,
    pub owner: RepositoryOwner,
}

/// The account that owns a repository.
#[derive(Clone)]
pub struct RepositoryOwner {
    pub login: String,
}

/// A matched context: the raw fragment text and the match ranges inside it.
#[derive(Clone)]
pub struct TextMatch {
    pub fragment: String,
    pub matches: Vec<MatchSegment>,
}

/// One match range `(start, end)` in offsets relative to the fragment.
pub struct MatchSegment {
    pub indices: (usize, usize),
    pub text: String,
}

impl Clone for MatchSegment {
    fn clone(&self) -> (r: Self)
        ensures
            r.indices == self.indices,
            r.text@ == self.text@,
    {
        MatchSegment { indices: self.indices, text: self.text.clone() }
    }
}

impl TextMatch {
    /// The match ranges are nonempty, ascending and non-overlapping, as
    /// the service returns them.
    pub open spec fn wf(&self) -> bool {
        &&& forall|k: int|
            0 <= k < self.matches@.len() ==> (#[trigger] self.matches@[k]).indices.0
                < self.matches@[k].indices.1
        &&& forall|k: int, l: int|
            0 <= k < l < self.matches@.len() ==> (#[trigger] self.matches@[k]).indices.1 <= (
            #[trigger] self.matches@[l]).indices.0
    }
}

/// The total number of text matches over all items, as a mathematical sum.
pub open spec fn spec_count(items: Seq<ItemResult>) -> int
    decreases items.len(),
{
    if items.len() == 0 {
        0
    } else {
        spec_count(items.drop_last()) + items.last().text_matches.len()
    }
}

proof fn lemma_spec_count_nonneg(items: Seq<ItemResult>)
    ensures
        spec_count(items) >= 0,
    decreases items.len(),
{
    if items.len() > 0 {
        lemma_spec_count_nonneg(items.drop_last());
    }
}

/// The total number of text matches, saturating at the machine limit.
pub open spec fn spec_count_sat(items: Seq<ItemResult>) -> int {
    if spec_count(items) <= usize::MAX {
        spec_count(items)
    } else {
        usize::MAX as int
    }
}

impl CodeResults {
    /// The total number of text matches over all items, saturating at the
    /// machine limit.
    pub fn count(&self) -> (r: usize)
        ensures
            r as int == spec_count_sat(self.items@),
    {
        let mut total: usize = 0;
        let mut i: usize = 0;
        while i < self.items.len()
            invariant
                i <= self.items@.len(),
                total == spec_count(self.items@.take(i as int)) || (total == usize::MAX
                    && spec_count(self.items@.take(i as int)) > usize::MAX),
            decreases self.items@.len() - i,
        {
            let n = self.items[i].text_matches.len();
            proof {
                let t = self.items@.take(i + 1);
                assert(t.drop_last() =~= self.items@.take(i as int));
                assert(t.last() == self.items@[i as int]);
                lemma_spec_count_nonneg(self.items@.take(i as int));
            }
            if total <= usize::MAX - n {
                total = total + n;
            } else {
                total = usize::MAX;
            }
            i = i + 1;
        }
        proof {
            assert(self.items@.take(self.items@.len() as int) =~= self.items@);
        }
        total
    }
}

} // verus!
