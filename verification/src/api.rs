//! Search request plumbing that is pure computation: building the query
//! string of a search request, and reading the pagination links out of a
//! `Link`-style response header.

use vstd::prelude::*;

use crate::results::CodeResults;
use crate::strutil::{
    contains_str, find_char_from, find_sub, find_sub_from, spec_contains, spec_parse_u32,
    spec_split, spec_split_once, spec_trim, spec_trim_end_matches, spec_trim_start_matches,
    spec_u32_digits, split_char, split_once_char, trim_end_matches_char, trim_start_matches_char,
    trim_str, parse_u32, u32_to_string,
};

verus! {

/// The page references read from a `Link` response header.
#[derive(Debug, Clone)]
pub struct PaginationInfo {
    pub prev: Option<String>,
    pub next: Option<String>,
    pub first: Option<String>,
    pub last: Option<String>,
}

/// A result set together with the pagination links it arrived with.
#[derive(Clone)]
pub struct CodeResultsWithPagination {
    pub results: CodeResults,
    pub pagination: Option<PaginationInfo>,
}

/// The view of an optional string.
pub open spec fn opt_str_view(o: Option<String>) -> Option<Seq<char>> {
    match o {
        Some(s) => Some(s@),
        None => None,
    }
}

/// The `(url, rel)` pieces of one comma-separated header part: the part is
/// trimmed and split at the first `;`; the url piece is trimmed and has its
/// angle brackets removed; the rel piece is trimmed.
pub open spec fn spec_part_fields(part: Seq<char>) -> Option<(Seq<char>, Seq<char>)> {
    let p = spec_trim(part);
    match spec_split_once(p, ';') {
        None => None,
        Some(pr) => Some(
            (
                spec_trim_end_matches(spec_trim_start_matches(spec_trim(pr.0), '<'), '>'),
                spec_trim(pr.1),
            ),
        ),
    }
}

/// The four references `(prev, next, first, last)` that a sequence of
/// header parts yields: each part whose rel piece holds one of the four
/// words, tested in that order, overwrites that reference.
pub open spec fn spec_links(parts: Seq<Seq<char>>) -> (
    Option<Seq<char>>,
    Option<Seq<char>>,
    Option<Seq<char>>,
    Option<Seq<char>>,
)
    decreases parts.len(),
{
    if parts.len() == 0 {
        (None, None, None, None)
    } else {
        let acc = spec_links(parts.drop_last());
        match spec_part_fields(parts.last()) {
            None => acc,
            Some(f) => {
                if spec_contains(f.1, "prev"@) {
                    (Some(f.0), acc.1, acc.2, acc.3)
                } else if spec_contains(f.1, "next"@) {
                    (acc.0, Some(f.0), acc.2, acc.3)
                } else if spec_contains(f.1, "first"@) {
                    (acc.0, acc.1, Some(f.0), acc.3)
                } else if spec_contains(f.1, "last"@) {
                    (acc.0, acc.1, acc.2, Some(f.0))
                } else {
                    acc
                }
            },
        }
    }
}

/// The page number carried by a `last` url: the text after the first
/// `page=`, up to the next `page=` if there is one, cut at the first `&`,
/// read as a decimal number.
pub open spec fn spec_page_of(url: Seq<char>) -> Option<u32> {
    match find_sub_from(url, "page="@, 0) {
        None => None,
        Some(i) => {
            let rest = url.skip(i + "page="@.len() as int);
            let piece = match find_sub_from(rest, "page="@, 0) {
                None => rest,
                Some(j) => rest.take(j),
            };
            let cut = match find_char_from(piece, '&', 0) {
                None => piece,
                Some(k) => piece.take(k),
            };
            spec_parse_u32(cut)
        },
    }
}

impl PaginationInfo {
    /// Reads the `prev`/`next`/`first`/`last` references out of a comma
    /// separated `Link`-style header.
    pub fn from_link_header(link_header: &str) -> (r: PaginationInfo)
        ensures
            ({
                let l = spec_links(spec_split(link_header@, ','));
                &&& opt_str_view(r.prev) == l.0
                &&& opt_str_view(r.next) == l.1
                &&& opt_str_view(r.first) == l.2
                &&& opt_str_view(r.last) == l.3
            }),
    {
        let ghost partsv = spec_split(link_header@, ',');
        let parts = split_char(link_header, ',');
        let mut prev: Option<String> = None;
        let mut next: Option<String> = None;
        let mut first: Option<String> = None;
        let mut last: Option<String> = None;
        let mut i: usize = 0;
        proof {
            assert(partsv.take(0) =~= Seq::<Seq<char>>::empty());
        }
        while i < parts.len()
            invariant
                i <= parts@.len(),
                partsv == spec_split(link_header@, ','),
                parts@.len() == partsv.len(),
                forall|k: int| 0 <= k < partsv.len() ==> (#[trigger] parts@[k])@ == partsv[k],
                ({
                    let l = spec_links(partsv.take(i as int));
                    &&& opt_str_view(prev) == l.0
                    &&& opt_str_view(next) == l.1
                    &&& opt_str_view(first) == l.2
                    &&& opt_str_view(last) == l.3
                }),
            decreases parts@.len() - i,
        {
            proof {
                let t = partsv.take(i + 1);
                assert(t.drop_last() =~= partsv.take(i as int));
                assert(t.last() == partsv[i as int]);
            }
            let part = trim_str(&parts[i]);
            match split_once_char(part.as_str(), ';') {
                None => {},
                Some((url_part, rel_part)) => {
                    let u1 = trim_str(url_part.as_str());
                    let u2 = trim_start_matches_char(u1.as_str(), '<');
                    let url = trim_end_matches_char(u2.as_str(), '>');
                    let rel = trim_str(rel_part.as_str());
                    if contains_str(rel.as_str(), "prev") {
                        prev = Some(url);
                    } else if contains_str(rel.as_str(), "next") {
                        next = Some(url);
                    } else if contains_str(rel.as_str(), "first") {
                        first = Some(url);
                    } else if contains_str(rel.as_str(), "last") {
                        last = Some(url);
                    }
                },
            }
            i = i + 1;
        }
        proof {
            assert(partsv.take(partsv.len() as int) =~= partsv);
        }
        PaginationInfo { prev, next, first, last }
    }

    /// The number of the last page, recovered from the `page=` parameter of
    /// the `last` url, if that url is present and carries one.
    pub fn get_last_page_number(&self) -> (r: Option<u32>)
        ensures
            r == match self.last {
                None => None::<u32>,
                Some(url) => spec_page_of(url@),
            },
    {
        match &self.last {
            None => None,
            Some(url) => {
                match find_sub(url.as_str(), "page=") {
                    None => None,
                    Some(i) => {
                        let n = url.as_str().unicode_len();
                        let m = "page=".unicode_len();
                        proof {
                            crate::strutil::lemma_find_sub_bounds(url@, "page="@, 0);
                        }
                        let rest = url.as_str().substring_char(i + m, n);
                        let ghost restv = url@.skip(i + "page="@.len() as int);
                        proof {
                            assert(restv =~= rest@);
                        }
                        let rest_len = rest.unicode_len();
                        let piece = match find_sub(rest, "page=") {
                            None => rest,
                            Some(j) => {
                                proof {
                                    crate::strutil::lemma_find_sub_bounds(rest@, "page="@, 0);
                                }
                                rest.substring_char(0, j)
                            },
                        };
                        proof {
                            assert(match find_sub_from(restv, "page="@, 0) {
                                None => piece@ == restv,
                                Some(j) => piece@ =~= restv.take(j),
                            });
                        }
                        let piece_len = piece.unicode_len();
                        let cut = match crate::strutil::find_char(piece, '&') {
                            None => piece,
                            Some(k) => {
                                proof {
                                    crate::strutil::lemma_find_char_bounds(piece@, '&', 0);
                                }
                                piece.substring_char(0, k)
                            },
                        };
                        proof {
                            assert(match find_char_from(piece@, '&', 0) {
                                None => cut@ == piece@,
                                Some(k) => cut@ =~= piece@.take(k),
                            });
                        }
                        parse_u32(cut)
                    },
                }
            },
        }
    }
}

/// A name for what `urlencoding::encode` yields for the given text; per its
/// documentation the result is a function of the input alone.
pub uninterp spec fn url_encoded_of(s: Seq<char>) -> Seq<char>;

/// Relies on `urlencoding::encode`: percent-encodes every byte except
/// alphanumerics and `-`, `_`, `.`, `~`, from the input alone; an empty
/// input gives an empty result.
#[verifier::external_body]
fn url_encode(s: &str) -> (r: String)
    ensures
        r@ == url_encoded_of(s@),
        s@.len() == 0 ==> r@.len() == 0,
{
    urlencoding::encode(s).into_owned()
}

/// The query string of a search request: `q=` followed by the url-encoded
/// query, and the page number when one is requested.
pub fn build_search_query(query: &str, page: Option<u32>) -> (r: String)
    ensures
        r@ == match page {
            None => "q="@ + url_encoded_of(query@),
            Some(p) => "q="@ + url_encoded_of(query@) + "&page="@ + spec_u32_digits(p as int),
        },
{
    let mut s = String::from_str("q=");
    let encoded = url_encode(query);
    s.append(encoded.as_str());
    match page {
        None => {},
        Some(p) => {
            s.append("&page=");
            let digits = u32_to_string(p);
            s.append(digits.as_str());
        },
    }
    s
}

} // verus!
