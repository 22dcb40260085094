//! Line segmenter: splits a text fragment into logical lines, tracking each
//! line's absolute character offset, tolerant of `\n` and `\r\n` endings.
//! Terminators are recognized in priority order: a `\r\n` pair anywhere in
//! the remaining text (two characters consumed), else a bare `\n` (one
//! character consumed), else end of text (nothing consumed). No line is
//! ever skipped: a text ending in a terminator yields a final empty line
//! at the text's end.

use vstd::prelude::*;

verus! {

/// One logical line of a fragment: its content (without the terminator) and
/// the absolute offset, in characters, of its first character.
#[derive(Debug, Clone, PartialEq, Eq)]
pub struct SmartLineItem {
    pub content: String,
    pub start: usize,
}

/// Index of the first `\r\n` pair at or after position `i`, if any.
pub open spec fn find_crlf_from(s: Seq<char>, i: int) -> Option<int>
    decreases s.len() - i,
{
    if i < 0 {
        None
    } else if i + 2 > s.len() {
        None
    } else if s[i] == '\r' && s[i + 1] == '\n' {
        Some(i)
    } else {
        find_crlf_from(s, i + 1)
    }
}

/// Index of the first `\n` at or after position `i`, if any.
pub open spec fn find_lf_from(s: Seq<char>, i: int) -> Option<int>
    decreases s.len() - i,
{
    if i < 0 {
        None
    } else if i + 1 > s.len() {
        None
    } else if s[i] == '\n' {
        Some(i)
    } else {
        find_lf_from(s, i + 1)
    }
}

proof fn lemma_find_crlf_bounds(s: Seq<char>, i: int)
    requires
        0 <= i,
    ensures
        match find_crlf_from(s, i) {
            Some(j) => i <= j && j + 2 <= s.len() && s[j] == '\r' && s[j + 1] == '\n',
            None => true,
        },
    decreases s.len() - i,
{
    if i + 2 <= s.len() && !(s[i] == '\r' && s[i + 1] == '\n') {
        lemma_find_crlf_bounds(s, i + 1);
    }
}

proof fn lemma_find_lf_bounds(s: Seq<char>, i: int)
    requires
        0 <= i,
    ensures
        match find_lf_from(s, i) {
            Some(j) => i <= j && j + 1 <= s.len() && s[j] == '\n',
            None => true,
        },
    decreases s.len() - i,
{
    if i + 1 <= s.len() && s[i] != '\n' {
        lemma_find_lf_bounds(s, i + 1);
    }
}

/// The length of the next line's content and of its terminator.
pub open spec fn line_break(s: Seq<char>) -> (int, int) {
    match find_crlf_from(s, 0) {
        Some(i) => (i, 2),
        None => match find_lf_from(s, 0) {
            Some(j) => (j, 1),
            None => (s.len() as int, 0),
        },
    }
}

proof fn lemma_line_break_bounds(s: Seq<char>)
    requires
        s.len() > 0,
    ensures
        0 <= line_break(s).0,
        0 <= line_break(s).1 <= 2,
        1 <= line_break(s).0 + line_break(s).1 <= s.len(),
        line_break(s).1 == 2 ==> s[line_break(s).0] == '\r' && s[line_break(s).0 + 1] == '\n',
        line_break(s).1 == 1 ==> s[line_break(s).0] == '\n',
        line_break(s).1 == 0 ==> line_break(s).0 == s.len(),
{
    lemma_find_crlf_bounds(s, 0);
    lemma_find_lf_bounds(s, 0);
}

/// The lines the sweep cuts: each step consumes the next content and its
/// terminator; a trailing empty line after a terminal terminator is not
/// part of this sequence (see `spec_lines`).
pub open spec fn spec_body_lines(s: Seq<char>, start: int) -> Seq<(Seq<char>, int, int)>
    decreases s.len(),
    via spec_body_lines_decreases
{
    if s.len() == 0 {
        Seq::empty()
    } else {
        let br = line_break(s);
        let consumed = br.0 + br.1;
        seq![(s.subrange(0, br.0), start, br.1)] + spec_body_lines(
            s.subrange(consumed, s.len() as int),
            start + consumed,
        )
    }
}

#[via_fn]
proof fn spec_body_lines_decreases(s: Seq<char>, start: int) {
    if s.len() > 0 {
        lemma_line_break_bounds(s);
    }
}

/// Mathematical model of the segmentation: the sequence of
/// `(content, start offset, terminator length)` triples for a text, where
/// the offsets begin at `start`. A text ending in a terminator carries a
/// final empty line at the text's end, with no terminator of its own.
pub open spec fn spec_lines(s: Seq<char>, start: int) -> Seq<(Seq<char>, int, int)> {
    spec_body_lines(s, start) + (if s.len() > 0 && s[s.len() - 1] == '\n' {
        seq![(Seq::<char>::empty(), start + s.len() as int, 0int)]
    } else {
        Seq::empty()
    })
}

/// The terminator text that a terminator length stands for.
pub open spec fn term_text(tl: int) -> Seq<char> {
    if tl == 2 {
        seq!['\r', '\n']
    } else if tl == 1 {
        seq!['\n']
    } else {
        Seq::empty()
    }
}

/// Concatenation of every line's content with its terminator reinserted.
pub open spec fn rejoin(items: Seq<(Seq<char>, int, int)>) -> Seq<char>
    decreases items.len(),
{
    if items.len() == 0 {
        Seq::empty()
    } else {
        items[0].0 + term_text(items[0].2) + rejoin(items.skip(1))
    }
}

proof fn lemma_rejoin_snoc(items: Seq<(Seq<char>, int, int)>, x: (Seq<char>, int, int))
    ensures
        rejoin(items.push(x)) =~= rejoin(items) + x.0 + term_text(x.2),
    decreases items.len(),
{
    if items.len() == 0 {
        assert(items.push(x)[0] == x);
        assert(items.push(x).skip(1) =~= Seq::<(Seq<char>, int, int)>::empty());
        assert(rejoin(items.push(x)) == x.0 + term_text(x.2) + rejoin(
            Seq::<(Seq<char>, int, int)>::empty(),
        ));
        assert(rejoin(Seq::<(Seq<char>, int, int)>::empty()) =~= Seq::<char>::empty());
        assert(rejoin(items) =~= Seq::<char>::empty());
    } else {
        lemma_rejoin_snoc(items.skip(1), x);
        assert(items.push(x)[0] == items[0]);
        assert(items.push(x).skip(1) =~= items.skip(1).push(x));
        assert(rejoin(items.push(x)) == items[0].0 + term_text(items[0].2) + rejoin(
            items.skip(1).push(x),
        ));
        assert(rejoin(items) == items[0].0 + term_text(items[0].2) + rejoin(items.skip(1)));
    }
}

proof fn lemma_body_lines_props(s: Seq<char>, start: int)
    ensures
        ({
            let items = spec_body_lines(s, start);
            &&& rejoin(items) =~= s
            &&& items.len() > 0 ==> items[0].1 == start
            &&& items.len() > 0 ==> items[items.len() - 1].1 + items[items.len() - 1].0.len()
                + items[items.len() - 1].2 == start + s.len()
            &&& forall|k: int|
                0 <= k < items.len() ==> (#[trigger] items[k]).0.len() + items[k].2 >= 1
            &&& forall|k: int|
                0 <= k < items.len() - 1 ==> (#[trigger] items[k + 1]).1 == items[k].1
                    + items[k].0.len() + items[k].2
            &&& forall|k: int|
                0 <= k < items.len() ==> {
                    let off = (#[trigger] items[k]).1 - start;
                    &&& 0 <= off
                    &&& off + items[k].0.len() <= s.len()
                    &&& s.subrange(off, off + items[k].0.len()) =~= items[k].0
                    &&& 0 <= items[k].2 <= 2
                }
        }),
    decreases s.len(),
{
    let items = spec_body_lines(s, start);
    if s.len() == 0 {
    } else {
        lemma_line_break_bounds(s);
        let br = line_break(s);
        let consumed = br.0 + br.1;
        let rest = s.subrange(consumed, s.len() as int);
        let tail = spec_body_lines(rest, start + consumed);
        lemma_body_lines_props(rest, start + consumed);
        assert(items == seq![(s.subrange(0, br.0), start, br.1)] + tail);
        assert(items.skip(1) =~= tail);
        assert(s.subrange(0, br.0) + term_text(br.1) =~= s.subrange(0, consumed));
        assert(rejoin(items) =~= s.subrange(0, consumed) + rejoin(tail));
        assert(rejoin(items) =~= s);
        if tail.len() == 0 {
            assert(consumed == s.len());
        } else {
            assert(items[items.len() - 1] == tail[tail.len() - 1]);
        }
        assert forall|k: int| 0 <= k < items.len() implies {
            let off = (#[trigger] items[k]).1 - start;
            &&& 0 <= off
            &&& off + items[k].0.len() <= s.len()
            &&& s.subrange(off, off + items[k].0.len()) =~= items[k].0
            &&& 0 <= items[k].2 <= 2
            &&& items[k].0.len() + items[k].2 >= 1
        } by {
            if k == 0 {
                assert(s.subrange(0, br.0) =~= s.subrange(0, br.0));
            } else {
                let off = items[k].1 - (start + consumed);
                assert(items[k] == tail[k - 1]);
                assert(rest.subrange(off, off + items[k].0.len()) =~= items[k].0);
                assert(s.subrange(off + consumed, off + consumed + items[k].0.len()) =~= rest
                    .subrange(off, off + items[k].0.len()));
            }
        }
    }
}

/// Offsets begin at `start`, advance by the consumed width, every line but
/// the last consumes at least one character, and each line is the slice of
/// the text at its offset.
pub proof fn lemma_lines_props(s: Seq<char>, start: int)
    ensures
        ({
            let items = spec_lines(s, start);
            &&& rejoin(items) =~= s
            &&& items.len() > 0 ==> items[0].1 == start
            &&& forall|k: int|
                0 <= k < items.len() - 1 ==> (#[trigger] items[k]).0.len() + items[k].2 >= 1
            &&& forall|k: int|
                0 <= k < items.len() - 1 ==> (#[trigger] items[k + 1]).1 == items[k].1
                    + items[k].0.len() + items[k].2
            &&& forall|k: int|
                0 <= k < items.len() ==> {
                    let off = (#[trigger] items[k]).1 - start;
                    &&& 0 <= off
                    &&& off + items[k].0.len() <= s.len()
                    &&& s.subrange(off, off + items[k].0.len()) =~= items[k].0
                    &&& 0 <= items[k].2 <= 2
                }
        }),
{
    lemma_body_lines_props(s, start);
    let body = spec_body_lines(s, start);
    let items = spec_lines(s, start);
    if s.len() > 0 && s[s.len() - 1] == '\n' {
        let tail = (Seq::<char>::empty(), start + s.len() as int, 0int);
        assert(items =~= body.push(tail));
        lemma_rejoin_snoc(body, tail);
        assert(rejoin(items) =~= rejoin(body) + tail.0 + term_text(tail.2));
        assert(rejoin(items) =~= s);
        assert(body.len() > 0);
        assert forall|k: int| 0 <= k < items.len() implies {
            let off = (#[trigger] items[k]).1 - start;
            &&& 0 <= off
            &&& off + items[k].0.len() <= s.len()
            &&& s.subrange(off, off + items[k].0.len()) =~= items[k].0
            &&& 0 <= items[k].2 <= 2
        } by {
            if k < body.len() {
                assert(items[k] == body[k]);
            } else {
                assert(items[k] == tail);
                assert(s.subrange(s.len() as int, s.len() as int) =~= Seq::<char>::empty());
            }
        }
        assert forall|k: int| 0 <= k < items.len() - 1 implies (#[trigger] items[k + 1]).1
            == items[k].1 + items[k].0.len() + items[k].2 by {
            if k + 1 < body.len() {
                assert(items[k] == body[k] && items[k + 1] == body[k + 1]);
            } else {
                assert(items[k] == body[body.len() - 1] && items[k + 1] == tail);
            }
        }
    } else {
        assert(items =~= body);
    }
}

/// Law: concatenating the content of every line in order, with the
/// terminator that was consumed after it reinserted, reconstructs the
/// original text exactly; the start offsets begin at zero, advance by the
/// consumed width, and are strictly increasing; and each line's content is
/// exactly the slice of the original text at its offset.
pub proof fn lemma_lines_round_trip(s: Seq<char>)
    ensures
        ({
            let items = spec_lines(s, 0);
            &&& rejoin(items) == s
            &&& items.len() > 0 ==> items[0].1 == 0
            &&& forall|k: int|
                0 <= k < items.len() - 1 ==> (#[trigger] items[k + 1]).1 == items[k].1
                    + items[k].0.len() + items[k].2
            &&& forall|k: int| 0 <= k < items.len() - 1 ==> (#[trigger] items[k]).1 < items[k + 1].1
            &&& forall|k: int|
                0 <= k < items.len() ==> s.subrange(
                    (#[trigger] items[k]).1,
                    items[k].1 + items[k].0.len(),
                ) == items[k].0
        }),
{
    lemma_lines_props(s, 0);
}

/// Index of the first `\r\n` pair in `s`, if any.
fn find_crlf(s: &str) -> (r: Option<usize>)
    ensures
        match r {
            Some(i) => find_crlf_from(s@, 0) == Some(i as int),
            None => find_crlf_from(s@, 0) is None,
        },
{
    let n = s.unicode_len();
    let mut i: usize = 0;
    while n >= 2 && i <= n - 2
        invariant
            n == s@.len(),
            i <= n,
            find_crlf_from(s@, 0) == find_crlf_from(s@, i as int),
        decreases n - i,
    {
        let c1 = s.get_char(i);
        let c2 = s.get_char(i + 1);
        if c1 == '\r' && c2 == '\n' {
            return Some(i);
        }
        i = i + 1;
    }
    None
}

/// Index of the first `\n` in `s`, if any.
fn find_lf(s: &str) -> (r: Option<usize>)
    ensures
        match r {
            Some(i) => find_lf_from(s@, 0) == Some(i as int),
            None => find_lf_from(s@, 0) is None,
        },
{
    let n = s.unicode_len();
    let mut i: usize = 0;
    while n >= 1 && i <= n - 1
        invariant
            n == s@.len(),
            i <= n,
            find_lf_from(s@, 0) == find_lf_from(s@, i as int),
        decreases n - i,
    {
        let c1 = s.get_char(i);
        if c1 == '\n' {
            return Some(i);
        }
        i = i + 1;
    }
    None
}

/// Splits a text into its logical lines, each with the absolute character
/// offset at which its content begins in `s`. A text ending in a
/// terminator yields a final empty line at the text's end.
pub fn smart_iter_lines(s: &str) -> (r: Vec<SmartLineItem>)
    ensures
        ({
            let items = spec_lines(s@, 0);
            &&& r@.len() == items.len()
            &&& forall|k: int|
                0 <= k < items.len() ==> (#[trigger] r@[k]).content@ == items[k].0 && r@[k].start
                    as int == items[k].1
        }),
{
    let ghost body = spec_body_lines(s@, 0);
    let total = s.unicode_len();
    let mut pos: usize = 0;
    let mut out: Vec<SmartLineItem> = Vec::new();
    proof {
        assert(s@.subrange(0, total as int) =~= s@);
    }
    while pos < total
        invariant
            total == s@.len(),
            pos <= total,
            body == spec_body_lines(s@, 0),
            out@.len() <= body.len(),
            forall|k: int|
                0 <= k < out@.len() ==> (#[trigger] out@[k]).content@ == body[k].0 && out@[k].start
                    as int == body[k].1,
            spec_body_lines(s@.subrange(pos as int, total as int), pos as int) == body.skip(
                out@.len() as int,
            ),
        decreases total - pos,
    {
        let rem = s.substring_char(pos, total);
        let ghost remv = s@.subrange(pos as int, total as int);
        proof {
            lemma_line_break_bounds(remv);
        }
        let f2 = find_crlf(rem);
        let f1 = find_lf(rem);
        let (cl, tl): (usize, usize) = match f2 {
            Some(i) => (i, 2),
            None => match f1 {
                Some(j) => (j, 1),
                None => (total - pos, 0),
            },
        };
        proof {
            assert(line_break(remv) == (cl as int, tl as int));
        }
        let content = rem.substring_char(0, cl);
        out.push(SmartLineItem { content: content.to_owned(), start: pos });
        let consumed = cl + tl;
        proof {
            let n = out@.len() - 1;
            assert(spec_body_lines(remv, pos as int) == seq![
                (remv.subrange(0, cl as int), pos as int, tl as int),
            ] + spec_body_lines(remv.subrange(cl + tl, remv.len() as int), pos + cl + tl));
            assert(body.skip(n).len() > 0);
            assert(body.skip(n)[0] == body[n]);
            assert(body.skip(n).skip(1) =~= body.skip(n + 1));
            assert(remv.subrange(consumed as int, remv.len() as int) =~= s@.subrange(
                pos + consumed,
                total as int,
            ));
        }
        pos = pos + consumed;
    }
    proof {
        assert(s@.subrange(total as int, total as int) =~= Seq::<char>::empty());
        assert(body.skip(out@.len() as int).len() == 0);
        assert(out@.len() == body.len());
    }
    if total > 0 && s.get_char(total - 1) == '\n' {
        out.push(SmartLineItem { content: String::new(), start: total });
        proof {
            assert(spec_lines(s@, 0) =~= body.push(
                (Seq::<char>::empty(), total as int, 0int),
            ));
        }
    } else {
        proof {
            assert(spec_lines(s@, 0) =~= body);
        }
    }
    out
}

/// The number of logical lines of a text.
pub fn count_lines(s: &str) -> (r: usize)
    ensures
        r == spec_lines(s@, 0).len(),
{
    smart_iter_lines(s).len()
}

} // verus!
