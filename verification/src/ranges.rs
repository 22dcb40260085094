//! Range filler: given a context range `[start, end)` and a sorted list of
//! candidate match ranges, produce a complete, gap-free, non-overlapping
//! sequence of `(range, is_match)` segments covering the context.

use vstd::prelude::*;

verus! {

/// One segment of a filled-out cover: the half-open range `[start, end)`
/// tagged as matched or unmatched.
#[derive(Debug, Clone, Copy, PartialEq, Eq, Structural)]
pub struct RangeSegment {
    pub start: usize,
    pub end: usize,
    pub is_match: bool,
}

/// The overlap test used by the sweep, with the inclusive endpoint
/// containment on both ranges: two ranges overlap if either's start or end
/// lies within the other (half-open containment applied to both endpoints).
pub open spec fn ranges_overlap(a: (int, int), b: (int, int)) -> bool {
    ||| b.0 <= a.0 < b.1
    ||| b.0 <= a.1 < b.1
    ||| a.0 <= b.0 < a.1
    ||| a.0 <= b.1 < a.1
}

/// Mathematical model of the left-to-right sweep: for each candidate range
/// that overlaps the context, emit an unmatched gap from the cursor to the
/// candidate's clamped start, then the clamped overlap as a matched segment,
/// advancing the cursor to the clamped end; finally emit an unmatched tail.
pub open spec fn spec_fill(ctx: (int, int), ranges: Seq<(int, int)>, cur: int) -> Seq<(int, int, bool)>
    decreases ranges.len(),
{
    if ranges.len() == 0 {
        if cur < ctx.1 {
            seq![(cur, ctx.1, false)]
        } else {
            Seq::empty()
        }
    } else {
        let r = ranges[0];
        if !ranges_overlap(ctx, r) {
            spec_fill(ctx, ranges.skip(1), cur)
        } else {
            let gap: Seq<(int, int, bool)> = if cur < r.0 {
                seq![(cur, r.0, false)]
            } else {
                Seq::empty()
            };
            let s = if r.0 > cur { r.0 } else { cur };
            let e = if r.1 < ctx.1 { r.1 } else { ctx.1 };
            let m: Seq<(int, int, bool)> = if e > s {
                seq![(s, e, true)]
            } else {
                Seq::empty()
            };
            gap + m + spec_fill(ctx, ranges.skip(1), e)
        }
    }
}

/// View of a list of produced segments as the spec-level triples.
pub open spec fn seg_views(v: Seq<RangeSegment>) -> Seq<(int, int, bool)> {
    v.map(|_i: int, s: RangeSegment| (s.start as int, s.end as int, s.is_match))
}

/// View of a list of `(start, end)` pairs as spec-level pairs.
pub open spec fn pair_views(v: Seq<(usize, usize)>) -> Seq<(int, int)> {
    v.map(|_i: int, p: (usize, usize)| (p.0 as int, p.1 as int))
}

/// Whether the inclusive-endpoint overlap test holds of two half-open ranges.
pub fn are_ranges_overlapping(a: (usize, usize), b: (usize, usize)) -> (r: bool)
    ensures
        r == ranges_overlap((a.0 as int, a.1 as int), (b.0 as int, b.1 as int)),
{
    (b.0 <= a.0 && a.0 < b.1) || (b.0 <= a.1 && a.1 < b.1) || (a.0 <= b.0 && b.0 < a.1) || (a.0 <= b.1
        && b.1 < a.1)
}

/// Takes a context range and a list of candidate ranges and returns a fully
/// allocated list of segments covering the context.
///
/// e.g. given 11..20, 32..40 in context 0..100 it returns
/// 0..11, 11..20, 20..32, 32..40, 40..100
///
/// Note the candidate ranges are assumed to be sorted.
pub fn fill_out_range_list(context: (usize, usize), ranges: &Vec<(usize, usize)>) -> (r: Vec<
    RangeSegment,
>)
    ensures
        seg_views(r@) == spec_fill(
            (context.0 as int, context.1 as int),
            pair_views(ranges@),
            context.0 as int,
        ),
{
    let ghost ctxv = (context.0 as int, context.1 as int);
    let ghost rsv = pair_views(ranges@);
    let mut items: Vec<RangeSegment> = Vec::new();
    let mut current: usize = context.0;
    let mut i: usize = 0;
    proof {
        assert(rsv.skip(0) =~= rsv);
        assert(seg_views(items@) =~= Seq::<(int, int, bool)>::empty());
        assert(spec_fill(ctxv, rsv, context.0 as int) =~= seg_views(items@) + spec_fill(
            ctxv,
            rsv.skip(0),
            context.0 as int,
        ));
    }
    while i < ranges.len()
        invariant
            i <= ranges.len(),
            rsv == pair_views(ranges@),
            ctxv == (context.0 as int, context.1 as int),
            spec_fill(ctxv, rsv, context.0 as int) == seg_views(items@) + spec_fill(
                ctxv,
                rsv.skip(i as int),
                current as int,
            ),
        decreases ranges.len() - i,
    {
        let range = ranges[i];
        proof {
            assert(rsv.skip(i as int).skip(1) =~= rsv.skip(i as int + 1));
            assert(rsv.skip(i as int)[0] == (range.0 as int, range.1 as int));
        }
        if !are_ranges_overlapping(context, range) {
            i = i + 1;
            continue ;
        }
        let ghost items_before = items@;
        if current < range.0 {
            items.push(
                RangeSegment { start: current, end: range.0, is_match: false },
            );
        }
        let start = if range.0 > current {
            range.0
        } else {
            current
        };
        let end = if range.1 < context.1 {
            range.1
        } else {
            context.1
        };
        if end > start {
            items.push(RangeSegment { start, end, is_match: true });
        }
        proof {
            assert(seg_views(items@) =~= seg_views(items_before) + (if current < range.0 {
                seq![(current as int, range.0 as int, false)]
            } else {
                Seq::<(int, int, bool)>::empty()
            }) + (if end > start {
                seq![(start as int, end as int, true)]
            } else {
                Seq::<(int, int, bool)>::empty()
            }));
            assert(seg_views(items@) + spec_fill(ctxv, rsv.skip(i as int + 1), end as int)
                =~= seg_views(items_before) + spec_fill(ctxv, rsv.skip(i as int), current as int));
        }
        current = end;
        i = i + 1;
    }
    proof {
        assert(rsv.skip(ranges@.len() as int) =~= Seq::<(int, int)>::empty());
    }
    if current < context.1 {
        let ghost items_before = items@;
        items.push(RangeSegment { start: current, end: context.1, is_match: false });
        proof {
            assert(seg_views(items@) =~= seg_views(items_before) + seq![
                (current as int, context.1 as int, false),
            ]);
        }
    }
    proof {
        assert(seg_views(items@) =~= seg_views(items@) + Seq::<(int, int, bool)>::empty());
    }
    items
}

/// View of a list of match segments as their spec-level `(start, end)`
/// pairs.
pub open spec fn match_views(s: Seq<crate::results::MatchSegment>) -> Seq<(int, int)> {
    s.map(|_i: int, m: crate::results::MatchSegment| (m.indices.0 as int, m.indices.1 as int))
}

/// Takes a context range and a list of match segments and returns a fully
/// allocated list of segments covering the context.
pub fn fill_out_segments(context: (usize, usize), segments: &Vec<crate::results::MatchSegment>) -> (r:
    Vec<RangeSegment>)
    ensures
        seg_views(r@) == spec_fill(
            (context.0 as int, context.1 as int),
            match_views(segments@),
            context.0 as int,
        ),
{
    let mut pairs: Vec<(usize, usize)> = Vec::new();
    let mut i: usize = 0;
    while i < segments.len()
        invariant
            i <= segments@.len(),
            pairs@.len() == i,
            forall|k: int|
                0 <= k < i ==> #[trigger] pairs@[k] == (
                    segments@[k].indices.0,
                    segments@[k].indices.1,
                ),
        decreases segments@.len() - i,
    {
        let p = (segments[i].indices.0, segments[i].indices.1);
        pairs.push(p);
        i = i + 1;
    }
    proof {
        assert(pair_views(pairs@) =~= match_views(segments@));
    }
    fill_out_range_list(context, &pairs)
}

/// Helper for the tiling law, generalized over the sweep cursor: `cur` is
/// where the next emitted segment must begin, and every candidate that still
/// overlaps the context ends at or after it.
proof fn lemma_fill_props(ctx: (int, int), ranges: Seq<(int, int)>, cur: int)
    requires
        ctx.0 <= ctx.1,
        cur <= ctx.1,
        forall|k: int| 0 <= k < ranges.len() ==> (#[trigger] ranges[k]).0 < ranges[k].1,
        forall|k: int, l: int|
            0 <= k < l < ranges.len() ==> (#[trigger] ranges[k]).1 <= (#[trigger] ranges[l]).0,
        forall|k: int|
            0 <= k < ranges.len() && ranges_overlap(ctx, #[trigger] ranges[k]) ==> cur
                <= ranges[k].1,
    ensures
        ({
            let segs = spec_fill(ctx, ranges, cur);
            &&& cur < ctx.1 ==> segs.len() > 0 && segs[0].0 == cur && segs[segs.len() - 1].1
                == ctx.1
            &&& cur >= ctx.1 ==> segs.len() == 0
            &&& forall|k: int|
                0 <= k < segs.len() ==> cur <= (#[trigger] segs[k]).0 < segs[k].1 <= ctx.1
            &&& forall|k: int| 0 <= k < segs.len() - 1 ==> (#[trigger] segs[k]).1 == segs[k + 1].0
            &&& forall|k: int| 0 <= k < segs.len() - 1 ==> (#[trigger] segs[k]).2 || segs[k + 1].2
            &&& segs.len() > 0 && segs[0].2 ==> exists|j: int|
                0 <= j < ranges.len() && (#[trigger] ranges[j]).0 <= segs[0].0
            &&& forall|k: int|
                0 <= k < segs.len() - 1 && (#[trigger] segs[k]).2 && segs[k + 1].2
                    ==> exists|j: int|
                    0 <= j < ranges.len() - 1 && (#[trigger] ranges[j]).1 == segs[k].1 && ranges[j
                        + 1].0 == segs[k].1
        }),
    decreases ranges.len(),
{
    let segs = spec_fill(ctx, ranges, cur);
    if ranges.len() == 0 {
        // The tail gap alone covers what is left of the context.
    } else {
        let r = ranges[0];
        let tail = ranges.skip(1);
        assert(forall|k: int| 0 <= k < tail.len() ==> tail[k] == ranges[k + 1]);
        if !ranges_overlap(ctx, r) {
            lemma_fill_props(ctx, tail, cur);
            assert(segs == spec_fill(ctx, tail, cur));
            if segs.len() > 0 && segs[0].2 {
                let j = choose|j: int| 0 <= j < tail.len() && (#[trigger] tail[j]).0 <= segs[0].0;
                assert(0 <= j + 1 < ranges.len() && ranges[j + 1].0 <= segs[0].0);
            }
            assert forall|k: int|
                0 <= k < segs.len() - 1 && (#[trigger] segs[k]).2 && segs[k + 1].2 implies exists|
                j: int,
            |
                0 <= j < ranges.len() - 1 && (#[trigger] ranges[j]).1 == segs[k].1 && ranges[j
                    + 1].0 == segs[k].1 by {
                let j = choose|j: int|
                    0 <= j < tail.len() - 1 && (#[trigger] tail[j]).1 == segs[k].1 && tail[j + 1].0
                        == segs[k].1;
                assert(0 <= j + 1 < ranges.len() - 1 && ranges[j + 1].1 == segs[k].1 && ranges[j
                    + 2].0 == segs[k].1);
            }
        } else {
            let gap: Seq<(int, int, bool)> = if cur < r.0 {
                seq![(cur, r.0, false)]
            } else {
                Seq::empty()
            };
            let s = if r.0 > cur {
                r.0
            } else {
                cur
            };
            let e = if r.1 < ctx.1 {
                r.1
            } else {
                ctx.1
            };
            let m: Seq<(int, int, bool)> = if e > s {
                seq![(s, e, true)]
            } else {
                Seq::empty()
            };
            assert(ranges[0].0 < ranges[0].1);
            // The candidate overlaps the context, so it does not start past it.
            assert(r.0 <= ctx.1);
            // The cursor never moves backward.
            assert(cur <= e);
            lemma_fill_props(ctx, tail, e);
            let rest = spec_fill(ctx, tail, e);
            assert(segs == gap + m + rest);
            assert(forall|k: int|
                0 <= k < rest.len() ==> e <= (#[trigger] rest[k]).0 < rest[k].1 <= ctx.1);
            if cur < r.0 && e <= s {
                // A gap was emitted but the clamped match is empty: the
                // candidate starts exactly at the context end, so the gap
                // runs to the end and nothing can follow it.
                assert(e == ctx.1 && r.0 == ctx.1);
                assert(rest.len() == 0);
                assert(segs =~= seq![(cur, ctx.1, false)]);
            } else {
                assert(segs.len() == gap.len() + m.len() + rest.len());
            }
            let glen = gap.len() as int;
            let mlen = m.len() as int;
            let elen = glen + mlen;
            if segs.len() > 0 && segs[0].2 {
                if glen > 0 {
                    assert(segs[0] == gap[0]);
                    assert(false);
                } else if mlen > 0 {
                    assert(segs[0] == (s, e, true));
                    assert(0 <= 0 < ranges.len() && ranges[0].0 <= segs[0].0);
                } else {
                    assert(segs[0] == rest[0]);
                    let j = choose|j: int|
                        0 <= j < tail.len() && (#[trigger] tail[j]).0 <= rest[0].0;
                    assert(0 <= j + 1 < ranges.len() && ranges[j + 1].0 <= segs[0].0);
                }
            }
            assert forall|k: int|
                0 <= k < segs.len() - 1 && (#[trigger] segs[k]).2 && segs[k + 1].2 implies exists|
                j: int,
            |
                0 <= j < ranges.len() - 1 && (#[trigger] ranges[j]).1 == segs[k].1 && ranges[j
                    + 1].0 == segs[k].1 by {
                if k < elen - 1 {
                    // Only a gap followed by the clamped match can sit
                    // inside the emissions, and a gap is unmatched.
                    assert(glen == 1 && mlen == 1 && k == 0);
                    assert(segs[0] == gap[0]);
                    assert(false);
                } else if k == elen - 1 {
                    // The clamped match meets the first segment behind it:
                    // the next candidate must begin exactly where this one
                    // ends.
                    if mlen == 0 {
                        assert(glen == 1 && segs[k] == gap[0]);
                        assert(false);
                    }
                    assert(segs[k] == (s, e, true));
                    assert(segs[k + 1] == rest[0] && rest[0].2);
                    assert(rest.len() > 0);
                    assert(e < ctx.1);
                    assert(e == r.1);
                    assert(rest[0].0 == e);
                    let j = choose|j: int|
                        0 <= j < tail.len() && (#[trigger] tail[j]).0 <= rest[0].0;
                    assert(ranges[j + 1].0 <= e);
                    if j + 1 > 1 {
                        assert(ranges[1].1 <= ranges[j + 1].0);
                        assert(ranges[1].0 < ranges[1].1);
                    }
                    assert(ranges[1].0 <= e);
                    assert(ranges[0].1 <= ranges[1].0);
                    assert(ranges[1].0 == e);
                    assert(0 <= 0 < ranges.len() - 1 && ranges[0].1 == segs[k].1 && ranges[1].0
                        == segs[k].1);
                } else {
                    let kk = k - elen;
                    assert(segs[k] == rest[kk] && segs[k + 1] == rest[kk + 1]);
                    let j = choose|j: int|
                        0 <= j < tail.len() - 1 && (#[trigger] tail[j]).1 == rest[kk].1 && tail[j
                            + 1].0 == rest[kk].1;
                    assert(0 <= j + 1 < ranges.len() - 1 && ranges[j + 1].1 == segs[k].1 && ranges[
                        j + 2].0 == segs[k].1);
                }
            }
        }
    }
}

/// Law: for any context `[a, b)` and any ascending, non-overlapping, nonempty
/// candidate ranges, the filled-out segments are contiguous (each segment's
/// end equals the next segment's start), cover exactly `[a, b)`, contain no
/// empty segment, and never place two unmatched segments side by side; and
/// two matched segments sit side by side only where consecutive candidates
/// touch at exactly that boundary.
pub proof fn lemma_fill_out_tiles(ctx: (int, int), ranges: Seq<(int, int)>)
    requires
        ctx.0 <= ctx.1,
        forall|k: int| 0 <= k < ranges.len() ==> (#[trigger] ranges[k]).0 < ranges[k].1,
        forall|k: int, l: int|
            0 <= k < l < ranges.len() ==> (#[trigger] ranges[k]).1 <= (#[trigger] ranges[l]).0,
    ensures
        ({
            let segs = spec_fill(ctx, ranges, ctx.0);
            &&& ctx.0 < ctx.1 ==> segs.len() > 0 && segs[0].0 == ctx.0 && segs[segs.len() - 1].1
                == ctx.1
            &&& ctx.0 == ctx.1 ==> segs.len() == 0
            &&& forall|k: int|
                0 <= k < segs.len() ==> ctx.0 <= (#[trigger] segs[k]).0 < segs[k].1 <= ctx.1
            &&& forall|k: int| 0 <= k < segs.len() - 1 ==> (#[trigger] segs[k]).1 == segs[k + 1].0
            &&& forall|k: int| 0 <= k < segs.len() - 1 ==> (#[trigger] segs[k]).2 || segs[k + 1].2
            &&& forall|k: int|
                0 <= k < segs.len() - 1 && (#[trigger] segs[k]).2 && segs[k + 1].2
                    ==> exists|j: int|
                    0 <= j < ranges.len() - 1 && (#[trigger] ranges[j]).1 == segs[k].1 && ranges[j
                        + 1].0 == segs[k].1
        }),
{
    lemma_fill_props(ctx, ranges, ctx.0);
}

proof fn lemma_segs_chain(segs: Seq<(int, int, bool)>, a: int, b: int)
    requires
        forall|k: int| 0 <= k < segs.len() ==> (#[trigger] segs[k]).0 < segs[k].1,
        forall|k: int| 0 <= k < segs.len() - 1 ==> (#[trigger] segs[k]).1 == segs[k + 1].0,
        0 <= a < b < segs.len(),
    ensures
        segs[a].1 <= segs[b].0,
    decreases b - a,
{
    if a + 1 < b {
        lemma_segs_chain(segs, a, b - 1);
    }
}

/// The filled-out segments are pairwise disjoint: an earlier segment ends
/// at or before a later one begins.
pub proof fn lemma_fill_out_disjoint(ctx: (int, int), ranges: Seq<(int, int)>)
    requires
        ctx.0 <= ctx.1,
        forall|k: int| 0 <= k < ranges.len() ==> (#[trigger] ranges[k]).0 < ranges[k].1,
        forall|k: int, l: int|
            0 <= k < l < ranges.len() ==> (#[trigger] ranges[k]).1 <= (#[trigger] ranges[l]).0,
    ensures
        forall|a: int, b: int|
            0 <= a < b < spec_fill(ctx, ranges, ctx.0).len() ==> (#[trigger] spec_fill(
                ctx,
                ranges,
                ctx.0,
            )[a]).1 <= (#[trigger] spec_fill(ctx, ranges, ctx.0)[b]).0,
{
    lemma_fill_out_tiles(ctx, ranges);
    let segs = spec_fill(ctx, ranges, ctx.0);
    assert forall|a: int, b: int| 0 <= a < b < segs.len() implies (#[trigger] segs[a]).1 <= (
    #[trigger] segs[b]).0 by {
        lemma_segs_chain(segs, a, b);
    }
}

} // verus!
