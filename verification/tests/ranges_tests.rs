use ghs::ranges::{are_ranges_overlapping, fill_out_range_list, RangeSegment};

fn ranges_of(context: (usize, usize), ranges: Vec<(usize, usize)>) -> Vec<(usize, usize)> {
    fill_out_range_list(context, &ranges)
        .into_iter()
        .map(|s| (s.start, s.end))
        .collect()
}

#[test]
fn fill_out_ranges_basic() {
    assert_eq!(
        ranges_of((0, 100), vec![(25, 50)]),
        vec![(0, 25), (25, 50), (50, 100)]
    );
}

#[test]
fn fill_out_ranges_overflow() {
    assert_eq!(ranges_of((0, 100), vec![(25, 150)]), vec![(0, 25), (25, 100)]);
}

#[test]
fn fill_out_ranges_disjoint_right() {
    assert_eq!(ranges_of((0, 100), vec![(200, 300)]), vec![(0, 100)]);
}

#[test]
fn fill_out_ranges_disjoint_left() {
    assert_eq!(ranges_of((200, 300), vec![(0, 100)]), vec![(200, 300)]);
}

#[test]
fn fill_out_ranges_underflow() {
    assert_eq!(ranges_of((50, 100), vec![(0, 75)]), vec![(50, 75), (75, 100)]);
}

#[test]
fn fill_out_ranges_full() {
    assert_eq!(ranges_of((0, 100), vec![(0, 100)]), vec![(0, 100)]);
}

#[test]
fn fill_out_ranges_empty() {
    assert_eq!(ranges_of((0, 100), vec![]), vec![(0, 100)]);
}

#[test]
fn fill_out_ranges_disjoint() {
    assert_eq!(
        ranges_of((0, 100), vec![(3, 11), (32, 75)]),
        vec![(0, 3), (3, 11), (11, 32), (32, 75), (75, 100)]
    );
}

#[test]
fn fill_out_ranges_touching() {
    assert_eq!(
        ranges_of((0, 100), vec![(3, 11), (11, 75)]),
        vec![(0, 3), (3, 11), (11, 75), (75, 100)]
    );
}

#[test]
fn fill_out_ranges_annotations() {
    let context = (0, 100);
    let segments = fill_out_range_list(context, &vec![(25, 75)]);

    assert_eq!(
        segments,
        vec![
            RangeSegment {
                start: 0,
                end: 25,
                is_match: false,
            },
            RangeSegment {
                start: 25,
                end: 75,
                is_match: true,
            },
            RangeSegment {
                start: 75,
                end: 100,
                is_match: false,
            },
        ]
    );
}

#[test]
fn fill_out_ranges_cover_and_alternate() {
    // The segments tile the context without gaps and never put two
    // unmatched segments side by side.
    let segs = fill_out_range_list((10, 90), &vec![(20, 30), (30, 40), (60, 70)]);
    assert_eq!(segs.first().unwrap().start, 10);
    assert_eq!(segs.last().unwrap().end, 90);
    for w in segs.windows(2) {
        assert_eq!(w[0].end, w[1].start);
        assert!(w[0].is_match || w[1].is_match);
        // Two matched segments sit side by side only where candidates
        // touch; here that is the single boundary at 30.
        if w[0].is_match && w[1].is_match {
            assert_eq!(w[0].end, 30);
        }
    }
    for s in &segs {
        assert!(s.start < s.end);
    }
}

#[test]
fn range_overlap() {
    assert!(are_ranges_overlapping((0, 100), (25, 150)));
    assert!(are_ranges_overlapping((0, 100), (25, 75)));
    assert!(are_ranges_overlapping((25, 100), (0, 50)));
    assert!(!are_ranges_overlapping((0, 100), (200, 300)));
}
