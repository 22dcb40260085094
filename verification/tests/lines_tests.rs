use ghs::lines::{count_lines, smart_iter_lines, SmartLineItem};

#[test]
fn smart_lines_basic() {
    let content = "alpha\nbeta\ngamma";

    let smart_lines: Vec<SmartLineItem> = smart_iter_lines(content);

    assert_eq!(
        smart_lines,
        vec![
            SmartLineItem {
                content: "alpha".to_string(),
                start: 0,
            },
            SmartLineItem {
                content: "beta".to_string(),
                start: 6,
            },
            SmartLineItem {
                content: "gamma".to_string(),
                start: 11,
            }
        ]
    );
}

#[test]
fn smart_lines_carriage_return() {
    let content = "alpha\r\nbeta\rgamma";

    let smart_lines: Vec<SmartLineItem> = smart_iter_lines(content);

    assert_eq!(
        smart_lines,
        vec![
            SmartLineItem {
                content: "alpha".to_string(),
                start: 0,
            },
            SmartLineItem {
                content: "beta\rgamma".to_string(),
                start: 7,
            },
        ]
    );
}

#[test]
fn smart_lines_empty_line() {
    let content = "alpha\n\ngamma";

    let smart_lines: Vec<SmartLineItem> = smart_iter_lines(content);

    assert_eq!(
        smart_lines,
        vec![
            SmartLineItem {
                content: "alpha".to_string(),
                start: 0,
            },
            SmartLineItem {
                content: "".to_string(),
                start: 6,
            },
            SmartLineItem {
                content: "gamma".to_string(),
                start: 7,
            },
        ]
    );
}

#[test]
fn smart_lines_empty_input() {
    let smart_lines: Vec<SmartLineItem> = smart_iter_lines("");
    assert!(smart_lines.is_empty());
}

#[test]
fn smart_lines_trailing_newline() {
    // A terminal terminator implies a trailing empty line, which is never
    // skipped.
    let smart_lines: Vec<SmartLineItem> = smart_iter_lines("a\n");
    assert_eq!(
        smart_lines,
        vec![
            SmartLineItem {
                content: "a".to_string(),
                start: 0,
            },
            SmartLineItem {
                content: "".to_string(),
                start: 2,
            },
        ]
    );
}

#[test]
fn smart_lines_round_trip_reassembles() {
    // Concatenating each content with the terminator that follows it in
    // the source reassembles the source exactly.
    let content = "one\r\ntwo\nthree";
    let lines = smart_iter_lines(content);
    let mut rebuilt = String::new();
    for item in &lines {
        rebuilt.push_str(&item.content);
        let after = item.start + item.content.chars().count();
        if content[after..].starts_with("\r\n") {
            rebuilt.push_str("\r\n");
        } else if content[after..].starts_with('\n') {
            rebuilt.push('\n');
        }
    }
    assert_eq!(rebuilt, content);
    for w in lines.windows(2) {
        assert!(w[0].start < w[1].start);
    }
}

#[test]
fn count_lines_matches_segmentation() {
    assert_eq!(count_lines(""), 0);
    assert_eq!(count_lines("alpha"), 1);
    assert_eq!(count_lines("alpha\n"), 2);
    assert_eq!(count_lines("alpha\nbeta\ngamma"), 3);
    assert_eq!(count_lines("alpha\n\ngamma"), 3);
}

#[test]
fn smart_lines_count_offsets_in_characters() {
    // Offsets advance one per character, whatever its encoded width.
    let smart_lines: Vec<SmartLineItem> = smart_iter_lines("é\nüî");
    assert_eq!(
        smart_lines,
        vec![
            SmartLineItem {
                content: "é".to_string(),
                start: 0,
            },
            SmartLineItem {
                content: "üî".to_string(),
                start: 2,
            },
        ]
    );
}
