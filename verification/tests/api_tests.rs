use ghs::api::{build_search_query, PaginationInfo};
use ghs::strutil::{parse_u32, u32_to_string};

#[test]
fn link_header_all_relations() {
    let header = "<https://api.example.com/search/code?q=foo&page=2>; rel=\"next\", <https://api.example.com/search/code?q=foo&page=34>; rel=\"last\", <https://api.example.com/search/code?q=foo&page=1>; rel=\"first\", <https://api.example.com/search/code?q=foo&page=1>; rel=\"prev\"";
    let info = PaginationInfo::from_link_header(header);
    assert_eq!(
        info.next.as_deref(),
        Some("https://api.example.com/search/code?q=foo&page=2")
    );
    assert_eq!(
        info.last.as_deref(),
        Some("https://api.example.com/search/code?q=foo&page=34")
    );
    assert_eq!(
        info.first.as_deref(),
        Some("https://api.example.com/search/code?q=foo&page=1")
    );
    assert_eq!(
        info.prev.as_deref(),
        Some("https://api.example.com/search/code?q=foo&page=1")
    );
    assert_eq!(info.get_last_page_number(), Some(34));
}

#[test]
fn link_header_partial() {
    let header = "<https://api.example.com/x?page=2>; rel=\"next\"";
    let info = PaginationInfo::from_link_header(header);
    assert_eq!(info.next.as_deref(), Some("https://api.example.com/x?page=2"));
    assert!(info.prev.is_none());
    assert!(info.first.is_none());
    assert!(info.last.is_none());
    assert_eq!(info.get_last_page_number(), None);
}

#[test]
fn link_header_malformed_part_is_skipped() {
    let info = PaginationInfo::from_link_header("no semicolon here, <u>; rel=\"last\"");
    assert_eq!(info.last.as_deref(), Some("u"));
    assert!(info.next.is_none());
}

#[test]
fn last_page_number_stops_at_ampersand() {
    let info = PaginationInfo {
        prev: None,
        next: None,
        first: None,
        last: Some("https://x/search?q=a&page=12&per_page=30".to_string()),
    };
    assert_eq!(info.get_last_page_number(), Some(12));
}

#[test]
fn last_page_number_rejects_junk() {
    let info = PaginationInfo {
        prev: None,
        next: None,
        first: None,
        last: Some("https://x/search?q=a&page=12junk".to_string()),
    };
    assert_eq!(info.get_last_page_number(), None);
}

#[test]
fn parse_u32_edges() {
    assert_eq!(parse_u32("0"), Some(0));
    assert_eq!(parse_u32("34"), Some(34));
    assert_eq!(parse_u32("+7"), Some(7));
    assert_eq!(parse_u32("4294967295"), Some(u32::MAX));
    assert_eq!(parse_u32("4294967296"), None);
    assert_eq!(parse_u32(""), None);
    assert_eq!(parse_u32("+"), None);
    assert_eq!(parse_u32("1a"), None);
    assert_eq!(parse_u32("-1"), None);
}

#[test]
fn u32_to_string_digits() {
    assert_eq!(u32_to_string(0), "0");
    assert_eq!(u32_to_string(34), "34");
    assert_eq!(u32_to_string(u32::MAX), "4294967295");
}

#[test]
fn search_query_is_encoded() {
    // The query text really is percent-encoded, not handed back unchanged.
    assert_eq!(build_search_query("foo bar", None), "q=foo%20bar");
    assert_eq!(build_search_query("x", Some(3)), "q=x&page=3");
}

#[test]
fn decimal_round_trip() {
    for n in [0u32, 1, 9, 10, 99, 12345, u32::MAX] {
        assert_eq!(parse_u32(&u32_to_string(n)), Some(n));
    }
}

#[test]
fn later_link_parts_overwrite_earlier_ones() {
    let header = "<first-url>; rel=\"next\", <second-url>; rel=\"next\"";
    let info = PaginationInfo::from_link_header(header);
    assert_eq!(info.next.as_deref(), Some("second-url"));
}
