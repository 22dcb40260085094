use ghs::query::Query;

#[test]
fn basic() {
    let q = "org:rust-lang function";
    let parsed = Query {
        raw: q,
        segments: Vec::new(),
    };
    assert_eq!(parsed.raw, q);
}
