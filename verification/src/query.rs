//! A parsed query: the raw text and the spans that qualify it.

use vstd::prelude::*;

verus! {

/// A search query: the raw text and its qualified spans.
#[derive(Debug, Clone)]
pub struct Query<'a> {
    pub raw: &'a str,
    pub segments: Vec<Segment>,
}

/// One span of the raw text with its qualification.
#[derive(Debug, Clone)]
pub struct Segment {
    pub span_start: usize,
    pub span_end: usize,
    pub span_type: SpanType,
}

/// How a span qualifies the terms it covers.
#[derive(Debug, Clone)]
pub enum SpanType {
    Negative,
}

} // verus!
