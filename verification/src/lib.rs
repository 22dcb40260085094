//! Terminal client library for a code-search service: line segmentation,
//! match-range highlighting, virtualized-scrolling composition, and the
//! search/pagination/input state machines, with machine-checked contracts.

pub mod api;
pub mod app;
pub mod buffers;
pub mod history;
pub mod keys;
pub mod lines;
pub mod query;
pub mod ranges;
pub mod result_widget;
pub mod results;
pub mod search_results;
pub mod strutil;
pub mod text_input;
