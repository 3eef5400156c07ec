//! A bounded-depth link crawler, as a state machine over a directed graph of
//! page addresses. The caller fetches pages; this library decides which page
//! comes next, which of a page's links become nodes, and how deep to go.

pub mod crawl;
pub mod extract;
pub mod filter;
pub mod graph;
pub mod model;
