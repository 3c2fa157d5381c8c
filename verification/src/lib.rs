//! A deduplicating line writer: new, non-blank lines are appended to a
//! destination text, each at most once, optionally trimmed and sorted in
//! natural order.

pub mod config;
pub mod text;
pub mod roundtrip;
pub mod order;
pub mod rank;
pub mod lineset;
pub mod writer;
pub mod laws;
