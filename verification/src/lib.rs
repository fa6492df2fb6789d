//! Top-K result ranking for a segmented full-text index.
//!
//! A query is evaluated independently over many index segments; each segment
//! feeds its matching documents, in arbitrary order, to a bounded collector
//! that keeps only the K best under a deterministic ranking order. A final
//! merge step reduces the per-segment results into one globally ordered
//! top-K list.
//!
//! Ranking keys are plain `u64` values: a relevance score or a columnar
//! field value, mapped by the caller into an order-preserving integer
//! encoding before collection.
#![allow(unused_imports)]
use vstd::prelude::*;

pub mod segment_reader;
pub mod top_collector;
pub mod top_score_collector;
pub mod tweak_score_top_collector;

pub use top_score_collector::TopDocs;
pub use top_score_collector::TopScoreSegmentCollector;

verus! {

/// Identifies one document uniquely across the index for the lifetime of a
/// single search: the segment's ordinal first, then the document id local to
/// that segment. Ordered lexicographically, ascending.
#[derive(Clone, Copy, Debug, PartialEq, Eq, Structural, Hash, PartialOrd, Ord)]
pub struct DocAddress(pub u32, pub u32);

/// How constructing or segment-binding a collector can fail.
#[derive(Clone, Copy, Debug, PartialEq, Eq, Structural)]
pub enum CollectorError {
    /// A collector was requested with a limit of zero.
    InvalidArgument,
    /// A ranking field is absent from the schema, or present but not open
    /// to random access.
    SchemaError,
}

} // verus!
