//! A verified network-capture pipeline.
//!
//! The crate covers the four stages of the pipeline: dissection of raw
//! link-layer frames into structured records, a capture run that assigns
//! strictly increasing sequence numbers, a bounded first-in first-out
//! ingestion queue that loses nothing it accepted, and range-query
//! analytics that aggregate stored record lengths over a closed
//! timestamp interval.  Device access and the document store itself are
//! outside the library; callers hand in frames, fetched documents and
//! channel outcomes as plain values and receive records, documents and
//! metrics back.

pub mod addr;
pub mod analytics;
pub mod bytes;
pub mod capture;
pub mod clock;
pub mod dissect;
pub mod ingest;
pub mod record;
pub mod timestamp;
