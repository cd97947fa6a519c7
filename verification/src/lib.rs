//! Counting of a delimiter byte in files and streams.
//!
//! The crate offers two ways to count: a chunked one for inputs whose bytes
//! can be addressed by offset, where the chunks are counted independently and
//! the partial counts are summed, and an incremental one for inputs that can
//! only be read front to back. Both are specified against the same
//! mathematical count, [`scan::occurrences`].

pub mod config;
pub mod dispatch;
pub mod error;
pub mod fill;
pub mod parallel;
pub mod plan;
pub mod reduce;
pub mod scan;
pub mod stream;
