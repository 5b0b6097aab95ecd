//! Verified core of a catalog download pipeline: paginated catalog
//! aggregation with slug-keyed deduplication, popularity filtering and
//! descending sort; download planning with idempotent skip and atomic
//! temp-then-rename staging; version discovery by scanning extracted text;
//! and report-row assembly. Network, filesystem and archive I/O live
//! outside this crate and exchange plain values with it.

pub mod aggregate;
pub mod download;
pub mod models;
pub mod report;
pub mod resolve;
pub mod retry;
pub mod staging;
pub mod urls;
pub mod version_scan;
