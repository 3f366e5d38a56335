//! Managed storage and insights cache engine for a local audio library.
//!
//! The library maps source audio files onto a stable, content-addressed
//! managed storage layout, caches partially computed transcript insights
//! keyed by a content fingerprint with field-level merge semantics, and
//! aggregates a scanned library into time-bucketed analytics.
//!
//! All filesystem and network work is left to the host application: the
//! functions here compute names, plans, decisions and aggregates from plain
//! values, and their contracts say exactly what they return.

pub mod analytics;
pub mod errors;
pub mod fingerprint;
pub mod insights;
pub mod jsontext;
pub mod storage;
pub mod textutil;
pub mod transcript;
