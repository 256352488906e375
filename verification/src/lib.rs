//! Quick-capture note persistence engine.
//!
//! Appends a timestamped thought to a Markdown note file, either as an entry
//! in a running daily log or as a standalone note cross-linked from the daily
//! log. This crate holds the pure core: path resolution, idempotent date
//! header insertion, content merging, backlink description derivation, and
//! the validation that precedes any file or network activity. The caller is
//! expected to do the actual reading and writing of files around it.

pub mod capture;
pub mod desc;
pub mod forward;
pub mod merge;
pub mod resolve;
pub mod text;
pub mod timestamp;
