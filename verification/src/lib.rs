//! Mines archived public event dumps for release metadata: scans hourly
//! event records, keeps releases shipping the binary-package format,
//! classifies each accepted file by architecture, normalizes version and
//! package identity, and collapses the result to the latest entry per
//! (repository, architecture) pair.
pub mod text;
pub mod timestamp;
pub mod model;
pub mod filter;
pub mod extractor;
pub mod utils;
pub mod downloader;
pub mod output;
