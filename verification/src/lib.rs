//! A verified core for a package-scanning worker.
//!
//! The worker downloads the distribution artifacts of a package, scans each
//! file against a set of weighted signature rules, aggregates the findings
//! into a single submission body, and reports that body to a central service.
//! This crate holds the logic of that pipeline: filetype gating, per-file
//! scoring, cross-file deduplication, tie-breaking, size caps, submission
//! formatting, the inspector-URL rewrite, and the token-refresh decisions.
//! The surrounding process (HTTP, archives, the rule engine) hands plain
//! values in and takes plain values out.

pub mod app_config;
pub mod client;
pub mod jsonfmt;
pub mod models;
pub mod scanner;
pub mod strutil;
pub mod sums;
pub mod utils;
