//! Commit statistics for source-control projects: probing and paging a
//! remote history, scheduling page fetches under a concurrency limit, and
//! folding commit records into per-date, per-author churn totals.

pub mod aggregate;
pub mod calendar;
pub mod config;
pub mod csv;
pub mod error;
pub mod orchestrator;
pub mod probe;
pub mod project;
pub mod record;
pub mod report;
pub mod request;
pub mod sample;
pub mod store;
pub mod str_map;
pub mod tally;
pub mod text;
