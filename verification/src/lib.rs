//! A change-data-capture event router: declarative routing rules with
//! regex table patterns, a Debezium envelope parser, label-indexed
//! monotonic counters, and the per-record routing pipeline built on them.

pub mod envelope;
pub mod metrics;
pub mod pipeline;
pub mod transform;
