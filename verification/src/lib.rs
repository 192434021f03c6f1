//! Streaming analyzer of taxi-trip records: rows of a comma-separated input
//! are filtered to a fixed midtown-to-JFK corridor on weekdays, validated trip
//! durations are collected into one bounded histogram per pickup hour, and the
//! histograms are projected to per-hour minimum, median and 95th-percentile
//! summaries.

pub mod datetime;
pub mod filter;
pub mod hist;
pub mod stats;
pub mod trip;
pub mod laws;
pub mod analyzer;
