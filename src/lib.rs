//! A music-metadata crawler core: a job store with idempotent enqueue and
//! at-most-once claims, per-service rate gating, a bounded retry policy
//! with exponential backoff, and the decisions of the feed, link and
//! features pipeline stages.
pub mod catalog;
pub mod config;
pub mod features;
pub mod gate;
pub mod json;
pub mod model;
pub mod pipeline;
pub mod prune;
pub mod retry;
pub mod sink;
pub mod store;
pub mod text;
pub mod types;
pub mod worker;
