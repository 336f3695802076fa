//! Batch image-compression orchestration: size statistics, the progress
//! message protocol spoken by the worker pool, progress aggregation, and
//! reconciliation of produced output paths back to their sources.

pub mod job;
pub mod progress;
pub mod reconcile;
pub mod stats;
pub mod text;
