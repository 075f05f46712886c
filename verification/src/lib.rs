//! Queue-driven maintenance engine for directories of multi-part `.rar`
//! archives: classification of root archives, idempotent-extraction checks,
//! nested-archive discovery with timestamp reconciliation, and age-based
//! retention of source parts and cruft files.
//!
//! The engine works on plain values (path strings, manifest entries, observed
//! file sizes and ages) and decides; the surrounding binary performs the
//! filesystem and decompression work and feeds the observations back in.

pub mod checker;
pub mod classifier;
pub mod manifest;
pub mod paths;
pub mod queue;
