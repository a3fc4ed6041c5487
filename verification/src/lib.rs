//! Consolidation pipeline for tabular security-finding data.
//!
//! The crate validates that several source tables share one header shape,
//! merges their rows, normalizes cells into positional records, removes
//! duplicates on a fixed key prefix, groups records by problem name and
//! severity text, orders the groups by severity priority and size, and
//! derives a per-group statistics table for a downstream renderer.

pub mod dedup;
pub mod group;
pub mod merge;
pub mod models;
pub mod order;
pub mod processor;
pub mod record;
pub mod stats;
pub mod text;
