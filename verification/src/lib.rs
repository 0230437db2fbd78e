//! Aggregation of combat-encounter records into per-class damage and
//! clear-time statistics, grouped by encounter, region and time window.
//!
//! Records are decoded (`decode`), filtered (`parse`), assigned to a window
//! (`window`, `time_slice`) and merged into the store (`store`, `process`).
//! The figures of each window are then drawn from the store (`process`,
//! `order`) and rendered as reports (`report`). What the store holds and what
//! merging does to it is stated over the model in `model`; `laws` proves
//! that the result does not depend on the order of merging.

pub mod bidir_map;
pub mod class;
pub mod decode;
pub mod laws;
pub mod model;
pub mod order;
pub mod parse;
pub mod pipeline;
pub mod pool;
pub mod process;
pub mod report;
pub mod store;
pub mod text;
pub mod time_slice;
pub mod window;
