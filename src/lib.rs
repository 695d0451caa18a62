//! A disk cache for indexed scan tables: tables are split into shards,
//! each shard is encoded in a fixed binary layout and compressed as a
//! per-stream policy picks, and a descriptor records what was saved and
//! when, so that a later run can tell whether the entry is still valid and
//! rebuild the tables from it.

pub mod dataset;
pub mod partition;
pub mod codec;
pub mod compress;
pub mod policy;
pub mod schedule;
pub mod descriptor;
pub mod pipeline;
pub mod manager;
pub mod store;
pub mod info;
