use vstd::prelude::*;
use crate::codec::FORMAT_VERSION;
use crate::policy::CompressionType;

verus! {

/// A point in time: whole seconds since the Unix epoch and the nanoseconds
/// past them.
#[derive(Debug, Clone, Copy, PartialEq, Eq, Structural)]
pub struct Timestamp {
    pub secs: u64,
    pub nanos: u32,
}

/// `a` is not later than `b`.
pub open spec fn ts_le(a: Timestamp, b: Timestamp) -> bool {
    a.secs < b.secs || (a.secs == b.secs && a.nanos <= b.nanos)
}

impl Timestamp {
    pub fn epoch() -> (r: Timestamp)
        ensures
            r.secs == 0 && r.nanos == 0,
    {
        Timestamp { secs: 0, nanos: 0 }
    }

    pub fn not_after(&self, other: &Timestamp) -> (r: bool)
        ensures
            r == ts_le(*self, *other),
    {
        self.secs < other.secs || (self.secs == other.secs && self.nanos <= other.nanos)
    }
}

/// The record that commits one cache entry: its layout version, policy,
/// stream sizes, and the source's modification time when it was saved.
#[derive(Debug, Clone, Copy, PartialEq, Eq, Structural)]
pub struct CacheDescriptor {
    pub version: u32,
    pub compression_type: CompressionType,
    pub shard_count: usize,
    pub ms2_window_count: usize,
    pub created_at: Timestamp,
    pub source_modified: Timestamp,
    pub parallel_threads: usize,
}

impl CacheDescriptor {
    /// The source has changed since the entry was saved: its current
    /// modification time is strictly later than the recorded one. A source
    /// whose time is at or before the recorded one is not stale.
    pub fn is_stale(&self, current_source_modified: Timestamp) -> (r: bool)
        ensures
            r == !ts_le(current_source_modified, self.source_modified),
    {
        !current_source_modified.not_after(&self.source_modified)
    }
}

/// Whether a cache entry may be loaded, given what probing found: the
/// descriptor, if one was present and readable, and the source's current
/// modification time, if it could be read. Every failed probe means invalid.
pub fn cache_is_valid(
    descriptor: Option<CacheDescriptor>,
    current_source_modified: Option<Timestamp>,
) -> (r: bool)
    ensures
        r == (descriptor matches Some(d) && current_source_modified matches Some(t) && d.version
            == FORMAT_VERSION && ts_le(t, d.source_modified)),
{
    match (descriptor, current_source_modified) {
        (Some(d), Some(t)) => d.version == FORMAT_VERSION && !d.is_stale(t),
        _ => false,
    }
}

} // verus!
