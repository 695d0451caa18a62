use vstd::prelude::*;
use crate::compress::Encoding;

verus! {

/// The two streams of one cache entry.
#[derive(Debug, Clone, Copy, PartialEq, Eq, Structural)]
pub enum StreamKind {
    /// The primary table, row-sharded.
    Primary,
    /// The fragment window table, one shard per window.
    FragmentWindow,
}

/// The compression policy of a cache, as recorded in its descriptor.
#[derive(Debug, Clone, Copy, PartialEq, Eq, Structural)]
pub enum CompressionType {
    /// Every stream stored raw.
    Uncompressed,
    /// Every stream as LZ4 frames.
    Lz4,
    /// Every stream as zstd frames.
    Zstd,
    /// Fragment windows as LZ4 frames, the primary table raw.
    Hybrid,
}

/// The encoding that `policy` picks for `stream`.
pub open spec fn encoding_for(policy: CompressionType, stream: StreamKind) -> Encoding {
    match policy {
        CompressionType::Uncompressed => Encoding::Raw,
        CompressionType::Lz4 => Encoding::Lz4,
        CompressionType::Zstd => Encoding::Zstd,
        CompressionType::Hybrid => match stream {
            StreamKind::Primary => Encoding::Raw,
            StreamKind::FragmentWindow => Encoding::Lz4,
        },
    }
}

/// Picks the encoding of one stream under a policy.
pub fn choose_encoding(policy: CompressionType, stream: StreamKind) -> (r: Encoding)
    ensures
        r == encoding_for(policy, stream),
{
    match policy {
        CompressionType::Uncompressed => Encoding::Raw,
        CompressionType::Lz4 => Encoding::Lz4,
        CompressionType::Zstd => Encoding::Zstd,
        CompressionType::Hybrid => match stream {
            StreamKind::Primary => Encoding::Raw,
            StreamKind::FragmentWindow => Encoding::Lz4,
        },
    }
}

/// The policy that the compression switches select: automatic per-stream
/// compression when `auto_compression` is set, else LZ4 for everything or
/// nothing.
pub open spec fn policy_of_flags(enable_compression: bool, auto_compression: bool) -> CompressionType {
    if auto_compression {
        CompressionType::Hybrid
    } else if enable_compression {
        CompressionType::Lz4
    } else {
        CompressionType::Uncompressed
    }
}

pub fn compression_from_flags(enable_compression: bool, auto_compression: bool) -> (r:
    CompressionType)
    ensures
        r == policy_of_flags(enable_compression, auto_compression),
{
    if auto_compression {
        CompressionType::Hybrid
    } else if enable_compression {
        CompressionType::Lz4
    } else {
        CompressionType::Uncompressed
    }
}

pub const MIB: usize = 1024 * 1024;

/// Files longer than this many bytes are read through a memory map by default.
pub const DEFAULT_MMAP_THRESHOLD: u64 = 10_000_000;

/// Tunables of a cache manager.
#[derive(Debug, Clone, Copy, PartialEq, Eq, Structural)]
pub struct CacheConfig {
    /// Compression policy of new cache entries.
    pub compression: CompressionType,
    /// Capacity of the buffered reader and writer, in bytes.
    pub buffer_size: usize,
    /// Upper bound on the workers of one stream.
    pub parallel_threads: usize,
    /// Shard files longer than this are read through a memory map.
    pub mmap_threshold: u64,
}

impl CacheConfig {
    /// Per-stream automatic compression, 32 MiB buffers, one worker, and
    /// memory-mapped reads above ten million bytes.
    pub fn default_config() -> (r: CacheConfig)
        ensures
            r.compression == CompressionType::Hybrid,
            r.buffer_size == 32 * MIB,
            r.parallel_threads == 1,
            r.mmap_threshold == DEFAULT_MMAP_THRESHOLD,
    {
        CacheConfig {
            compression: CompressionType::Hybrid,
            buffer_size: 32 * MIB,
            parallel_threads: 1,
            mmap_threshold: DEFAULT_MMAP_THRESHOLD,
        }
    }

    /// The configuration tuned for `thread_count` threads.
    pub open spec fn for_threads_spec(self, thread_count: usize) -> CacheConfig {
        let t: usize = if thread_count == 0 { 1 } else { thread_count };
        CacheConfig {
            compression: self.compression,
            buffer_size: (64 * MIB * (if t > 4 { 4usize } else { t })) as usize,
            parallel_threads: t,
            mmap_threshold: self.mmap_threshold,
        }
    }

    /// Adjusts the configuration to a machine with `thread_count` threads:
    /// that many workers (at least one) and 64 MiB of buffer per thread, for
    /// up to four threads.
    pub fn for_threads(self, thread_count: usize) -> (r: CacheConfig)
        ensures
            r.parallel_threads == if thread_count == 0 { 1 } else { thread_count },
            r.buffer_size == 64 * MIB * (if thread_count == 0 { 1usize } else if thread_count
                > 4 { 4usize } else { thread_count }),
            r.compression == self.compression,
            r.mmap_threshold == self.mmap_threshold,
            r == self.for_threads_spec(thread_count),
    {
        let t: usize = if thread_count == 0 { 1 } else { thread_count };
        let f: usize = if t > 4 { 4 } else { t };
        assert(64 * MIB * f <= 64 * MIB * 4) by (nonlinear_arith)
            requires
                f <= 4,
        ;
        CacheConfig {
            compression: self.compression,
            buffer_size: 64 * MIB * f,
            parallel_threads: t,
            mmap_threshold: self.mmap_threshold,
        }
    }
}

impl Default for CacheConfig {
    fn default() -> (r: CacheConfig)
        ensures
            r.compression == CompressionType::Hybrid,
            r.buffer_size == 32 * MIB,
            r.parallel_threads == 1,
            r.mmap_threshold == DEFAULT_MMAP_THRESHOLD,
    {
        CacheConfig::default_config()
    }
}

/// How a shard file is read.
#[derive(Debug, Clone, Copy, PartialEq, Eq, Structural)]
pub enum ReadStrategy {
    /// Through a memory map, without copying the file to the heap.
    Mapped,
    /// Into a heap buffer.
    Buffered,
}

/// Files above the threshold are mapped; the others are read into a buffer.
pub fn choose_read_strategy(file_len: u64, threshold: u64) -> (r: ReadStrategy)
    ensures
        r == (if file_len > threshold { ReadStrategy::Mapped } else { ReadStrategy::Buffered }),
{
    if file_len > threshold {
        ReadStrategy::Mapped
    } else {
        ReadStrategy::Buffered
    }
}

} // verus!
