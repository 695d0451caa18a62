use vstd::prelude::*;
use crate::codec::FORMAT_VERSION;
use crate::compress::Encoding;
use crate::dataset::{Columns, IndexedDataset};
use crate::descriptor::{CacheDescriptor, Timestamp};
use crate::partition::{
    lemma_merge_split_round_trip, merge_shards, merge_spec, shard_end, shard_start, split_into_shards,
    split_spec, DataShard,
};
use crate::pipeline::{decode_stream, encode_payload, stores, stream_stores};
use crate::policy::{choose_encoding, encoding_for, CacheConfig, CompressionType, StreamKind};
use crate::schedule::{collect_outcomes, failures_of, failures_upto, names_shard, FailedShard, ShardFailure};

verus! {

/// Relies on num_cpus::get: the number of logical CPUs available to this
/// process, which its documentation promises is at least one.
#[verifier::external_body]
fn available_threads() -> (r: usize)
    ensures
        r >= 1,
{
    num_cpus::get()
}

/// Why a save or a load failed.
#[derive(Debug)]
pub enum CacheError {
    /// The descriptor declares a layout version this library does not know.
    UnsupportedVersion(u32),
    /// The number of shard payloads differs from what the descriptor records.
    ShardCountMismatch,
    /// Some shards failed; every failing shard is listed, by stream and index.
    Shards(Vec<FailedShard>),
}

/// One fragment window: its mass range (bit patterns of the low and high
/// bounds) and its table.
pub type FragmentWindow = ((u32, u32), IndexedDataset);

/// The tables of a fragment window table, in order.
pub open spec fn window_tables(w: Seq<FragmentWindow>) -> Seq<Columns> {
    w.map_values(|x: FragmentWindow| x.1@)
}

/// The keys of a fragment window table, in order.
pub open spec fn window_keys(w: Seq<FragmentWindow>) -> Seq<(u32, u32)> {
    w.map_values(|x: FragmentWindow| x.0)
}

/// The tags of the shards of a `k`-way split: the mass values of each
/// shard's first and last rows.
pub open spec fn split_tags(d: Columns, k: nat) -> Seq<(u32, u32)> {
    Seq::new(
        split_spec(d, k).len(),
        |i: int| (d.mz[shard_start(d.len(), k, i)], d.mz[shard_end(d.len(), k, i) - 1]),
    )
}

/// Each payload is the stored form of the table and tag at its index.
pub open spec fn payloads_store(e: Encoding, p: Seq<Vec<u8>>, cs: Seq<Columns>, ts: Seq<(u32, u32)>) -> bool {
    &&& p.len() == cs.len()
    &&& ts.len() == cs.len()
    &&& forall|i: int| 0 <= i < p.len() ==> #[trigger] stores(e, p[i]@, cs[i], ts[i])
}

/// Everything one save writes: the stored shards of both streams, in index
/// order, and the descriptor that commits them.
pub struct SavePlan {
    pub primary: Vec<Vec<u8>>,
    pub windows: Vec<Vec<u8>>,
    pub descriptor: CacheDescriptor,
}

/// A disk cache of indexed scan tables, kept in one directory.
pub struct CacheManager {
    cache_dir: String,
    config: CacheConfig,
}

impl CacheManager {
    /// A manager over `cache_dir` with the given configuration. The
    /// directory is created when something is first written to it.
    pub fn with_config(cache_dir: String, config: CacheConfig) -> (r: CacheManager)
        ensures
            r.config() == config,
            r.cache_dir() == cache_dir,
    {
        CacheManager { cache_dir, config }
    }

    /// A manager with the default configuration and `parallel_threads`
    /// workers per stream.
    pub fn with_threads(cache_dir: String, parallel_threads: usize) -> (r: CacheManager)
        ensures
            r.config().parallel_threads == parallel_threads,
            r.config().compression == CompressionType::Hybrid,
            r.cache_dir() == cache_dir,
    {
        let mut config = CacheConfig::default_config();
        config.parallel_threads = parallel_threads;
        CacheManager { cache_dir, config }
    }

    /// A manager with one worker per available CPU.
    pub fn new(cache_dir: String) -> (r: CacheManager)
        ensures
            r.config().parallel_threads >= 1,
            r.config().compression == CompressionType::Hybrid,
            r.cache_dir() == cache_dir,
    {
        Self::with_threads(cache_dir, available_threads())
    }

    pub closed spec fn config(&self) -> CacheConfig {
        self.config
    }

    pub closed spec fn cache_dir(&self) -> String {
        self.cache_dir
    }

    pub fn get_config(&self) -> (r: CacheConfig)
        ensures
            r == self.config(),
    {
        self.config
    }

    pub fn get_cache_dir(&self) -> (r: &String)
        ensures
            *r == self.cache_dir(),
    {
        &self.cache_dir
    }

    /// Tunes the manager for `thread_count` threads (see
    /// `CacheConfig::for_threads`).
    pub fn configure_for_threads(self, thread_count: usize) -> (r: CacheManager)
        ensures
            r.config() == self.config().for_threads_spec(thread_count),
            r.cache_dir() == self.cache_dir(),
    {
        let config = self.config.for_threads(thread_count);
        CacheManager { cache_dir: self.cache_dir, config }
    }

    /// Shard count used for the primary table: the worker count, at least one.
    pub open spec fn shard_target(&self) -> nat {
        if self.config().parallel_threads == 0 {
            1
        } else {
            self.config().parallel_threads as nat
        }
    }

    /// Builds everything a save writes. The primary table is split into
    /// `shard_target()` shards; each fragment window is one shard tagged
    /// with its key. Each stream is encoded as the policy picks for it, and
    /// the descriptor records the policy, the payload count of each stream,
    /// and the times given, so that it describes this save alone.
    pub fn plan_save(
        &self,
        primary: &IndexedDataset,
        windows: &Vec<FragmentWindow>,
        source_modified: Timestamp,
        created_at: Timestamp,
    ) -> (p: SavePlan)
        requires
            primary.wf(),
            forall|i: int| 0 <= i < windows@.len() ==> (#[trigger] windows@[i]).1.wf(),
        ensures
            ({
                let k = self.shard_target();
                let pol = self.config().compression;
                &&& payloads_store(
                    encoding_for(pol, StreamKind::Primary),
                    p.primary@,
                    split_spec(primary@, k),
                    split_tags(primary@, k),
                )
                &&& payloads_store(
                    encoding_for(pol, StreamKind::FragmentWindow),
                    p.windows@,
                    window_tables(windows@),
                    window_keys(windows@),
                )
                &&& p.descriptor == CacheDescriptor {
                    version: FORMAT_VERSION,
                    compression_type: pol,
                    shard_count: p.primary@.len() as usize,
                    ms2_window_count: windows@.len() as usize,
                    created_at,
                    source_modified,
                    parallel_threads: k as usize,
                }
            }),
    {
        let policy = self.config.compression;
        let k: usize = if self.config.parallel_threads == 0 { 1 } else { self.config.parallel_threads };
        let e1 = choose_encoding(policy, StreamKind::Primary);
        let e2 = choose_encoding(policy, StreamKind::FragmentWindow);
        let shards = split_into_shards(primary, k);
        let ghost cs = split_spec(primary@, k as nat);
        let ghost ts = split_tags(primary@, k as nat);
        let mut primary_out: Vec<Vec<u8>> = Vec::new();
        let mut i: usize = 0;
        while i < shards.len()
            invariant
                i <= shards@.len(),
                shards@.len() == cs.len(),
                ts.len() == cs.len(),
                forall|j: int|
                    0 <= j < shards@.len() ==> {
                        &&& (#[trigger] shards@[j]).columns() == cs[j]
                        &&& shards@[j].wf()
                        &&& shards@[j].mz_range == ts[j]
                    },
                e1 == encoding_for(policy, StreamKind::Primary),
                payloads_store(e1, primary_out@, cs.take(i as int), ts.take(i as int)),
            decreases shards@.len() - i,
        {
            let b = encode_payload(&shards[i], e1);
            primary_out.push(b);
            i = i + 1;
        }
        assert(cs.take(i as int) == cs);
        assert(ts.take(i as int) == ts);
        let ghost wcs = window_tables(windows@);
        let ghost wts = window_keys(windows@);
        let mut windows_out: Vec<Vec<u8>> = Vec::new();
        let mut w: usize = 0;
        while w < windows.len()
            invariant
                w <= windows@.len(),
                wcs == window_tables(windows@),
                wts == window_keys(windows@),
                forall|j: int| 0 <= j < windows@.len() ==> (#[trigger] windows@[j]).1.wf(),
                e2 == encoding_for(policy, StreamKind::FragmentWindow),
                payloads_store(e2, windows_out@, wcs.take(w as int), wts.take(w as int)),
            decreases windows@.len() - w,
        {
            let shard = DataShard::copy_of(&windows[w].1, windows[w].0);
            let b = encode_payload(&shard, e2);
            windows_out.push(b);
            w = w + 1;
        }
        assert(wcs.take(w as int) == wcs);
        assert(wts.take(w as int) == wts);
        let n_primary = primary_out.len();
        let n_windows = windows.len();
        SavePlan {
            primary: primary_out,
            windows: windows_out,
            descriptor: CacheDescriptor {
                version: FORMAT_VERSION,
                compression_type: policy,
                shard_count: n_primary,
                ms2_window_count: n_windows,
                created_at,
                source_modified,
                parallel_threads: k,
            },
        }
    }
}

/// The primary table and fragment windows of one cache entry.
pub type LoadedEntry = (IndexedDataset, Vec<FragmentWindow>);

/// Rebuilds both tables of a cache entry from its descriptor and the
/// payloads read for each stream, in index order (a payload that could not
/// be read is passed as its failure).
///
/// The descriptor must declare the known layout version and the number of
/// payloads of each stream. Every payload is then decoded, under the
/// encoding the recorded policy picks for its stream; if any fails, every
/// failure is reported, by stream and index, and no table is returned.
/// Payloads that are the stored forms of some tables and tags give back
/// exactly those: the primary shards merged in order, and one window per
/// payload, keyed by its tag.
pub fn assemble_load(
    descriptor: &CacheDescriptor,
    primary: Vec<Result<Vec<u8>, ShardFailure>>,
    windows: Vec<Result<Vec<u8>, ShardFailure>>,
) -> (r: Result<LoadedEntry, CacheError>)
    ensures
        descriptor.version != FORMAT_VERSION ==> (r matches Err(CacheError::UnsupportedVersion(v))
            && v == descriptor.version),
        descriptor.version == FORMAT_VERSION && (primary@.len() != descriptor.shard_count
            || windows@.len() != descriptor.ms2_window_count) ==> r matches Err(
            CacheError::ShardCountMismatch,
        ),
        r matches Ok(entry) ==> {
            &&& entry.0.wf()
            &&& entry.1@.len() == windows@.len()
            &&& forall|i: int| 0 <= i < entry.1@.len() ==> (#[trigger] entry.1@[i]).1.wf()
            &&& forall|i: int| 0 <= i < primary@.len() ==> (#[trigger] primary@[i]) is Ok
            &&& forall|i: int| 0 <= i < windows@.len() ==> (#[trigger] windows@[i]) is Ok
        },
        r matches Err(CacheError::Shards(f)) ==> f@.len() > 0,
        descriptor.version == FORMAT_VERSION && primary@.len() == descriptor.shard_count
            && windows@.len() == descriptor.ms2_window_count ==> {
            &&& forall|i: int|
                0 <= i < primary@.len() && (#[trigger] primary@[i]) is Err ==> (r matches Err(
                    CacheError::Shards(f),
                ) && f@.contains(
                    FailedShard {
                        stream: StreamKind::Primary,
                        index: i as usize,
                        failure: primary@[i]->Err_0,
                    },
                ))
            &&& forall|i: int|
                0 <= i < windows@.len() && (#[trigger] windows@[i]) is Err ==> (r matches Err(
                    CacheError::Shards(f),
                ) && f@.contains(
                    FailedShard {
                        stream: StreamKind::FragmentWindow,
                        index: i as usize,
                        failure: windows@[i]->Err_0,
                    },
                ))
        },
        descriptor.version == FORMAT_VERSION && primary@.len() == descriptor.shard_count
            && windows@.len() == descriptor.ms2_window_count ==> {
            &&& forall|i: int|
                0 <= i < primary@.len() && (#[trigger] primary@[i]) is Ok && primary@[i]->Ok_0@.len()
                    < 4 ==> (r matches Err(CacheError::Shards(f)) && names_shard(f@, StreamKind::Primary, i))
            &&& forall|i: int|
                0 <= i < windows@.len() && (#[trigger] windows@[i]) is Ok && windows@[i]->Ok_0@.len()
                    < 4 ==> (r matches Err(CacheError::Shards(f)) && names_shard(
                    f@,
                    StreamKind::FragmentWindow,
                    i,
                ))
        },
        forall|cs1: Seq<Columns>, ts1: Seq<(u32, u32)>, cs2: Seq<Columns>, ts2: Seq<(u32, u32)>|
            #![trigger stream_stores(
                encoding_for(descriptor.compression_type, StreamKind::Primary),
                primary@,
                cs1,
                ts1,
            ), stream_stores(
                encoding_for(descriptor.compression_type, StreamKind::FragmentWindow),
                windows@,
                cs2,
                ts2,
            )]
            descriptor.version == FORMAT_VERSION && primary@.len() == descriptor.shard_count
                && windows@.len() == descriptor.ms2_window_count && stream_stores(
                encoding_for(descriptor.compression_type, StreamKind::Primary),
                primary@,
                cs1,
                ts1,
            ) && stream_stores(
                encoding_for(descriptor.compression_type, StreamKind::FragmentWindow),
                windows@,
                cs2,
                ts2,
            ) ==> (r matches Ok(entry) && entry.0@ == merge_spec(cs1) && window_tables(entry.1@)
                == cs2 && window_keys(entry.1@) == ts2),
{
    if descriptor.version != FORMAT_VERSION {
        return Err(CacheError::UnsupportedVersion(descriptor.version));
    }
    if primary.len() != descriptor.shard_count || windows.len() != descriptor.ms2_window_count {
        return Err(CacheError::ShardCountMismatch);
    }
    let e1 = choose_encoding(descriptor.compression_type, StreamKind::Primary);
    let e2 = choose_encoding(descriptor.compression_type, StreamKind::FragmentWindow);
    let ghost prim_in = primary@;
    let ghost win_in = windows@;
    let r1 = decode_stream(StreamKind::Primary, e1, primary);
    let r2 = decode_stream(StreamKind::FragmentWindow, e2, windows);
    let r = finish_entry(r1, r2);
    proof {
        if r1 is Ok && r2 is Ok {
            let v1 = r1->Ok_0@;
            let v2 = r2->Ok_0@;
            let entry = r->Ok_0;
            assert(window_tables(entry.1@).len() == entry.1@.len());
            assert(shard_tables(v2).len() == v2.len());
            assert forall|cs1: Seq<Columns>, ts1: Seq<(u32, u32)>, cs2: Seq<Columns>, ts2: Seq<(u32, u32)>|
                stream_stores(e1, prim_in, cs1, ts1) && stream_stores(e2, win_in, cs2, ts2) implies entry.0@
                == merge_spec(cs1) && window_tables(entry.1@) == cs2 && window_keys(entry.1@) == ts2 by {
                assert(v1.map_values(|s: DataShard| s.columns()) =~= cs1);
                assert(window_tables(entry.1@) =~= cs2);
                assert(window_keys(entry.1@) =~= ts2);
            }
        }
        if r is Err {
            let f = r->Err_0->Shards_0@;
            let f1 = errs(r1);
            let f2 = errs(r2);
            assert forall|i: int| 0 <= i < prim_in.len() && (#[trigger] prim_in[i]) is Err implies f.contains(
                FailedShard { stream: StreamKind::Primary, index: i as usize, failure: prim_in[i]->Err_0 },
            ) by {
                let x = FailedShard { stream: StreamKind::Primary, index: i as usize, failure: prim_in[i]->Err_0 };
                let w = choose|w: int| 0 <= w < f1.len() && f1[w] == x;
                assert(f[w] == x);
            }
            assert forall|i: int| 0 <= i < win_in.len() && (#[trigger] win_in[i]) is Err implies f.contains(
                FailedShard {
                    stream: StreamKind::FragmentWindow,
                    index: i as usize,
                    failure: win_in[i]->Err_0,
                },
            ) by {
                let x = FailedShard {
                    stream: StreamKind::FragmentWindow,
                    index: i as usize,
                    failure: win_in[i]->Err_0,
                };
                let w = choose|w: int| 0 <= w < f2.len() && f2[w] == x;
                assert(f[f1.len() + w] == x);
            }
            assert forall|i: int|
                0 <= i < prim_in.len() && (#[trigger] prim_in[i]) is Ok && prim_in[i]->Ok_0@.len() < 4 implies names_shard(
                f,
                StreamKind::Primary,
                i,
            ) by {
                let w = choose|w: int| 0 <= w < f1.len() && f1[w].stream == StreamKind::Primary && f1[w].index == i as usize;
                assert(f[w] == f1[w]);
            }
            assert forall|i: int|
                0 <= i < win_in.len() && (#[trigger] win_in[i]) is Ok && win_in[i]->Ok_0@.len() < 4 implies names_shard(
                f,
                StreamKind::FragmentWindow,
                i,
            ) by {
                let w = choose|w: int| 0 <= w < f2.len() && f2[w].stream == StreamKind::FragmentWindow && f2[w].index == i as usize;
                assert(f[f1.len() + w] == f2[w]);
            }
        }
    }
    r
}

/// The tables of the successful outcomes of a batch.
pub open spec fn outcome_tables(s: Seq<Result<DataShard, ShardFailure>>) -> Seq<Columns> {
    s.map_values(|o: Result<DataShard, ShardFailure>| o->Ok_0.columns())
}

/// The tags of the successful outcomes of a batch.
pub open spec fn outcome_tags(s: Seq<Result<DataShard, ShardFailure>>) -> Seq<(u32, u32)> {
    s.map_values(|o: Result<DataShard, ShardFailure>| o->Ok_0.mz_range)
}

/// Rebuilds both tables of a cache entry from shards that were already
/// read and decoded (each outcome in index order, a failed one as its
/// failure).
///
/// The descriptor must declare the known layout version and the number of
/// outcomes of each stream. The entry is returned exactly when every shard
/// succeeded: the primary shards merged in order, and one window per
/// fragment shard, keyed by its tag. Otherwise every failure of both
/// streams is reported, primary first, each by stream and index.
pub fn assemble_decoded(
    descriptor: &CacheDescriptor,
    primary: Vec<Result<DataShard, ShardFailure>>,
    windows: Vec<Result<DataShard, ShardFailure>>,
) -> (r: Result<LoadedEntry, CacheError>)
    requires
        forall|i: int| 0 <= i < primary@.len() ==> (#[trigger] primary@[i] matches Ok(s) ==> s.wf()),
        forall|i: int| 0 <= i < windows@.len() ==> (#[trigger] windows@[i] matches Ok(s) ==> s.wf()),
    ensures
        descriptor.version != FORMAT_VERSION ==> (r matches Err(CacheError::UnsupportedVersion(v))
            && v == descriptor.version),
        descriptor.version == FORMAT_VERSION && (primary@.len() != descriptor.shard_count
            || windows@.len() != descriptor.ms2_window_count) ==> r matches Err(
            CacheError::ShardCountMismatch,
        ),
        descriptor.version == FORMAT_VERSION && primary@.len() == descriptor.shard_count
            && windows@.len() == descriptor.ms2_window_count ==> {
            &&& r is Ok <==> (forall|i: int| 0 <= i < primary@.len() ==> (#[trigger] primary@[i]) is Ok)
                && (forall|i: int| 0 <= i < windows@.len() ==> (#[trigger] windows@[i]) is Ok)
            &&& r matches Ok(entry) ==> {
                &&& entry.0@ == merge_spec(outcome_tables(primary@))
                &&& entry.0.wf()
                &&& window_tables(entry.1@) == outcome_tables(windows@)
                &&& window_keys(entry.1@) == outcome_tags(windows@)
                &&& forall|i: int| 0 <= i < entry.1@.len() ==> (#[trigger] entry.1@[i]).1.wf()
            }
            &&& r matches Err(e) ==> (e matches CacheError::Shards(f) && f@ == failures_of(
                StreamKind::Primary,
                primary@,
            ) + failures_of(StreamKind::FragmentWindow, windows@))
        },
{
    if descriptor.version != FORMAT_VERSION {
        return Err(CacheError::UnsupportedVersion(descriptor.version));
    }
    if primary.len() != descriptor.shard_count || windows.len() != descriptor.ms2_window_count {
        return Err(CacheError::ShardCountMismatch);
    }
    let ghost prim_in = primary@;
    let ghost win_in = windows@;
    let r1 = collect_outcomes(StreamKind::Primary, primary);
    let r2 = collect_outcomes(StreamKind::FragmentWindow, windows);
    proof {
        if r1 is Ok {
            let v = r1->Ok_0@;
            assert forall|i: int| 0 <= i < v.len() implies (#[trigger] v[i]).wf() by {
                assert(prim_in[i] == Ok::<DataShard, ShardFailure>(v[i]));
            }
            assert(shard_tables(v) =~= outcome_tables(prim_in)) by {
                assert forall|i: int| 0 <= i < v.len() implies shard_tables(v)[i] == outcome_tables(prim_in)[i] by {
                    assert(prim_in[i] == Ok::<DataShard, ShardFailure>(v[i]));
                }
            }
        }
        if r2 is Ok {
            let v = r2->Ok_0@;
            assert forall|i: int| 0 <= i < v.len() implies (#[trigger] v[i]).wf() by {
                assert(win_in[i] == Ok::<DataShard, ShardFailure>(v[i]));
            }
            assert(shard_tables(v) =~= outcome_tables(win_in)) by {
                assert forall|i: int| 0 <= i < v.len() implies shard_tables(v)[i] == outcome_tables(win_in)[i] by {
                    assert(win_in[i] == Ok::<DataShard, ShardFailure>(v[i]));
                }
            }
            assert(v.map_values(|s: DataShard| s.mz_range) =~= outcome_tags(win_in)) by {
                assert forall|i: int| 0 <= i < v.len() implies v.map_values(|s: DataShard| s.mz_range)[i] == outcome_tags(win_in)[i] by {
                    assert(win_in[i] == Ok::<DataShard, ShardFailure>(v[i]));
                }
            }
        }
        lemma_failures_none(StreamKind::Primary, prim_in);
        lemma_failures_none(StreamKind::FragmentWindow, win_in);
    }
    finish_entry(r1, r2)
}

proof fn lemma_failures_none<T>(stream: StreamKind, s: Seq<Result<T, ShardFailure>>)
    ensures
        (forall|i: int| 0 <= i < s.len() ==> (#[trigger] s[i]) is Ok) ==> failures_of(stream, s)
            == Seq::<FailedShard>::empty(),
{
    if forall|i: int| 0 <= i < s.len() ==> (#[trigger] s[i]) is Ok {
        lemma_failures_none_upto(stream, s, s.len() as int);
    }
}

proof fn lemma_failures_none_upto<T>(stream: StreamKind, s: Seq<Result<T, ShardFailure>>, n: int)
    requires
        0 <= n <= s.len(),
        forall|i: int| 0 <= i < s.len() ==> (#[trigger] s[i]) is Ok,
    ensures
        failures_upto(stream, s, n) == Seq::<FailedShard>::empty(),
    decreases n,
{
    if n > 0 {
        lemma_failures_none_upto(stream, s, n - 1);
    }
}

/// The failures a stream reported, or none.
pub open spec fn errs(r: Result<Vec<DataShard>, Vec<FailedShard>>) -> Seq<FailedShard> {
    if r is Err {
        r->Err_0@
    } else {
        Seq::empty()
    }
}

/// The tables of a sequence of shards.
pub open spec fn shard_tables(v: Seq<DataShard>) -> Seq<Columns> {
    v.map_values(|s: DataShard| s.columns())
}

/// Joins the gathered outcomes of both streams: the merged primary table
/// and one window per fragment shard when both streams succeeded, else
/// every failure of both, primary first.
fn finish_entry(
    r1: Result<Vec<DataShard>, Vec<FailedShard>>,
    r2: Result<Vec<DataShard>, Vec<FailedShard>>,
) -> (r: Result<LoadedEntry, CacheError>)
    requires
        r1 matches Ok(v) ==> forall|i: int| 0 <= i < v@.len() ==> (#[trigger] v@[i]).wf(),
        r2 matches Ok(v) ==> forall|i: int| 0 <= i < v@.len() ==> (#[trigger] v@[i]).wf(),
        r1 matches Err(f) ==> f@.len() > 0,
        r2 matches Err(f) ==> f@.len() > 0,
    ensures
        r is Ok <==> (r1 is Ok && r2 is Ok),
        r matches Ok(entry) ==> {
            &&& entry.0@ == merge_spec(shard_tables(r1->Ok_0@))
            &&& entry.0.wf()
            &&& window_tables(entry.1@) == shard_tables(r2->Ok_0@)
            &&& window_keys(entry.1@) == r2->Ok_0@.map_values(|s: DataShard| s.mz_range)
            &&& forall|i: int| 0 <= i < entry.1@.len() ==> (#[trigger] entry.1@[i]).1.wf()
        },
        r matches Err(e) ==> (e matches CacheError::Shards(f) && f@ == errs(r1) + errs(r2)
            && f@.len() > 0),
{
    let ghost g1 = r1;
    let ghost g2 = r2;
    match (r1, r2) {
        (Ok(shards), Ok(wshards)) => {
            let ghost views = shard_tables(shards@);
            let merged = merge_shards(shards);
            proof {
                lemma_merge_wf(views);
            }
            let ghost wv = wshards@;
            let mut out: Vec<FragmentWindow> = Vec::new();
            for s in it: wshards.into_iter()
                invariant
                    it.seq() == wv,
                    out@.len() == it.index(),
                    forall|i: int| 0 <= i < wv.len() ==> (#[trigger] wv[i]).wf(),
                    forall|i: int|
                        0 <= i < out@.len() ==> (#[trigger] out@[i]).1@ == wv[i].columns()
                            && out@[i].0 == wv[i].mz_range,
            {
                let key = s.mz_range;
                out.push((key, s.into_dataset()));
            }
            proof {
                assert(window_tables(out@) =~= shard_tables(wv));
                assert(window_keys(out@) =~= wv.map_values(|s: DataShard| s.mz_range));
                assert forall|i: int| 0 <= i < out@.len() implies (#[trigger] out@[i]).1.wf() by {
                    assert(wv[i].wf());
                }
            }
            Ok((merged, out))
        },
        (r1, r2) => {
            let mut failed: Vec<FailedShard> = Vec::new();
            match r1 {
                Err(mut f) => {
                    failed.append(&mut f);
                },
                Ok(_) => {},
            }
            match r2 {
                Err(mut f) => {
                    failed.append(&mut f);
                },
                Ok(_) => {},
            }
            assert(failed@ =~= errs(g1) + errs(g2));
            Err(CacheError::Shards(failed))
        },
    }
}

/// A save followed by a load gives back what was saved: the payloads that
/// a save stored for a `k`-way split of `d` and for the windows `w`, read
/// back intact, are the stored forms that `assemble_load` turns back into
/// their tables, those of the primary stream merge to `d`, and those of the
/// window stream are the windows' tables and keys. What a load returns thus
/// depends on the last save's descriptor and payloads alone.
pub proof fn lemma_save_then_load(
    e1: Encoding,
    e2: Encoding,
    d: Columns,
    k: nat,
    w: Seq<FragmentWindow>,
    primary_payloads: Seq<Vec<u8>>,
    window_payloads: Seq<Vec<u8>>,
)
    requires
        d.wf(),
        k >= 1,
        payloads_store(e1, primary_payloads, split_spec(d, k), split_tags(d, k)),
        payloads_store(e2, window_payloads, window_tables(w), window_keys(w)),
    ensures
        stream_stores(
            e1,
            primary_payloads.map_values(|b: Vec<u8>| Ok::<Vec<u8>, ShardFailure>(b)),
            split_spec(d, k),
            split_tags(d, k),
        ),
        stream_stores(
            e2,
            window_payloads.map_values(|b: Vec<u8>| Ok::<Vec<u8>, ShardFailure>(b)),
            window_tables(w),
            window_keys(w),
        ),
        merge_spec(split_spec(d, k)) == d,
{
    let read1 = primary_payloads.map_values(|b: Vec<u8>| Ok::<Vec<u8>, ShardFailure>(b));
    assert forall|i: int| 0 <= i < read1.len() implies (#[trigger] read1[i] matches Ok(b) && stores(
        e1,
        b@,
        split_spec(d, k)[i],
        split_tags(d, k)[i],
    )) by {
        assert(stores(e1, primary_payloads[i]@, split_spec(d, k)[i], split_tags(d, k)[i]));
    }
    let read2 = window_payloads.map_values(|b: Vec<u8>| Ok::<Vec<u8>, ShardFailure>(b));
    assert forall|i: int| 0 <= i < read2.len() implies (#[trigger] read2[i] matches Ok(b) && stores(
        e2,
        b@,
        window_tables(w)[i],
        window_keys(w)[i],
    )) by {
        assert(stores(e2, window_payloads[i]@, window_tables(w)[i], window_keys(w)[i]));
    }
    lemma_merge_split_round_trip(d, k);
}

proof fn lemma_merge_wf(s: Seq<Columns>)
    requires
        forall|i: int| 0 <= i < s.len() ==> (#[trigger] s[i]).wf(),
    ensures
        merge_spec(s).wf(),
    decreases s.len(),
{
    if s.len() > 0 {
        lemma_merge_wf(s.drop_last());
    }
}

} // verus!
