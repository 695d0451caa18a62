use vstd::prelude::*;
use crate::codec::CodecError;
use crate::compress::CompressionError;
use crate::policy::StreamKind;

verus! {

/// Workers for one stream: the configured count (at least one), but never
/// more than there are items.
pub fn worker_count(configured: usize, items: usize) -> (r: usize)
    ensures
        r == if items < configured {
            items
        } else if configured == 0 {
            if items == 0 { 0usize } else { 1usize }
        } else {
            configured
        },
        r <= items,
{
    let c: usize = if configured == 0 { 1 } else { configured };
    if items < c {
        items
    } else {
        c
    }
}

/// Why one shard could not be brought back.
#[derive(Debug, Clone, Copy, PartialEq, Eq, Structural)]
pub enum ShardFailure {
    /// Its file does not exist.
    Missing,
    /// Its file exists but could not be read.
    Unreadable,
    /// Its bytes do not decompress under the recorded encoding.
    Compression(CompressionError),
    /// Its decompressed bytes are not an encoded shard.
    Codec(CodecError),
    /// It could not be encoded or written.
    Unwritable,
}

/// One failed item of a batch, named by stream and shard index.
#[derive(Debug, Clone, Copy, PartialEq, Eq, Structural)]
pub struct FailedShard {
    pub stream: StreamKind,
    pub index: usize,
    pub failure: ShardFailure,
}

/// Some entry of `f` names shard `index` of `stream`.
pub open spec fn names_shard(f: Seq<FailedShard>, stream: StreamKind, index: int) -> bool {
    exists|j: int| 0 <= j < f.len() && f[j].stream == stream && f[j].index == index as usize
}

/// The failed items among the first `n` outcomes, in index order.
pub open spec fn failures_upto<T>(stream: StreamKind, s: Seq<Result<T, ShardFailure>>, n: int) -> Seq<
    FailedShard,
>
    decreases n,
{
    if n <= 0 {
        Seq::empty()
    } else {
        let prev = failures_upto(stream, s, n - 1);
        match s[n - 1] {
            Ok(_) => prev,
            Err(f) => prev.push(FailedShard { stream, index: (n - 1) as usize, failure: f }),
        }
    }
}

/// The failed items of a batch, in index order.
pub open spec fn failures_of<T>(stream: StreamKind, s: Seq<Result<T, ShardFailure>>) -> Seq<
    FailedShard,
> {
    failures_upto(stream, s, s.len() as int)
}

proof fn lemma_failures_empty<T>(stream: StreamKind, s: Seq<Result<T, ShardFailure>>, n: int)
    requires
        0 <= n <= s.len(),
    ensures
        failures_upto(stream, s, n).len() == 0 <==> forall|i: int| 0 <= i < n ==> s[i] is Ok,
    decreases n,
{
    if n > 0 {
        lemma_failures_empty(stream, s, n - 1);
    }
}

/// Gathers the outcomes of a batch in index order (the order of `outcomes`,
/// not the order in which the items finished): every value when all items
/// succeeded, else every failure, each named by stream and index.
pub fn collect_outcomes<T>(stream: StreamKind, outcomes: Vec<Result<T, ShardFailure>>) -> (r: Result<
    Vec<T>,
    Vec<FailedShard>,
>)
    ensures
        r is Ok <==> forall|i: int| 0 <= i < outcomes@.len() ==> outcomes@[i] is Ok,
        r matches Ok(v) ==> v@.len() == outcomes@.len() && forall|i: int|
            0 <= i < v@.len() ==> outcomes@[i] == Ok::<T, ShardFailure>(#[trigger] v@[i]),
        r matches Err(f) ==> f@ == failures_of(stream, outcomes@) && f@.len() > 0,
{
    let ghost all = outcomes@;
    let n = outcomes.len();
    let mut ok: Vec<T> = Vec::new();
    let mut failed: Vec<FailedShard> = Vec::new();
    let mut i: usize = 0;
    for o in it: outcomes.into_iter()
        invariant
            it.seq() == all,
            all.len() == n,
            i == it.index(),
            i <= all.len(),
            failed@ == failures_upto(stream, all, i as int),
            failed@.len() == 0 ==> ok@.len() == i && forall|j: int|
                0 <= j < i ==> all[j] == Ok::<T, ShardFailure>(#[trigger] ok@[j]),
    {
        assert(i < n);
        match o {
            Ok(v) => {
                ok.push(v);
            },
            Err(f) => {
                failed.push(FailedShard { stream, index: i, failure: f });
            },
        }
        i = i + 1;
    }
    proof {
        lemma_failures_empty(stream, all, all.len() as int);
    }
    if failed.len() == 0 {
        Ok(ok)
    } else {
        Err(failed)
    }
}

} // verus!
