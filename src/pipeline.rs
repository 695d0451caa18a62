use vstd::prelude::*;
use crate::codec::{decode_shard, encode_shard, encode_spec, lemma_codec_round_trip};
use crate::compress::{compress, compressed_spec, decompress, framing_matches, Encoding};
use crate::dataset::Columns;
use crate::partition::DataShard;
use crate::policy::StreamKind;
use crate::schedule::{collect_outcomes, failures_of, failures_upto, names_shard, FailedShard, ShardFailure};

verus! {

/// `b` is the stored form, under encoding `e`, of a well-formed table `c`
/// with tag `t`.
pub open spec fn stores(e: Encoding, b: Seq<u8>, c: Columns, t: (u32, u32)) -> bool {
    &&& c.wf()
    &&& c.len() < 0x1_0000_0000_0000_0000
    &&& b == compressed_spec(e, encode_spec(c, t))
    &&& framing_matches(e, b)
}

/// Every payload of a stream was read and is the stored form of the table
/// and tag at its index.
pub open spec fn stream_stores(
    e: Encoding,
    p: Seq<Result<Vec<u8>, ShardFailure>>,
    cs: Seq<Columns>,
    ts: Seq<(u32, u32)>,
) -> bool {
    &&& p.len() == cs.len()
    &&& ts.len() == cs.len()
    &&& forall|i: int|
        0 <= i < p.len() ==> (#[trigger] p[i] matches Ok(b) && stores(e, b@, cs[i], ts[i]))
}

/// The stored form of one shard: encoded, then compressed.
pub fn encode_payload(shard: &DataShard, e: Encoding) -> (r: Vec<u8>)
    requires
        shard.wf(),
    ensures
        stores(e, r@, shard.columns(), shard.mz_range),
{
    let rows = shard.mz_values.len();
    // a row count held in a `usize` fits the codec's 64-bit count field
    assert(shard.columns().len() == rows && rows < 0x1_0000_0000_0000_0000);
    let bytes = encode_shard(shard);
    compress(bytes.as_slice(), e)
}

/// Recovers one shard from its stored form: the stored form of any
/// well-formed table and tag gives back exactly that table and tag.
pub fn decode_payload(bytes: &[u8], e: Encoding) -> (r: Result<DataShard, ShardFailure>)
    ensures
        forall|c: Columns, t: (u32, u32)|
            #[trigger] stores(e, bytes@, c, t) ==> (r matches Ok(
                s,
            ) && s.columns() == c && s.mz_range == t),
        r matches Ok(s) ==> s.wf(),
        r matches Err(f) ==> (f is Compression || f is Codec),
        bytes@.len() < 4 ==> r is Err,
{
    match decompress(bytes, e) {
        Err(err) => Err(ShardFailure::Compression(err)),
        Ok(raw) => {
            let res = decode_shard(raw.as_slice());
            proof {
                assert forall|c: Columns, t: (u32, u32)|
                    #[trigger] stores(e, bytes@, c, t) implies (res matches Ok(s) && s.columns() == c
                    && s.mz_range == t) by {
                    lemma_codec_round_trip(c, t);
                    assert(compressed_spec(e, encode_spec(c, t)) == bytes@);
                    assert(raw@ == encode_spec(c, t));
                }
            }
            match res {
                Ok(s) => {
                    proof {
                        lemma_decoded_wf(raw@);
                    }
                    Ok(s)
                },
                Err(err) => Err(ShardFailure::Codec(err)),
            }
        },
    }
}

proof fn lemma_decoded_wf(b: Seq<u8>)
    ensures
        crate::codec::decode_spec(b) matches Ok(v) ==> v.0.wf(),
{
}

proof fn lemma_failure_listed<T>(stream: StreamKind, s: Seq<Result<T, ShardFailure>>, n: int, i: int)
    requires
        0 <= i < n <= s.len(),
        s[i] is Err,
    ensures
        failures_upto(stream, s, n).contains(
            FailedShard { stream, index: i as usize, failure: s[i]->Err_0 },
        ),
    decreases n,
{
    let prev = failures_upto(stream, s, n - 1);
    if i == n - 1 {
        let f = FailedShard { stream, index: i as usize, failure: s[i]->Err_0 };
        assert(failures_upto(stream, s, n) == prev.push(f));
        assert(prev.push(f)[prev.len() as int] == f);
    } else {
        lemma_failure_listed(stream, s, n - 1, i);
        let w = choose|w: int| 0 <= w < prev.len() && prev[w] == FailedShard {
            stream,
            index: i as usize,
            failure: s[i]->Err_0,
        };
        match s[n - 1] {
            Ok(_) => {},
            Err(f) => {
                let g = FailedShard { stream, index: (n - 1) as usize, failure: f };
                assert(prev.push(g)[w] == prev[w]);
            },
        }
    }
}

/// Decodes every payload of one stream and gathers the outcomes in index
/// order. A payload that could not be read, or does not decode, is reported
/// by stream and index; the other payloads are still decoded.
pub fn decode_stream(
    stream: StreamKind,
    e: Encoding,
    payloads: Vec<Result<Vec<u8>, ShardFailure>>,
) -> (r: Result<Vec<DataShard>, Vec<FailedShard>>)
    ensures
        r matches Ok(v) ==> {
            &&& v@.len() == payloads@.len()
            &&& forall|i: int| 0 <= i < v@.len() ==> (#[trigger] v@[i]).wf()
            &&& forall|i: int| 0 <= i < payloads@.len() ==> (#[trigger] payloads@[i]) is Ok
        },
        forall|cs: Seq<Columns>, ts: Seq<(u32, u32)>|
            #[trigger] stream_stores(e, payloads@, cs, ts) ==> (
            r matches Ok(v) && forall|i: int|
                0 <= i < v@.len() ==> (#[trigger] v@[i]).columns() == cs[i] && v@[i].mz_range
                    == ts[i]),
        r matches Err(f) ==> f@.len() > 0 && forall|i: int|
            0 <= i < payloads@.len() && (#[trigger] payloads@[i]) is Err ==> f@.contains(
                FailedShard { stream, index: i as usize, failure: payloads@[i]->Err_0 },
            ),
        r matches Err(f) ==> forall|j: int|
            0 <= j < f@.len() ==> (#[trigger] f@[j]).stream == stream && f@[j].index
                < payloads@.len(),
        forall|i: int|
            0 <= i < payloads@.len() && (#[trigger] payloads@[i]) is Ok && payloads@[i]->Ok_0@.len()
                < 4 ==> (r matches Err(f) && names_shard(f@, stream, i)),
{
    let ghost ps = payloads@;
    let mut outcomes: Vec<Result<DataShard, ShardFailure>> = Vec::new();
    for p in it: payloads.into_iter()
        invariant
            it.seq() == ps,
            outcomes@.len() == it.index(),
            forall|j: int|
                0 <= j < outcomes@.len() ==> {
                    &&& (#[trigger] outcomes@[j] matches Ok(s) ==> s.wf())
                    &&& (outcomes@[j] is Ok ==> ps[j] is Ok)
                    &&& (ps[j] is Ok && ps[j]->Ok_0@.len() < 4 ==> outcomes@[j] is Err)
                    &&& (ps[j] matches Err(x) ==> outcomes@[j] == Err::<DataShard, ShardFailure>(x))
                    &&& (forall|c: Columns, t: (u32, u32)|
                        (ps[j] is Ok && #[trigger] stores(e, ps[j]->Ok_0@, c, t)) ==> (outcomes@[j] matches Ok(s)
                            && s.columns() == c && s.mz_range == t))
                },
    {
        match p {
            Ok(b) => {
                let o = decode_payload(b.as_slice(), e);
                outcomes.push(o);
            },
            Err(x) => {
                outcomes.push(Err(x));
            },
        }
    }
    let ghost os = outcomes@;
    let r = collect_outcomes(stream, outcomes);
    proof {
        assert forall|i: int|
            0 <= i < ps.len() && (#[trigger] ps[i]) is Ok && ps[i]->Ok_0@.len() < 4 implies r is Err by {
            assert(os[i] is Err);
        }
        assert forall|cs: Seq<Columns>, ts: Seq<(u32, u32)>|
            #[trigger] stream_stores(e, ps, cs, ts) implies (r matches Ok(v) && forall|i: int|
            0 <= i < v@.len() ==> (#[trigger] v@[i]).columns() == cs[i] && v@[i].mz_range
                == ts[i]) by {
            assert forall|i: int| 0 <= i < os.len() implies os[i] is Ok by {
                let b = ps[i]->Ok_0;
                assert(stores(e, b@, cs[i], ts[i]));
            }
            if r is Ok {
                let v = r->Ok_0;
                assert forall|i: int| 0 <= i < v@.len() implies (#[trigger] v@[i]).columns()
                    == cs[i] && v@[i].mz_range == ts[i] by {
                    let b = ps[i]->Ok_0;
                    assert(stores(e, b@, cs[i], ts[i]));
                    }
            }
        }
        if r is Ok {
            let v = r->Ok_0;
            assert(os.len() == ps.len());
            assert forall|i: int| 0 <= i < v@.len() implies (#[trigger] v@[i]).wf() by {
                assert(os[i] == Ok::<DataShard, ShardFailure>(v@[i]));
            }
            assert forall|i: int| 0 <= i < ps.len() implies (#[trigger] ps[i]) is Ok by {
                assert(os[i] is Ok);
            }
        }
        if r is Err {
            let f = r->Err_0;
            assert forall|i: int| 0 <= i < ps.len() && (#[trigger] ps[i]) is Err implies f@.contains(
                FailedShard { stream, index: i as usize, failure: ps[i]->Err_0 },
            ) by {
                lemma_failure_listed(stream, os, os.len() as int, i);
            }
            assert forall|i: int|
                0 <= i < ps.len() && (#[trigger] ps[i]) is Ok && ps[i]->Ok_0@.len() < 4 implies names_shard(
                f@,
                stream,
                i,
            ) by {
                lemma_failure_listed(stream, os, os.len() as int, i);
                let x = FailedShard { stream, index: i as usize, failure: os[i]->Err_0 };
                let w = choose|w: int| 0 <= w < f@.len() && f@[w] == x;
                assert(f@[w].stream == stream && f@[w].index == i as usize);
            }
            assert forall|j: int| 0 <= j < f@.len() implies (#[trigger] f@[j]).stream == stream
                && f@[j].index < ps.len() by {
                lemma_failures_named(stream, os, os.len() as int);
            }
        }
    }
    r
}

proof fn lemma_failures_named<T>(stream: StreamKind, s: Seq<Result<T, ShardFailure>>, n: int)
    requires
        0 <= n <= s.len(),
    ensures
        forall|j: int|
            0 <= j < failures_upto(stream, s, n).len() ==> (#[trigger] failures_upto(
                stream,
                s,
                n,
            )[j]).stream == stream && failures_upto(stream, s, n)[j].index < n,
    decreases n,
{
    if n > 0 {
        lemma_failures_named(stream, s, n - 1);
    }
}

} // verus!
