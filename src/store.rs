use vstd::prelude::*;
use crate::policy::StreamKind;

verus! {

/// Decimal digits of `n`, most significant first, as ASCII.
pub open spec fn decimal(n: nat) -> Seq<u8>
    decreases n,
{
    if n < 10 {
        seq![(48 + n) as u8]
    } else {
        decimal(n / 10).push((48 + n % 10) as u8)
    }
}

/// Name of a stream inside file names: `ms1_indexed` or `ms2_window`.
pub open spec fn stream_label(stream: StreamKind) -> Seq<u8> {
    match stream {
        StreamKind::Primary => seq![109u8, 115u8, 49u8, 95u8, 105u8, 110u8, 100u8, 101u8, 120u8, 101u8, 100u8],
        StreamKind::FragmentWindow => seq![109u8, 115u8, 50u8, 95u8, 119u8, 105u8, 110u8, 100u8, 111u8, 119u8],
    }
}

/// `<source>.<stream>.shard_<index>.cache`
pub open spec fn shard_file_spec(source: Seq<u8>, stream: StreamKind, index: nat) -> Seq<u8> {
    source + seq![46u8] + stream_label(stream) + seq![46u8, 115u8, 104u8, 97u8, 114u8, 100u8, 95u8]
        + decimal(index) + seq![46u8, 99u8, 97u8, 99u8, 104u8, 101u8]
}

/// `<source>.meta`
pub open spec fn descriptor_file_spec(source: Seq<u8>) -> Seq<u8> {
    source + seq![46u8, 109u8, 101u8, 116u8, 97u8]
}

fn append_bytes(out: &mut Vec<u8>, s: &[u8])
    ensures
        final(out)@ == old(out)@ + s@,
{
    let mut i: usize = 0;
    while i < s.len()
        invariant
            i <= s@.len(),
            out@ == old(out)@ + s@.take(i as int),
        decreases s@.len() - i,
    {
        out.push(s[i]);
        i = i + 1;
        assert(out@ =~= old(out)@ + s@.take(i as int));
    }
    assert(s@.take(i as int) =~= s@);
}

fn append_decimal(out: &mut Vec<u8>, n: usize)
    ensures
        final(out)@ == old(out)@ + decimal(n as nat),
    decreases n,
{
    if n < 10 {
        out.push((48 + n) as u8);
        assert(final(out)@ =~= old(out)@ + decimal(n as nat));
    } else {
        append_decimal(out, n / 10);
        out.push((48 + n % 10) as u8);
        assert(final(out)@ =~= old(out)@ + decimal(n as nat));
    }
}

fn append_label(out: &mut Vec<u8>, stream: StreamKind)
    ensures
        final(out)@ == old(out)@ + stream_label(stream),
{
    match stream {
        StreamKind::Primary => {
            let s: [u8; 11] = [109u8, 115u8, 49u8, 95u8, 105u8, 110u8, 100u8, 101u8, 120u8, 101u8, 100u8];
            append_bytes(out, &s);
            assert(s@ =~= stream_label(stream));
        },
        StreamKind::FragmentWindow => {
            let s: [u8; 10] = [109u8, 115u8, 50u8, 95u8, 119u8, 105u8, 110u8, 100u8, 111u8, 119u8];
            append_bytes(out, &s);
            assert(s@ =~= stream_label(stream));
        },
    }
}

/// File name of shard `index` of `stream` for source `source`.
pub fn shard_file_name(source: &[u8], stream: StreamKind, index: usize) -> (r: Vec<u8>)
    ensures
        r@ == shard_file_spec(source@, stream, index as nat),
{
    let mut out: Vec<u8> = Vec::new();
    append_bytes(&mut out, source);
    out.push(46u8);
    append_label(&mut out, stream);
    let mid: [u8; 7] = [46u8, 115u8, 104u8, 97u8, 114u8, 100u8, 95u8];
    append_bytes(&mut out, &mid);
    append_decimal(&mut out, index);
    let tail: [u8; 6] = [46u8, 99u8, 97u8, 99u8, 104u8, 101u8];
    append_bytes(&mut out, &tail);
    assert(mid@ =~= seq![46u8, 115u8, 104u8, 97u8, 114u8, 100u8, 95u8]);
    assert(tail@ =~= seq![46u8, 99u8, 97u8, 99u8, 104u8, 101u8]);
    assert(out@ =~= shard_file_spec(source@, stream, index as nat));
    out
}

/// File name of the descriptor for source `source`.
pub fn descriptor_file_name(source: &[u8]) -> (r: Vec<u8>)
    ensures
        r@ == descriptor_file_spec(source@),
{
    let mut out: Vec<u8> = Vec::new();
    append_bytes(&mut out, source);
    let tail: [u8; 5] = [46u8, 109u8, 101u8, 116u8, 97u8];
    append_bytes(&mut out, &tail);
    assert(tail@ =~= seq![46u8, 109u8, 101u8, 116u8, 97u8]);
    assert(out@ =~= descriptor_file_spec(source@));
    out
}

} // verus!
