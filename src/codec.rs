use vstd::prelude::*;
use crate::dataset::Columns;
use crate::partition::DataShard;

verus! {

/// Layout version written at the head of every encoded shard.
pub const FORMAT_VERSION: u32 = 2;

/// Number of header words: version, row count (low, high), mass tag (min, max).
pub const HEADER_WORDS: usize = 5;

/// Why a byte stream is not an encoded shard.
#[derive(Debug, Clone, Copy, PartialEq, Eq, Structural)]
pub enum CodecError {
    /// Shorter than the fixed header.
    Truncated,
    /// The header declares a layout version this codec does not know.
    UnsupportedVersion(u32),
    /// The payload size disagrees with the declared row count.
    LengthMismatch,
}

/// Little-endian bytes of a word.
pub open spec fn le_bytes(x: u32) -> Seq<u8> {
    seq![(x & 0xff) as u8, ((x >> 8) & 0xff) as u8, ((x >> 16) & 0xff) as u8, ((x >> 24) & 0xff) as u8]
}

/// The word whose little-endian bytes are `b0 b1 b2 b3`.
pub open spec fn word_of(b0: u8, b1: u8, b2: u8, b3: u8) -> u32 {
    (b0 as u32) | ((b1 as u32) << 8) | ((b2 as u32) << 16) | ((b3 as u32) << 24)
}

/// Word number `j` of a byte stream.
pub open spec fn word_at(b: Seq<u8>, j: int) -> u32 {
    word_of(b[4 * j], b[4 * j + 1], b[4 * j + 2], b[4 * j + 3])
}

/// Words written one after another, each as four little-endian bytes.
pub open spec fn words_to_bytes(w: Seq<u32>) -> Seq<u8>
    decreases w.len(),
{
    if w.len() == 0 {
        Seq::empty()
    } else {
        words_to_bytes(w.drop_last()) + le_bytes(w.last())
    }
}

/// Low and high words of a row count.
pub open spec fn count_lo(n: nat) -> u32 {
    (n % 0x1_0000_0000) as u32
}

pub open spec fn count_hi(n: nat) -> u32 {
    (n / 0x1_0000_0000) as u32
}

/// The words of an encoded shard: the header, then each column in turn.
pub open spec fn shard_words(c: Columns, tag: (u32, u32)) -> Seq<u32> {
    seq![FORMAT_VERSION, count_lo(c.len()), count_hi(c.len()), tag.0, tag.1] + c.rt + c.mobility
        + c.mz + c.intensity + c.frame + c.scan
}

/// The bytes of an encoded shard.
pub open spec fn encode_spec(c: Columns, tag: (u32, u32)) -> Seq<u8> {
    words_to_bytes(shard_words(c, tag))
}

/// `n` words of `b` starting at word `off`.
pub open spec fn words_from(b: Seq<u8>, off: int, n: nat) -> Seq<u32> {
    Seq::new(n, |i: int| word_at(b, off + i))
}

/// Row count declared by the header of `b`.
pub open spec fn declared_rows(b: Seq<u8>) -> nat {
    (word_at(b, 1) as nat + word_at(b, 2) as nat * 0x1_0000_0000) as nat
}

/// What decoding `b` gives: a table and its tag, or the first defect found.
pub open spec fn decode_spec(b: Seq<u8>) -> Result<(Columns, (u32, u32)), CodecError> {
    if b.len() < 4 * HEADER_WORDS {
        Err(CodecError::Truncated)
    } else if word_at(b, 0) != FORMAT_VERSION {
        Err(CodecError::UnsupportedVersion(word_at(b, 0)))
    } else if b.len() != 4 * (HEADER_WORDS + 6 * declared_rows(b)) {
        Err(CodecError::LengthMismatch)
    } else {
        let n = declared_rows(b);
        let h = HEADER_WORDS as int;
        Ok(
            (
                Columns {
                    rt: words_from(b, h, n),
                    mobility: words_from(b, h + n, n),
                    mz: words_from(b, h + 2 * n, n),
                    intensity: words_from(b, h + 3 * n, n),
                    frame: words_from(b, h + 4 * n, n),
                    scan: words_from(b, h + 5 * n, n),
                },
                (word_at(b, 3), word_at(b, 4)),
            ),
        )
    }
}

proof fn lemma_word_of_le_bytes(x: u32)
    ensures
        word_of(le_bytes(x)[0], le_bytes(x)[1], le_bytes(x)[2], le_bytes(x)[3]) == x,
{
    assert(((x & 0xff) as u8 as u32) | ((((x >> 8) & 0xff) as u8 as u32) << 8) | ((((x >> 16)
        & 0xff) as u8 as u32) << 16) | ((((x >> 24) & 0xff) as u8 as u32) << 24) == x)
        by (bit_vector);
}

proof fn lemma_words_to_bytes_append(a: Seq<u32>, b: Seq<u32>)
    ensures
        words_to_bytes(a + b) == words_to_bytes(a) + words_to_bytes(b),
    decreases b.len(),
{
    if b.len() == 0 {
        assert(a + b =~= a);
        assert(words_to_bytes(a) + words_to_bytes(b) =~= words_to_bytes(a));
    } else {
        assert((a + b).drop_last() =~= a + b.drop_last());
        lemma_words_to_bytes_append(a, b.drop_last());
        assert(words_to_bytes(a) + words_to_bytes(b.drop_last()) + le_bytes(b.last())
            =~= words_to_bytes(a) + (words_to_bytes(b.drop_last()) + le_bytes(b.last())));
    }
}

proof fn lemma_words_to_bytes_index(w: Seq<u32>, j: int)
    requires
        0 <= j < w.len(),
    ensures
        words_to_bytes(w).len() == 4 * w.len(),
        word_at(words_to_bytes(w), j) == w[j],
    decreases w.len(),
{
    lemma_words_to_bytes_len(w);
    let b = words_to_bytes(w);
    let p = words_to_bytes(w.drop_last());
    lemma_words_to_bytes_len(w.drop_last());
    if j == w.len() - 1 {
        assert(b[4 * j] == le_bytes(w.last())[0]);
        assert(b[4 * j + 1] == le_bytes(w.last())[1]);
        assert(b[4 * j + 2] == le_bytes(w.last())[2]);
        assert(b[4 * j + 3] == le_bytes(w.last())[3]);
        lemma_word_of_le_bytes(w.last());
    } else {
        lemma_words_to_bytes_index(w.drop_last(), j);
        assert(b[4 * j] == p[4 * j]);
        assert(b[4 * j + 1] == p[4 * j + 1]);
        assert(b[4 * j + 2] == p[4 * j + 2]);
        assert(b[4 * j + 3] == p[4 * j + 3]);
    }
}

proof fn lemma_words_to_bytes_len(w: Seq<u32>)
    ensures
        words_to_bytes(w).len() == 4 * w.len(),
    decreases w.len(),
{
    if w.len() > 0 {
        lemma_words_to_bytes_len(w.drop_last());
    }
}

/// Decoding the encoding of a well-formed shard gives back its columns and
/// tag exactly, for every row count that fits the header (including none).
pub proof fn lemma_codec_round_trip(c: Columns, tag: (u32, u32))
    requires
        c.wf(),
        c.len() < 0x1_0000_0000_0000_0000,
    ensures
        decode_spec(encode_spec(c, tag)) == Ok::<(Columns, (u32, u32)), CodecError>((c, tag)),
{
    let w = shard_words(c, tag);
    let b = encode_spec(c, tag);
    let n = c.len();
    let h = HEADER_WORDS as int;
    lemma_words_to_bytes_len(w);
    assert(w.len() == 5 + 6 * n);
    assert forall|j: int| 0 <= j < w.len() implies #[trigger] word_at(b, j) == w[j] by {
        lemma_words_to_bytes_index(w, j);
    }
    assert(word_at(b, 0) == w[0]);
    assert(word_at(b, 1) == w[1]);
    assert(word_at(b, 2) == w[2]);
    assert(word_at(b, 3) == w[3]);
    assert(word_at(b, 4) == w[4]);
    assert(declared_rows(b) == n);
    assert(words_from(b, h, n) =~= c.rt);
    assert(words_from(b, h + n, n) =~= c.mobility);
    assert(words_from(b, h + 2 * n, n) =~= c.mz);
    assert(words_from(b, h + 3 * n, n) =~= c.intensity);
    assert(words_from(b, h + 4 * n, n) =~= c.frame);
    assert(words_from(b, h + 5 * n, n) =~= c.scan);
}

/// Appends the four little-endian bytes of `x`.
fn push_word(out: &mut Vec<u8>, x: u32)
    ensures
        final(out)@ == old(out)@ + le_bytes(x),
{
    out.push((x & 0xff) as u8);
    out.push(((x >> 8) & 0xff) as u8);
    out.push(((x >> 16) & 0xff) as u8);
    out.push(((x >> 24) & 0xff) as u8);
    assert(final(out)@ =~= old(out)@ + le_bytes(x));
}

/// Appends every word of `col` in order.
fn push_column(out: &mut Vec<u8>, col: &Vec<u32>)
    ensures
        final(out)@ == old(out)@ + words_to_bytes(col@),
{
    let ghost start = out@;
    let mut i: usize = 0;
    assert(words_to_bytes(col@.take(0)) =~= Seq::empty());
    assert(out@ =~= start + words_to_bytes(col@.take(0)));
    while i < col.len()
        invariant
            i <= col@.len(),
            out@ == start + words_to_bytes(col@.take(i as int)),
        decreases col@.len() - i,
    {
        let x = col[i];
        push_word(out, x);
        proof {
            assert(col@.take(i + 1).drop_last() =~= col@.take(i as int));
            assert(out@ =~= start + words_to_bytes(col@.take(i + 1)));
        }
        i = i + 1;
    }
    assert(col@.take(i as int) =~= col@);
}

/// Encodes a shard: the header words, then each column, all little-endian.
pub fn encode_shard(shard: &DataShard) -> (r: Vec<u8>)
    requires
        shard.wf(),
    ensures
        r@ == encode_spec(shard.columns(), shard.mz_range),
{
    let n = shard.mz_values.len();
    let n64 = n as u64;
    let lo = (n64 % 0x1_0000_0000) as u32;
    let hi = (n64 / 0x1_0000_0000) as u32;
    let mut out: Vec<u8> = Vec::new();
    let ghost mut w: Seq<u32> = Seq::empty();
    assert(out@ =~= words_to_bytes(w));
    let hdr = [FORMAT_VERSION, lo, hi, shard.mz_range.0, shard.mz_range.1];
    let mut i: usize = 0;
    while i < 5
        invariant
            i <= 5,
            hdr@ == seq![FORMAT_VERSION, lo, hi, shard.mz_range.0, shard.mz_range.1],
            w == hdr@.take(i as int),
            out@ == words_to_bytes(w),
        decreases 5 - i,
    {
        let x = hdr[i];
        push_word(&mut out, x);
        proof {
            assert(w.push(x).drop_last() =~= w);
            w = w.push(x);
            assert(w =~= hdr@.take(i + 1));
        }
        i = i + 1;
    }
    assert(hdr@.take(5) =~= hdr@);
    let ghost c = shard.columns();
    push_column(&mut out, &shard.rt_values_min);
    push_column(&mut out, &shard.mobility_values);
    push_column(&mut out, &shard.mz_values);
    push_column(&mut out, &shard.intensity_values);
    push_column(&mut out, &shard.frame_indices);
    push_column(&mut out, &shard.scan_indices);
    proof {
        let w1 = w + c.rt;
        let w2 = w1 + c.mobility;
        let w3 = w2 + c.mz;
        let w4 = w3 + c.intensity;
        let w5 = w4 + c.frame;
        let w6 = w5 + c.scan;
        lemma_words_to_bytes_append(w, c.rt);
        lemma_words_to_bytes_append(w1, c.mobility);
        lemma_words_to_bytes_append(w2, c.mz);
        lemma_words_to_bytes_append(w3, c.intensity);
        lemma_words_to_bytes_append(w4, c.frame);
        lemma_words_to_bytes_append(w5, c.scan);
        assert(out@ =~= words_to_bytes(w6));
        assert(w6 =~= shard_words(c, shard.mz_range));
    }
    out
}

/// Word number `j` of `b`.
fn read_word(b: &[u8], j: usize) -> (r: u32)
    requires
        4 * j + 3 < b@.len(),
    ensures
        r == word_at(b@, j as int),
{
    let len = b.len();
    assert(4 * j < len);
    let k = 4 * j;
    (b[k] as u32) | ((b[k + 1] as u32) << 8) | ((b[k + 2] as u32) << 16) | ((b[k + 3] as u32) << 24)
}

/// `n` words of `b` starting at word `off`.
fn read_column(b: &[u8], off: usize, n: usize) -> (r: Vec<u32>)
    requires
        4 * (off + n) <= b@.len(),
    ensures
        r@ == words_from(b@, off as int, n as nat),
{
    let len = b.len();
    let mut out: Vec<u32> = Vec::new();
    let mut i: usize = 0;
    while i < n
        invariant
            i <= n,
            len == b@.len(),
            4 * (off + n) <= b@.len(),
            out@ == words_from(b@, off as int, i as nat),
        decreases n - i,
    {
        let x = read_word(b, off + i);
        out.push(x);
        i = i + 1;
        assert(out@ =~= words_from(b@, off as int, i as nat));
    }
    out
}

/// Decodes a shard, or names the first defect of the stream.
pub fn decode_shard(b: &[u8]) -> (r: Result<DataShard, CodecError>)
    ensures
        r matches Ok(s) ==> decode_spec(b@) == Ok::<(Columns, (u32, u32)), CodecError>(
            (s.columns(), s.mz_range),
        ),
        r matches Err(e) ==> decode_spec(b@) == Err::<(Columns, (u32, u32)), CodecError>(e),
{
    let len = b.len();
    if len < 20 {
        return Err(CodecError::Truncated);
    }
    let v = read_word(b, 0);
    if v != FORMAT_VERSION {
        return Err(CodecError::UnsupportedVersion(v));
    }
    let lo = read_word(b, 1);
    let hi = read_word(b, 2);
    let n64: u64 = (hi as u64) * 0x1_0000_0000 + lo as u64;
    assert(n64 == declared_rows(b@));
    let words = len / 4;
    let payload = words - 5;
    if len % 4 != 0 || payload % 6 != 0 || (payload / 6) as u64 != n64 {
        assert(len != 4 * (HEADER_WORDS + 6 * declared_rows(b@))) by (nonlinear_arith)
            requires
                words == len / 4,
                payload == words - 5,
                words >= 5,
                n64 == declared_rows(b@),
                len % 4 != 0 || payload % 6 != 0 || (payload / 6) as u64 != n64,
        ;
        return Err(CodecError::LengthMismatch);
    }
    let n = payload / 6;
    assert(len == 4 * (HEADER_WORDS + 6 * declared_rows(b@))) by (nonlinear_arith)
        requires
            words == len / 4,
            payload == words - 5,
            words >= 5,
            len % 4 == 0,
            payload % 6 == 0,
            n == payload / 6,
            n == declared_rows(b@),
    ;
    let mz_min = read_word(b, 3);
    let mz_max = read_word(b, 4);
    let rt = read_column(b, 5, n);
    let mobility = read_column(b, 5 + n, n);
    let mz = read_column(b, 5 + 2 * n, n);
    let intensity = read_column(b, 5 + 3 * n, n);
    let frame = read_column(b, 5 + 4 * n, n);
    let scan = read_column(b, 5 + 5 * n, n);
    Ok(
        DataShard {
            rt_values_min: rt,
            mobility_values: mobility,
            mz_values: mz,
            intensity_values: intensity,
            frame_indices: frame,
            scan_indices: scan,
            mz_range: (mz_min, mz_max),
        },
    )
}

} // verus!
