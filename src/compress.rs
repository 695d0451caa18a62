use vstd::prelude::*;
use std::io::{Read, Write};

verus! {

/// Level handed to zstd for high-ratio streams.
pub const ZSTD_LEVEL: i32 = 3;

/// How one stream's bytes are stored on disk.
#[derive(Debug, Clone, Copy, PartialEq, Eq, Structural)]
pub enum Encoding {
    /// Stored as is.
    Raw,
    /// One LZ4 frame (fast block compression).
    Lz4,
    /// One zstd frame (high-ratio streaming compression).
    Zstd,
}

/// Why decompressing failed.
#[derive(Debug, Clone, Copy, PartialEq, Eq, Structural)]
pub enum CompressionError {
    /// The bytes do not open with the frame header of the declared encoding.
    FramingMismatch,
    /// The frame header is right but the decoder rejected the stream.
    Corrupt,
}

/// What LZ4 frame compression makes of `b`.
pub uninterp spec fn lz4_frame_of(b: Seq<u8>) -> Seq<u8>;

/// What zstd makes of `b` at compression level `level`.
pub uninterp spec fn zstd_frame_of(b: Seq<u8>, level: i32) -> Seq<u8>;

/// The LZ4 frame magic number, little-endian.
pub open spec fn lz4_magic() -> Seq<u8> {
    seq![0x04u8, 0x22u8, 0x4du8, 0x18u8]
}

/// The zstd frame magic number, little-endian.
pub open spec fn zstd_magic() -> Seq<u8> {
    seq![0x28u8, 0xb5u8, 0x2fu8, 0xfdu8]
}

pub open spec fn starts_with(b: Seq<u8>, m: Seq<u8>) -> bool {
    b.len() >= m.len() && b.subrange(0, m.len() as int) == m
}

/// The stored form of `b` under encoding `e`.
pub open spec fn compressed_spec(e: Encoding, b: Seq<u8>) -> Seq<u8> {
    match e {
        Encoding::Raw => b,
        Encoding::Lz4 => lz4_frame_of(b),
        Encoding::Zstd => zstd_frame_of(b, ZSTD_LEVEL),
    }
}

/// Whether `b` opens with the frame header that encoding `e` writes.
pub open spec fn framing_matches(e: Encoding, b: Seq<u8>) -> bool {
    match e {
        Encoding::Raw => true,
        Encoding::Lz4 => starts_with(b, lz4_magic()),
        Encoding::Zstd => starts_with(b, zstd_magic()),
    }
}

/// Relies on lz4_flex::frame::FrameEncoder (default frame settings): one
/// binary makes the same frame of the same input, the frame opens with the
/// LZ4 frame magic number (its header writer puts it first), and writing
/// into a `Vec` cannot fail: the content-size check is off by default and
/// every block is compressed into a buffer of the maximum output size.
#[verifier::external_body]
fn lz4_compress(data: &[u8]) -> (r: Option<Vec<u8>>)
    ensures
        r is Some,
        r matches Some(v) ==> v@ == lz4_frame_of(data@) && starts_with(v@, lz4_magic()),
{
    let mut enc = lz4_flex::frame::FrameEncoder::new(Vec::new());
    match enc.write_all(data) {
        Ok(()) => enc.finish().ok(),
        Err(_) => None,
    }
}

/// Relies on lz4_flex::frame::FrameDecoder: reading a frame that
/// FrameEncoder wrote to its end gives back the encoder's input.
#[verifier::external_body]
fn lz4_decompress(data: &[u8]) -> (r: Option<Vec<u8>>)
    ensures
        forall|x: Seq<u8>|
            #[trigger] lz4_frame_of(x) == data@ ==> r is Some && r->0@ == x,
{
    let mut out = Vec::new();
    match lz4_flex::frame::FrameDecoder::new(data).read_to_end(&mut out) {
        Ok(_) => Some(out),
        Err(_) => None,
    }
}

/// Relies on zstd::stream::encode_all: single-threaded, the output depends
/// on the input and the level alone, is one zstd frame, which opens with
/// the zstd magic number, and compressing into a `Vec` fails only when
/// zstd cannot allocate its context.
#[verifier::external_body]
fn zstd_compress(data: &[u8], level: i32) -> (r: Option<Vec<u8>>)
    ensures
        r is Some,
        r matches Some(v) ==> v@ == zstd_frame_of(data@, level) && starts_with(v@, zstd_magic()),
{
    zstd::stream::encode_all(data, level).ok()
}

/// Relies on zstd::stream::decode_all: decoding what encode_all produced
/// gives back its input, whatever the level.
#[verifier::external_body]
fn zstd_decompress(data: &[u8]) -> (r: Option<Vec<u8>>)
    ensures
        forall|x: Seq<u8>, level: i32|
            #[trigger] zstd_frame_of(x, level) == data@ ==> r is Some && r->0@ == x,
{
    zstd::stream::decode_all(data).ok()
}

/// Whether the first four bytes of `data` are `m0 m1 m2 m3`.
fn has_magic(data: &[u8], m0: u8, m1: u8, m2: u8, m3: u8) -> (r: bool)
    ensures
        r == starts_with(data@, seq![m0, m1, m2, m3]),
{
    if data.len() < 4 {
        return false;
    }
    let r = data[0] == m0 && data[1] == m1 && data[2] == m2 && data[3] == m3;
    proof {
        if r {
            assert(data@.subrange(0, 4) =~= seq![m0, m1, m2, m3]);
        } else {
            let s = data@.subrange(0, 4);
            if s == seq![m0, m1, m2, m3] {
                assert(s[0] == m0 && s[1] == m1 && s[2] == m2 && s[3] == m3);
            }
        }
    }
    r
}

/// Stores `data` under encoding `e`: as is, or as one LZ4 or zstd frame,
/// which opens with that encoding's frame header.
pub fn compress(data: &[u8], e: Encoding) -> (r: Vec<u8>)
    ensures
        r@ == compressed_spec(e, data@),
        framing_matches(e, r@),
{
    match e {
        Encoding::Raw => vstd::slice::slice_to_vec(data),
        Encoding::Lz4 => match lz4_compress(data) {
            Some(v) => v,
            None => Vec::new(),
        },
        Encoding::Zstd => match zstd_compress(data, ZSTD_LEVEL) {
            Some(v) => v,
            None => Vec::new(),
        },
    }
}

/// Recovers the bytes stored under encoding `e`.
///
/// Decompression inverts compression: for every encoding and every byte
/// sequence `x`, including the empty one, what `compress` stores for `x`
/// (its stored form, opening with the encoding's frame header) decodes to
/// `x`. Bytes that do not open with the declared encoding's frame header
/// are refused as a framing mismatch before any decoding; bytes that do,
/// but that the decoder rejects, are refused as corrupt.
pub fn decompress(data: &[u8], e: Encoding) -> (r: Result<Vec<u8>, CompressionError>)
    ensures
        forall|x: Seq<u8>|
            #[trigger] compressed_spec(e, x) == data@ && framing_matches(e, data@) ==> (r matches Ok(
                v,
            ) && v@ == x),
        e == Encoding::Raw ==> (r matches Ok(v) && v@ == data@),
        !framing_matches(e, data@) ==> r == Err::<Vec<u8>, CompressionError>(
            CompressionError::FramingMismatch,
        ),
        r matches Err(err) ==> {
            &&& e != Encoding::Raw
            &&& err == CompressionError::FramingMismatch <==> !framing_matches(e, data@)
        },
{
    match e {
        Encoding::Raw => Ok(vstd::slice::slice_to_vec(data)),
        Encoding::Lz4 => {
            if !has_magic(data, 0x04, 0x22, 0x4d, 0x18) {
                return Err(CompressionError::FramingMismatch);
            }
            match lz4_decompress(data) {
                Some(v) => Ok(v),
                None => Err(CompressionError::Corrupt),
            }
        },
        Encoding::Zstd => {
            if !has_magic(data, 0x28, 0xb5, 0x2f, 0xfd) {
                return Err(CompressionError::FramingMismatch);
            }
            match zstd_decompress(data) {
                Some(v) => Ok(v),
                None => Err(CompressionError::Corrupt),
            }
        },
    }
}

} // verus!
