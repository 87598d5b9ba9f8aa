//! The two compression codecs of the format, XZ and zlib.

use vstd::prelude::*;
use crate::checksum::ChecksumEngine;
use crate::error::{Codec, Error};

verus! {

/// The XZ preset that payloads are compressed with.
pub const XZ_PRESET: u32 = 6;

/// The zlib level that payloads are compressed with.
pub const ZLIB_LEVEL: u8 = 6;

/// The XZ stream that liblzma's easy encoder makes of `data` at `preset`.
pub uninterp spec fn xz_deflated(data: Seq<u8>, preset: u32) -> Seq<u8>;

/// What liblzma's stream decoder makes of `data`: the decoded bytes, or
/// nothing where `data` is no complete XZ stream.
pub uninterp spec fn xz_inflated(data: Seq<u8>) -> Option<Seq<u8>>;

/// The zlib stream that miniz_oxide makes of `data` at `level`.
pub uninterp spec fn zlib_deflated(data: Seq<u8>, level: u8) -> Seq<u8>;

/// What miniz_oxide's zlib decoder makes of `data`: the decoded bytes, or
/// nothing where `data` is no complete zlib stream.
pub uninterp spec fn zlib_inflated(data: Seq<u8>) -> Option<Seq<u8>>;

/// Calls `xz2::read::XzEncoder` on `data` and reads its output to the end.
/// Trusted: the output is the stream that `xz_deflated` names. Over a byte
/// slice the encoder reports no error: it reads from memory and stops the
/// program on a failure of its own.
#[verifier::external_body]
fn xz_compress(data: &[u8], preset: u32) -> (r: Vec<u8>)
    requires
        preset <= 9,
    ensures
        r@ == xz_deflated(data@, preset),
{
    let mut out = Vec::new();
    let mut encoder = xz2::read::XzEncoder::new(data, preset);
    std::io::Read::read_to_end(&mut encoder, &mut out).unwrap();
    out
}

/// Calls `xz2::read::XzDecoder` on `data` and reads its output to the end.
/// Trusted: the outcome is the one that `xz_inflated` names, the decoded
/// bytes or a failure.
#[verifier::external_body]
fn xz_decompress(data: &[u8]) -> (r: Option<Vec<u8>>)
    ensures
        r matches Some(v) ==> xz_inflated(data@) == Some(v@),
        r is None ==> xz_inflated(data@) is None,
{
    let mut out = Vec::new();
    let mut decoder = xz2::read::XzDecoder::new(data);
    match std::io::Read::read_to_end(&mut decoder, &mut out) {
        Ok(_) => Some(out),
        Err(_) => None,
    }
}

/// Calls `miniz_oxide::deflate::compress_to_vec_zlib`.
/// Trusted: its output is the stream that `zlib_deflated` names.
#[verifier::external_body]
fn zlib_compress(data: &[u8], level: u8) -> (r: Vec<u8>)
    ensures
        r@ == zlib_deflated(data@, level),
{
    miniz_oxide::deflate::compress_to_vec_zlib(data, level)
}

/// Calls `miniz_oxide::inflate::decompress_to_vec_zlib`.
/// Trusted: the outcome is the one that `zlib_inflated` names, the decoded
/// bytes or a failure.
#[verifier::external_body]
fn zlib_decompress(data: &[u8]) -> (r: Option<Vec<u8>>)
    ensures
        r matches Some(v) ==> zlib_inflated(data@) == Some(v@),
        r is None ==> zlib_inflated(data@) is None,
{
    match miniz_oxide::inflate::decompress_to_vec_zlib(data) {
        Ok(v) => Some(v),
        Err(_) => None,
    }
}

/// The stored form of `data` under a codec.
pub open spec fn deflated(codec: Codec, data: Seq<u8>) -> Seq<u8> {
    match codec {
        Codec::Xz => xz_deflated(data, XZ_PRESET),
        Codec::Zlib => zlib_deflated(data, ZLIB_LEVEL),
    }
}

/// The payload that a stored form holds under a codec, if it holds one.
pub open spec fn inflated(codec: Codec, stored: Seq<u8>) -> Option<Seq<u8>> {
    match codec {
        Codec::Xz => xz_inflated(stored),
        Codec::Zlib => zlib_inflated(stored),
    }
}

/// True where the codec gives `data` back from its stored form.
pub open spec fn round_trips(codec: Codec, data: Seq<u8>) -> bool {
    inflated(codec, deflated(codec, data)) == Some(data)
}

/// Turns the decoder's outcome into the result of `inflate`, and feeds a
/// decoded payload to the checksum engine.
pub fn finish_inflate(codec: Codec, decoded: Option<Vec<u8>>, chksum: &mut ChecksumEngine) -> (r:
    Result<Vec<u8>, Error>)
    ensures
        final(chksum).is_crc() == old(chksum).is_crc(),
        decoded matches Some(payload) ==> r matches Ok(v) && v@ == payload@
            && final(chksum).register() == ChecksumEngine::fold(
            old(chksum).is_crc(),
            old(chksum).register(),
            payload@,
        ),
        decoded is None ==> r == Err::<Vec<u8>, Error>(Error::Inflate(codec)) && *final(chksum)
            == *old(chksum),
{
    match decoded {
        Some(payload) => {
            chksum.push(payload.as_slice());
            Ok(payload)
        },
        None => Err(Error::Inflate(codec)),
    }
}

/// Decompresses `stored` and feeds the payload to the checksum engine.
pub fn inflate(codec: Codec, stored: &[u8], chksum: &mut ChecksumEngine) -> (r: Result<
    Vec<u8>,
    Error,
>)
    ensures
        final(chksum).is_crc() == old(chksum).is_crc(),
        inflated(codec, stored@) matches Some(payload) ==> r matches Ok(v) && v@ == payload
            && final(chksum).register() == ChecksumEngine::fold(
            old(chksum).is_crc(),
            old(chksum).register(),
            payload,
        ),
        inflated(codec, stored@) is None ==> r == Err::<Vec<u8>, Error>(Error::Inflate(codec))
            && *final(chksum) == *old(chksum),
{
    let decoded = match codec {
        Codec::Xz => xz_decompress(stored),
        Codec::Zlib => zlib_decompress(stored),
    };
    finish_inflate(codec, decoded, chksum)
}

/// Feeds `payload` to the checksum engine and gives its stored form under
/// the codec.
pub fn deflate(codec: Codec, payload: &[u8], chksum: &mut ChecksumEngine) -> (r: Vec<u8>)
    ensures
        final(chksum).is_crc() == old(chksum).is_crc(),
        final(chksum).register() == ChecksumEngine::fold(
            old(chksum).is_crc(),
            old(chksum).register(),
            payload@,
        ),
        r@ == deflated(codec, payload@),
{
    chksum.push(payload);
    match codec {
        Codec::Xz => xz_compress(payload, XZ_PRESET),
        Codec::Zlib => zlib_compress(payload, ZLIB_LEVEL),
    }
}

/// True where two byte slices hold the same bytes.
pub fn same_bytes(a: &[u8], b: &[u8]) -> (r: bool)
    ensures
        r == (a@ == b@),
{
    if a.len() != b.len() {
        return false;
    }
    let mut i: usize = 0;
    while i < a.len()
        invariant
            i <= a@.len(),
            a@.len() == b@.len(),
            a@.subrange(0, i as int) == b@.subrange(0, i as int),
        decreases a@.len() - i,
    {
        if a[i] != b[i] {
            return false;
        }
        assert(a@.subrange(0, i + 1) =~= a@.subrange(0, i as int).push(a@[i as int]));
        assert(b@.subrange(0, i + 1) =~= b@.subrange(0, i as int).push(b@[i as int]));
        i += 1;
    }
    assert(a@.subrange(0, i as int) =~= a@);
    assert(b@.subrange(0, i as int) =~= b@);
    true
}

/// Tests whether a stored form holds `payload` under the codec, by
/// decompressing it.
pub fn holds_payload(codec: Codec, stored: &[u8], payload: &[u8]) -> (r: bool)
    ensures
        r == (inflated(codec, stored@) == Some(payload@)),
{
    let mut unused = ChecksumEngine::new(false);
    match inflate(codec, stored, &mut unused) {
        Ok(back) => same_bytes(back.as_slice(), payload),
        Err(_) => false,
    }
}

/// Tests whether the codec gives `payload` back from its stored form, by
/// compressing and decompressing it.
pub fn round_trip_holds(codec: Codec, payload: &[u8]) -> (r: bool)
    ensures
        r == round_trips(codec, payload@),
{
    let mut unused = ChecksumEngine::new(false);
    let stored = deflate(codec, payload, &mut unused);
    holds_payload(codec, stored.as_slice(), payload)
}

} // verus!
