//! Optional layers around a fixed-layout frame: a CRC-32 checksum in front of
//! it, zstd compression of it, or both.
use crate::reader::{deserialize_pod, pod_decoded, pod_fits};
use crate::wire::le_u32;
use crate::writer::{pod_frame, serialize_pod, Error, PodType};
use vstd::bytes::{spec_u32_from_le_bytes, u32_from_le_bytes, u32_to_le_bytes};
use vstd::prelude::*;

verus! {

#[verifier::external_type_specification]
#[verifier::external_body]
pub struct ExIoError(std::io::Error);

/// The CRC-32 (IEEE) checksum of a byte sequence.
pub uninterp spec fn crc32_of(b: Seq<u8>) -> u32;

/// The zstd frame that compressing `b` at `level` produces.
pub uninterp spec fn zstd_frame(b: Seq<u8>, level: i32) -> Seq<u8>;

/// The bytes that decompressing the zstd frames in `b` produces.
pub uninterp spec fn zstd_content(b: Seq<u8>) -> Seq<u8>;

/// Relies on `crc32fast::hash`: the CRC-32 of the bytes, which depends on
/// them alone.
#[verifier::external_body]
fn crc32(b: &[u8]) -> (r: u32)
    ensures
        r == crc32_of(b@),
{
    crc32fast::hash(b)
}

/// Relies on `zstd::encode_all` over an in-memory reader: on success, the
/// compressed frame of all of `b`.
#[verifier::external_body]
fn zstd_compress(b: &[u8], level: i32) -> (r: Result<Vec<u8>, std::io::Error>)
    ensures
        r is Ok ==> r->Ok_0@ == zstd_frame(b@, level),
{
    zstd::encode_all(b, level)
}

/// Relies on `zstd::decode_all` over an in-memory reader: on success, the
/// decompressed content of the frames in `b`.
#[verifier::external_body]
fn zstd_decompress(b: &[u8]) -> (r: Result<Vec<u8>, std::io::Error>)
    ensures
        r is Ok ==> r->Ok_0@ == zstd_content(b@),
{
    zstd::decode_all(b)
}

/// `payload` with its checksum in front, as 4 little-endian bytes.
pub open spec fn checksummed(payload: Seq<u8>) -> Seq<u8> {
    le_u32(crc32_of(payload)) + payload
}

/// Prepends the checksum of `payload`.
fn with_checksum(payload: &[u8]) -> (r: Vec<u8>)
    ensures
        r@ == checksummed(payload@),
{
    let crc = crc32(payload);
    let head = u32_to_le_bytes(crc);
    let mut out: Vec<u8> = Vec::with_capacity(4);
    out.extend_from_slice(head.as_slice());
    out.extend_from_slice(payload);
    assert(out@ =~= checksummed(payload@));
    out
}

/// The checksum stored in front of a checksummed input.
pub open spec fn stored_crc(data: Seq<u8>) -> u32 {
    spec_u32_from_le_bytes(data.subrange(0, 4))
}

/// Checks a stored checksum against `actual`, the checksum computed over
/// everything after it, and hands back that payload.
pub fn check_checksum(data: &[u8], actual: u32) -> (r: Result<&[u8], Error>)
    ensures
        data@.len() < 4 ==> (r matches Err(Error::TooShort)),
        data@.len() >= 4 && stored_crc(data@) != actual ==> (r matches Err(
            Error::ChecksumMismatch { expected, actual: a },
        ) && expected == stored_crc(data@) && a == actual),
        data@.len() >= 4 && stored_crc(data@) == actual ==> r is Ok && r->Ok_0@ == data@.subrange(
            4,
            data@.len() as int,
        ),
{
    if data.len() < 4 {
        return Err(Error::TooShort);
    }
    let expected = u32_from_le_bytes(&data[0..4]);
    if expected != actual {
        return Err(Error::ChecksumMismatch { expected, actual });
    }
    Ok(&data[4..data.len()])
}

/// A fixed-layout frame with its CRC-32 in front.
pub fn serialize_pod_with_checksum<T: PodType>(vec: &[T]) -> (r: Result<Vec<u8>, Error>)
    ensures
        r is Ok && r->Ok_0@ == checksummed(pod_frame(vec@)),
{
    let serialized = serialize_pod(vec)?;
    Ok(with_checksum(serialized.as_slice()))
}

/// Decodes a checksummed fixed-layout frame, after checking the checksum.
pub fn deserialize_pod_with_checksum<T: PodType>(data: &[u8]) -> (r: Result<Vec<T>, Error>)
    ensures
        data@.len() < 4 ==> (r matches Err(Error::TooShort)),
        data@.len() >= 4 ==> {
            let payload = data@.subrange(4, data@.len() as int);
            &&& stored_crc(data@) != crc32_of(payload) ==> (r matches Err(
                Error::ChecksumMismatch { .. },
            ))
            &&& stored_crc(data@) == crc32_of(payload) && pod_fits::<T>(payload) ==> r is Ok
                && r->Ok_0@ == pod_decoded::<T>(payload)
            &&& stored_crc(data@) == crc32_of(payload) && !pod_fits::<T>(payload) ==> (r matches Err(
                Error::Decode(_),
            ))
        },
{
    if data.len() < 4 {
        return Err(Error::TooShort);
    }
    let actual = crc32(&data[4..data.len()]);
    let payload = check_checksum(data, actual)?;
    match deserialize_pod::<T>(payload) {
        Ok(v) => Ok(v),
        Err(e) => Err(Error::Decode(e)),
    }
}

/// A fixed-layout frame, compressed.
pub fn serialize_pod_compressed<T: PodType>(vec: &[T], level: i32) -> (r: Result<Vec<u8>, Error>)
    ensures
        r is Ok ==> r->Ok_0@ == zstd_frame(pod_frame(vec@), level),
        r is Err ==> (r matches Err(Error::Compression(_))),
{
    let uncompressed = serialize_pod(vec)?;
    match zstd_compress(uncompressed.as_slice(), level) {
        Ok(c) => Ok(c),
        Err(e) => Err(Error::Compression(e)),
    }
}

/// Decompresses, then decodes a fixed-layout frame.
pub fn deserialize_pod_compressed<T: PodType>(data: &[u8]) -> (r: Result<Vec<T>, Error>)
    ensures
        r is Ok ==> pod_fits::<T>(zstd_content(data@)) && r->Ok_0@ == pod_decoded::<T>(
            zstd_content(data@),
        ),
        r is Err ==> (r matches Err(Error::Compression(_))) || (r matches Err(Error::Decode(_))),
        (r matches Err(Error::Decode(_))) ==> !pod_fits::<T>(zstd_content(data@)),
{
    let content = match zstd_decompress(data) {
        Ok(c) => c,
        Err(e) => {
            return Err(Error::Compression(e));
        },
    };
    match deserialize_pod::<T>(content.as_slice()) {
        Ok(v) => Ok(v),
        Err(e) => Err(Error::Decode(e)),
    }
}

/// A fixed-layout frame, compressed, with the CRC-32 of the compressed bytes
/// in front.
pub fn serialize_pod_safe<T: PodType>(vec: &[T], compression_level: i32) -> (r: Result<
    Vec<u8>,
    Error,
>)
    ensures
        r is Ok ==> r->Ok_0@ == checksummed(zstd_frame(pod_frame(vec@), compression_level)),
        r is Err ==> (r matches Err(Error::Compression(_))),
{
    let compressed = serialize_pod_compressed(vec, compression_level)?;
    Ok(with_checksum(compressed.as_slice()))
}

/// Checks the checksum, decompresses, then decodes a fixed-layout frame.
pub fn deserialize_pod_safe<T: PodType>(data: &[u8]) -> (r: Result<Vec<T>, Error>)
    ensures
        data@.len() < 4 ==> (r matches Err(Error::TooShort)),
        data@.len() >= 4 ==> {
            let payload = data@.subrange(4, data@.len() as int);
            &&& stored_crc(data@) != crc32_of(payload) ==> (r matches Err(
                Error::ChecksumMismatch { .. },
            ))
            &&& !(r matches Err(Error::TooShort))
            &&& stored_crc(data@) == crc32_of(payload) ==> !(r matches Err(
                Error::ChecksumMismatch { .. },
            ))
            &&& (r matches Err(Error::Decode(_))) ==> !pod_fits::<T>(zstd_content(payload))
            &&& r is Ok ==> stored_crc(data@) == crc32_of(payload) && pod_fits::<T>(
                zstd_content(payload),
            ) && r->Ok_0@ == pod_decoded::<T>(zstd_content(payload))
        },
{
    if data.len() < 4 {
        return Err(Error::TooShort);
    }
    let actual = crc32(&data[4..data.len()]);
    let compressed = check_checksum(data, actual)?;
    deserialize_pod_compressed(compressed)
}

} // verus!
