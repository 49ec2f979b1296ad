//! Framing: a payload followed by its CRC-32 checksum, four bytes, least significant
//! first.

use crate::error::CodecError;
use crate::primitives::{crc32, crc32_of};
use vstd::prelude::*;
use vstd::slice::{slice_subrange, slice_to_vec};

verus! {

/// The number of bytes that the checksum takes at the end of a frame.
pub const CHECKSUM_LEN: usize = 4;

/// The four bytes of `value`, least significant first.
pub open spec fn le_bytes(value: u32) -> Seq<u8> {
    let v = value as int;
    seq![(v % 256) as u8, (v / 256 % 256) as u8, (v / 65536 % 256) as u8, (v / 16777216) as u8]
}

/// The value whose four bytes, least significant first, `bytes` starts with.
pub open spec fn le_value(bytes: Seq<u8>) -> u32 {
    (bytes[0] + bytes[1] * 256 + bytes[2] * 65536 + bytes[3] * 16777216) as u32
}

/// `payload` followed by the bytes of `checksum`.
pub open spec fn framed_with(payload: Seq<u8>, checksum: u32) -> Seq<u8> {
    payload + le_bytes(checksum)
}

/// `payload` followed by the bytes of its own checksum.
pub open spec fn framed(payload: Seq<u8>) -> Seq<u8> {
    framed_with(payload, crc32(payload))
}

/// All of `buffer` but its last four bytes.
pub open spec fn frame_payload(buffer: Seq<u8>) -> Seq<u8> {
    buffer.subrange(0, buffer.len() - 4)
}

/// The value held in the last four bytes of `buffer`.
pub open spec fn frame_checksum(buffer: Seq<u8>) -> u32 {
    le_value(buffer.subrange(buffer.len() - 4, buffer.len() as int))
}

/// The payload of `buffer` and the checksum stored behind it, if `buffer` is long
/// enough to hold a checksum and the checksum it holds is that of the payload.
pub open spec fn unframed(buffer: Seq<u8>) -> Result<(Seq<u8>, u32), CodecError> {
    if buffer.len() < 4 {
        Err(CodecError::TooShort)
    } else if crc32(frame_payload(buffer)) != frame_checksum(buffer) {
        Err(CodecError::ChecksumMismatch)
    } else {
        Ok((frame_payload(buffer), frame_checksum(buffer)))
    }
}

/// Reading back the bytes of a value gives the value.
pub proof fn lemma_value_of_bytes(value: u32)
    ensures
        le_bytes(value).len() == 4,
        le_value(le_bytes(value)) == value,
{
    let v = value as int;
    let bytes = le_bytes(value);
    assert(bytes[0] == v % 256 && bytes[1] == v / 256 % 256 && bytes[2] == v / 65536 % 256
        && bytes[3] == v / 16777216);
    assert(v == v % 256 + (v / 256 % 256) * 256 + (v / 65536 % 256) * 65536 + (v / 16777216)
        * 16777216);
}

/// Writing out the value read from four bytes gives the four bytes.
pub proof fn lemma_bytes_of_value(bytes: Seq<u8>)
    requires
        bytes.len() == 4,
    ensures
        le_bytes(le_value(bytes)) == bytes,
{
    let (b0, b1, b2, b3) = (bytes[0] as int, bytes[1] as int, bytes[2] as int, bytes[3] as int);
    let v = b0 + b1 * 256 + b2 * 65536 + b3 * 16777216;
    assert(le_value(bytes) == v);
    assert(v % 256 == b0);
    assert(v / 256 == b1 + b2 * 256 + b3 * 65536);
    assert(v / 65536 == b2 + b3 * 256);
    assert(v / 16777216 == b3);
    assert(le_bytes(le_value(bytes)) =~= bytes);
}

/// A frame splits into the payload and the checksum it was made of.
pub proof fn lemma_split_framed(payload: Seq<u8>, checksum: u32)
    ensures
        framed_with(payload, checksum).len() == payload.len() + 4,
        frame_payload(framed_with(payload, checksum)) == payload,
        frame_checksum(framed_with(payload, checksum)) == checksum,
{
    let buffer = framed_with(payload, checksum);
    lemma_value_of_bytes(checksum);
    assert(frame_payload(buffer) =~= payload);
    assert(buffer.subrange(buffer.len() - 4, buffer.len() as int) =~= le_bytes(checksum));
}

/// Unframing the frame of a payload gives the payload and its checksum.
pub proof fn lemma_unframed_framed(payload: Seq<u8>)
    ensures
        unframed(framed(payload)) == Ok::<(Seq<u8>, u32), CodecError>((payload, crc32(payload))),
{
    lemma_split_framed(payload, crc32(payload));
}

/// What unframes to a payload is the frame of that payload.
pub proof fn lemma_framed_unframed(buffer: Seq<u8>)
    requires
        unframed(buffer) is Ok,
    ensures
        framed(unframed(buffer)->Ok_0.0) == buffer,
        unframed(buffer)->Ok_0.1 == crc32(unframed(buffer)->Ok_0.0),
{
    let payload = frame_payload(buffer);
    let tail = buffer.subrange(buffer.len() - 4, buffer.len() as int);
    lemma_bytes_of_value(tail);
    assert(framed(payload) =~= buffer);
}

/// The four bytes of `value`, least significant first.
pub fn checksum_bytes(value: u32) -> (bytes: [u8; 4])
    ensures
        bytes@ == le_bytes(value),
{
    let bytes: [u8; 4] = [
        (value % 256) as u8,
        (value / 256 % 256) as u8,
        (value / 65536 % 256) as u8,
        (value / 16777216) as u8,
    ];
    assert(bytes@ =~= le_bytes(value));
    bytes
}

/// The value that four bytes hold, least significant first.
pub fn checksum_value(bytes: &[u8]) -> (value: u32)
    requires
        bytes@.len() == 4,
    ensures
        value == le_value(bytes@),
{
    bytes[0] as u32 + bytes[1] as u32 * 256 + bytes[2] as u32 * 65536 + bytes[3] as u32 * 16777216
}

/// Appends the bytes of `checksum` to a copy of `payload`.
pub fn frame_with(payload: &[u8], checksum: u32) -> (buffer: Vec<u8>)
    ensures
        buffer@ == framed_with(payload@, checksum),
{
    let bytes: [u8; 4] = checksum_bytes(checksum);
    let mut buffer: Vec<u8> = slice_to_vec(payload);
    buffer.push(bytes[0]);
    buffer.push(bytes[1]);
    buffer.push(bytes[2]);
    buffer.push(bytes[3]);
    assert(buffer@ =~= framed_with(payload@, checksum));
    buffer
}

/// Appends to a copy of `payload` its CRC-32 checksum.
pub fn frame(payload: &[u8]) -> (buffer: Vec<u8>)
    ensures
        buffer@ == framed(payload@),
{
    frame_with(payload, crc32_of(payload))
}

/// Splits `buffer` into its payload and the checksum stored behind it, without
/// judging the checksum. `None` exactly where `buffer` is shorter than a checksum.
pub fn split_frame(buffer: &[u8]) -> (parts: Option<(Vec<u8>, u32)>)
    ensures
        parts is None <==> buffer@.len() < 4,
        parts matches Some((payload, checksum)) ==> payload@ == frame_payload(buffer@) && checksum
            == frame_checksum(buffer@),
{
    let len: usize = buffer.len();
    if len < CHECKSUM_LEN {
        return None;
    }
    let payload: Vec<u8> = slice_to_vec(slice_subrange(buffer, 0, len - CHECKSUM_LEN));
    let checksum: u32 = checksum_value(slice_subrange(buffer, len - CHECKSUM_LEN, len));
    Some((payload, checksum))
}

/// The payload of `buffer` and the checksum stored behind it, once the checksum has
/// been found to be that of the payload. Fails with `TooShort` exactly where
/// `buffer` is shorter than a checksum, and with `ChecksumMismatch` exactly where
/// the stored checksum is not the CRC-32 of the payload.
pub fn unframe(buffer: &[u8]) -> (parts: Result<(Vec<u8>, u32), CodecError>)
    ensures
        match parts {
            Ok((payload, checksum)) => unframed(buffer@) == Ok::<(Seq<u8>, u32), CodecError>(
                (payload@, checksum),
            ),
            Err(error) => unframed(buffer@) == Err::<(Seq<u8>, u32), CodecError>(error),
        },
{
    match split_frame(buffer) {
        None => Err(CodecError::TooShort),
        Some((payload, checksum)) => {
            if crc32_of(payload.as_slice()) != checksum {
                Err(CodecError::ChecksumMismatch)
            } else {
                Ok((payload, checksum))
            }
        },
    }
}

} // verus!
