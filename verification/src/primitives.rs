//! The primitives that the codec builds on and does not implement itself: SHA-256,
//! CRC-32, the standard base64 engine and LZ4 block compression. Each is called
//! through one function of this module, whose contract is taken on trust.

use crate::b64::{base64_len, base64_text};
use ::base64::engine::general_purpose;
use ::base64::Engine;
use sha2::{Digest, Sha256};
use vstd::prelude::*;

verus! {

/// The error of the base64 engine. Nothing is read from it.
#[verifier::external_type_specification]
#[verifier::external_body]
pub struct ExBase64DecodeError(::base64::DecodeError);

/// The error of the LZ4 block functions. Nothing is read from it.
#[verifier::external_type_specification]
#[verifier::external_body]
pub struct ExIoError(std::io::Error);

/// The SHA-256 digest of `message`.
pub uninterp spec fn sha256(message: Seq<u8>) -> Seq<u8>;

/// The CRC-32 checksum (IEEE 802.3) of `data`.
pub uninterp spec fn crc32(data: Seq<u8>) -> u32;

/// What LZ4 block decompression makes of `block`, a compressed block behind its
/// 4-byte length prefix; `None` where it rejects the block.
pub uninterp spec fn lz4_decompressed(block: Seq<u8>) -> Option<Seq<u8>>;

/// The largest input that LZ4 compresses.
pub const LZ4_MAX_INPUT: usize = 0x7E00_0000;

/// The most that LZ4 makes of `n` bytes, length prefix included.
pub open spec fn lz4_bound(n: nat) -> nat {
    n + n / 255 + 20
}

/// Calls `sha2::Sha256` (`new`, `update`, `finalize`) on `message`. Trusted: the 32
/// bytes returned are the SHA-256 digest of `message`, the same for the same input.
#[verifier::external_body]
pub(crate) fn sha256_digest(message: &[u8]) -> (digest: [u8; 32])
    ensures
        digest@ == sha256(message@),
{
    let mut hasher = Sha256::new();
    hasher.update(message);
    hasher.finalize().into()
}

/// Calls `crc32fast::Hasher` (`new`, `update`, `finalize`) on `data`. Trusted: the
/// value returned is the CRC-32 of `data`, the same for the same input.
#[verifier::external_body]
pub(crate) fn crc32_of(data: &[u8]) -> (checksum: u32)
    ensures
        checksum == crc32(data@),
{
    let mut hasher = crc32fast::Hasher::new();
    hasher.update(data);
    hasher.finalize()
}

/// Calls `encode` of `base64::engine::general_purpose::STANDARD`. Trusted: the engine
/// writes standard base64 with padding, which is what `base64_text` defines. The
/// engine panics where the length of the text overflows `usize`; `requires` keeps
/// such input out.
#[verifier::external_body]
pub(crate) fn base64_encode(bytes: &[u8]) -> (text: Vec<u8>)
    requires
        base64_len(bytes@.len()) <= usize::MAX,
    ensures
        text@ == base64_text(bytes@),
{
    general_purpose::STANDARD.encode(bytes).into_bytes()
}

/// Calls `decode` of `base64::engine::general_purpose::STANDARD`. Trusted: the engine
/// is strict (canonical padding required, no spare bits allowed), so it returns
/// `bytes` only for the text that `bytes` encodes to, and an error only for a text
/// that nothing encodes to.
#[verifier::external_body]
pub(crate) fn base64_decode(text: &[u8]) -> (decoded: Result<Vec<u8>, ::base64::DecodeError>)
    ensures
        decoded matches Ok(bytes) ==> base64_text(bytes@) == text@,
        decoded is Err ==> forall|bytes: Seq<u8>| base64_text(bytes) != text@,
{
    general_purpose::STANDARD.decode(text)
}

/// Calls `lz4::block::compress` in its default mode, with the length prefix.
/// Trusted: it fails only on input above `LZ4_MAX_INPUT`; what it returns
/// decompresses to `data`, and is no longer than `lz4_bound` allows. The bytes
/// themselves are not stated: they may differ from one machine to another.
#[verifier::external_body]
pub(crate) fn lz4_compress(data: &[u8]) -> (compressed: Result<Vec<u8>, std::io::Error>)
    ensures
        data@.len() <= LZ4_MAX_INPUT ==> compressed is Ok,
        compressed matches Ok(block) ==> lz4_decompressed(block@) == Some(data@) && block@.len()
            <= lz4_bound(data@.len()),
{
    ::lz4::block::compress(data, Default::default(), true)
}

/// Calls `lz4::block::decompress`, which reads the length from the prefix. Trusted:
/// its result depends on `block` alone.
#[verifier::external_body]
pub(crate) fn lz4_decompress(block: &[u8]) -> (data: Result<Vec<u8>, std::io::Error>)
    ensures
        data matches Ok(bytes) ==> lz4_decompressed(block@) == Some(bytes@),
        data is Err ==> lz4_decompressed(block@) is None,
{
    ::lz4::block::decompress(block, None)
}

} // verus!
