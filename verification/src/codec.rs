//! The codec: encoding, decoding, and the two verifications that need no seed.

use crate::alphabet::{alphabet_from_digest, is_alphabet, shuffled};
use crate::b64::{
    base64_bytes, base64_len, base64_text, lemma_bytes_of_text, lemma_text_symbols,
};
use crate::compression::{compress, decompress, is_packed, unpacked, CompressionAlgorithm};
use crate::error::{outcome, CodecError};
use crate::frame::{frame, framed, unframe, unframed};
use crate::primitives::{
    base64_decode, base64_encode, crc32, crc32_of, lz4_bound, sha256, sha256_digest,
    LZ4_MAX_INPUT,
};
use crate::substitution::{
    lenient_text, restore, restore_leniently, restored, substitute, substituted,
};
use crate::theorems::theorem_decode_inverts_encode;
use vstd::prelude::*;

verus! {

/// The alphabet that `seed` selects: the shuffle driven by the SHA-256 digest of
/// `seed`, run for all 64 steps.
pub open spec fn derived_alphabet(seed: Seq<u8>) -> Seq<u8> {
    shuffled(sha256(seed), 64)
}

/// The encoded form of `payload` under `alphabet`: the payload is framed with its
/// checksum, the frame is written as base64 text, and the text is substituted.
pub open spec fn encoded_with(payload: Seq<u8>, alphabet: Seq<u8>) -> Seq<u8> {
    substituted(base64_text(framed(payload)), alphabet)
}

/// Whether `encoded` is an encoding of `data` under `seed` and `algorithm`: the
/// encoded form, under the alphabet of `seed`, of a payload that `data` may take
/// under `algorithm`.
pub open spec fn is_encoding(
    encoded: Seq<u8>,
    data: Seq<u8>,
    seed: Seq<u8>,
    algorithm: CompressionAlgorithm,
) -> bool {
    exists|payload: Seq<u8>| #[trigger]
        is_packed(algorithm, data, payload) && encoded == encoded_with(
            payload,
            derived_alphabet(seed),
        )
}

/// The inputs that the machine can encode: LZ4 takes at most `LZ4_MAX_INPUT` bytes,
/// and the length of the text has to fit in `usize`.
pub open spec fn can_encode(len: nat, algorithm: CompressionAlgorithm) -> bool {
    if algorithm is Lz4 {
        len <= LZ4_MAX_INPUT
    } else {
        base64_len(len + 4) <= usize::MAX
    }
}

/// The payload that `encoded` carries under `alphabet`, once the substitution has
/// been undone, the text decoded, and the checksum found to match. The stages fail
/// in this order: `InvalidCharacter`, `InvalidBase64`, `TooShort`,
/// `ChecksumMismatch`.
pub open spec fn verified_payload(encoded: Seq<u8>, alphabet: Seq<u8>) -> Result<
    Seq<u8>,
    CodecError,
> {
    match restored(encoded, alphabet) {
        None => Err(CodecError::InvalidCharacter),
        Some(text) => match base64_bytes(text) {
            None => Err(CodecError::InvalidBase64),
            Some(buffer) => match unframed(buffer) {
                Ok(parts) => Ok(parts.0),
                Err(error) => Err(error),
            },
        },
    }
}

/// The data that `encoded` carries under `alphabet` and `algorithm`: the verified
/// payload, unpacked. An invalid block fails with `DecompressionError`.
pub open spec fn decoded_with(
    encoded: Seq<u8>,
    alphabet: Seq<u8>,
    algorithm: CompressionAlgorithm,
) -> Result<Seq<u8>, CodecError> {
    match verified_payload(encoded, alphabet) {
        Err(error) => Err(error),
        Ok(payload) => match unpacked(algorithm, payload) {
            Some(data) => Ok(data),
            None => Err(CodecError::DecompressionError),
        },
    }
}

/// The data that `encoded` carries under `seed` and `algorithm`.
pub open spec fn decoded(
    encoded: Seq<u8>,
    seed: Seq<u8>,
    algorithm: CompressionAlgorithm,
) -> Result<Seq<u8>, CodecError> {
    decoded_with(encoded, derived_alphabet(seed), algorithm)
}

/// Whether `encoded`, read leniently as canonical base64 text, holds a buffer whose
/// checksum matches.
pub open spec fn partially_valid(encoded: Seq<u8>) -> bool {
    match base64_bytes(lenient_text(encoded)) {
        Some(buffer) => unframed(buffer) is Ok,
        None => false,
    }
}

/// Whether `len` bytes can be encoded under `algorithm` on this machine.
pub fn encodable(len: usize, algorithm: CompressionAlgorithm) -> (yes: bool)
    ensures
        yes == can_encode(len as nat, algorithm),
{
    match algorithm {
        CompressionAlgorithm::Lz4 => len <= LZ4_MAX_INPUT,
        _ => match len.checked_add(6) {
            Some(padded) => (padded / 3).checked_mul(4).is_some(),
            None => false,
        },
    }
}

/// Derives the alphabet of `seed`. Any seed will do, the empty one too, and the
/// result is always a permutation of the canonical alphabet.
pub fn derive_alphabet(seed: &[u8]) -> (alphabet: [u8; 64])
    ensures
        alphabet@ == derived_alphabet(seed@),
        is_alphabet(alphabet@),
{
    let digest: [u8; 32] = sha256_digest(seed);
    alphabet_from_digest(&digest)
}

/// Frames `payload`, writes the frame as base64 text and substitutes the text
/// through `alphabet`.
pub fn encode_with(payload: &[u8], alphabet: &[u8; 64]) -> (encoded: Vec<u8>)
    requires
        base64_len(payload@.len() + 4) <= usize::MAX,
    ensures
        encoded@ == encoded_with(payload@, alphabet@),
{
    let buffer: Vec<u8> = frame(payload);
    let text: Vec<u8> = base64_encode(buffer.as_slice());
    proof {
        lemma_text_symbols(buffer@);
    }
    substitute(text.as_slice(), alphabet)
}

/// Encodes `data` under the alphabet of `seed`, after the transform of `algorithm`.
/// Encoding never fails, and what it returns decodes to `data`. Where `algorithm` is
/// not `Lz4` the result is a function of the arguments; under `Lz4` it is the
/// encoded form of whichever block the compressor made of `data`.
pub fn encode(data: &[u8], seed: &[u8], algorithm: CompressionAlgorithm) -> (encoded: Vec<u8>)
    requires
        can_encode(data@.len(), algorithm),
    ensures
        is_encoding(encoded@, data@, seed@, algorithm),
        !(algorithm is Lz4) ==> encoded@ == encoded_with(data@, derived_alphabet(seed@)),
        decoded(encoded@, seed@, algorithm) == Ok::<Seq<u8>, CodecError>(data@),
{
    let alphabet: [u8; 64] = derive_alphabet(seed);
    let payload: Vec<u8> = compress(data, algorithm);
    assert(base64_len((payload@.len() + 4) as nat) <= usize::MAX) by {
        if algorithm is Lz4 {
            assert(payload@.len() <= lz4_bound(data@.len()));
            assert(usize::MAX >= 0xffff_ffff);
        }
    }
    let encoded: Vec<u8> = encode_with(payload.as_slice(), &alphabet);
    proof {
        assert(is_packed(algorithm, data@, payload@));
        theorem_decode_inverts_encode(data@, seed@, algorithm, encoded@);
    }
    encoded
}

/// Encodes `data` as `encode` does, on every input: where the machine cannot encode
/// `data` under `algorithm`, the answer is `None`.
pub fn try_encode(data: &[u8], seed: &[u8], algorithm: CompressionAlgorithm) -> (encoded: Option<
    Vec<u8>,
>)
    ensures
        encoded is Some <==> can_encode(data@.len(), algorithm),
        encoded matches Some(text) ==> is_encoding(text@, data@, seed@, algorithm),
        encoded matches Some(text) ==> !(algorithm is Lz4) ==> text@ == encoded_with(
            data@,
            derived_alphabet(seed@),
        ),
        encoded matches Some(text) ==> decoded(text@, seed@, algorithm) == Ok::<
            Seq<u8>,
            CodecError,
        >(data@),
{
    if encodable(data.len(), algorithm) {
        Some(encode(data, seed, algorithm))
    } else {
        None
    }
}

/// Decodes `encoded` under `alphabet`: undoes the substitution, decodes the base64
/// text, checks the frame and reverses the transform of `algorithm`.
pub fn decode_with(encoded: &[u8], alphabet: &[u8; 64], algorithm: CompressionAlgorithm) -> (data:
    Result<Vec<u8>, CodecError>)
    ensures
        outcome(data) == decoded_with(encoded@, alphabet@, algorithm),
{
    let text: Vec<u8> = match restore(encoded, alphabet) {
        Ok(text) => text,
        Err(error) => {
            return Err(error);
        },
    };
    let buffer: Vec<u8> = match base64_decode(text.as_slice()) {
        Ok(buffer) => {
            proof {
                lemma_bytes_of_text(buffer@);
            }
            buffer
        },
        Err(_) => {
            return Err(CodecError::InvalidBase64);
        },
    };
    let payload: Vec<u8> = match unframe(buffer.as_slice()) {
        Ok((payload, _)) => payload,
        Err(error) => {
            return Err(error);
        },
    };
    decompress(payload, algorithm)
}

/// Decodes `encoded` under the alphabet of `seed`. Fails at the first stage that
/// rejects its input, with the error of that stage.
pub fn decode(encoded: &[u8], seed: &[u8], algorithm: CompressionAlgorithm) -> (data: Result<
    Vec<u8>,
    CodecError,
>)
    ensures
        outcome(data) == decoded(encoded@, seed@, algorithm),
{
    let alphabet: [u8; 64] = derive_alphabet(seed);
    decode_with(encoded, &alphabet, algorithm)
}

/// Checks `encoded` without a seed, as if no substitution had been applied: reads it
/// leniently as canonical base64 text and tells whether the buffer behind it holds a
/// matching checksum. Never fails: whatever goes wrong makes the answer `false`.
pub fn partial_verify(encoded: &[u8]) -> (valid: bool)
    ensures
        valid == partially_valid(encoded@),
{
    let text: Vec<u8> = restore_leniently(encoded);
    match base64_decode(text.as_slice()) {
        Ok(buffer) => {
            proof {
                lemma_bytes_of_text(buffer@);
            }
            unframe(buffer.as_slice()).is_ok()
        },
        Err(_) => false,
    }
}

/// Whether `checksum` is the CRC-32 of `data`. This is a plain comparison of
/// checksums and proves nothing more.
pub fn zk_checksum_verify(data: &[u8], checksum: u32) -> (valid: bool)
    ensures
        valid == (crc32(data@) == checksum),
{
    crc32_of(data) == checksum
}

} // verus!
