//! What holds of the codec as a whole.

use crate::alphabet::{is_alphabet, lemma_shuffled_is_alphabet};
use crate::b64::{
    base64_bytes, base64_text, lemma_bytes_of_text, lemma_text_len, lemma_text_symbols,
};
use crate::codec::{decoded, derived_alphabet, encoded_with, is_encoding, verified_payload};
use crate::compression::{is_packed, unpacked, CompressionAlgorithm};
use crate::error::CodecError;
use crate::frame::{framed, lemma_framed_unframed, lemma_split_framed, lemma_unframed_framed};
use crate::primitives::{crc32, sha256};
use crate::substitution::{lemma_restored_substituted, lemma_substituted_restored, restored};
use vstd::prelude::*;

verus! {

/// Every seed selects a permutation of the canonical alphabet: 64 symbols, none
/// twice, none missing.
pub proof fn theorem_alphabet_is_permutation(seed: Seq<u8>)
    ensures
        is_alphabet(derived_alphabet(seed)),
{
    lemma_shuffled_is_alphabet(sha256(seed), 64);
}

/// The alphabet depends on the seed alone: two alphabets derived from one seed are
/// the same array.
pub proof fn theorem_alphabet_is_determined(seed: Seq<u8>, first: [u8; 64], second: [u8; 64])
    requires
        first@ == derived_alphabet(seed),
        second@ == derived_alphabet(seed),
    ensures
        first == second,
{
    assert(first =~= second);
}

/// Where the transform is not LZ4, the encoding depends on the arguments alone: two
/// encodings of the same data under the same seed are equal.
pub proof fn theorem_encoding_is_determined(
    data: Seq<u8>,
    seed: Seq<u8>,
    algorithm: CompressionAlgorithm,
    first: Seq<u8>,
    second: Seq<u8>,
)
    requires
        !(algorithm is Lz4),
        is_encoding(first, data, seed, algorithm),
        is_encoding(second, data, seed, algorithm),
    ensures
        first == second,
{
}

/// Under an alphabet, the encoded form of a payload carries that payload.
pub proof fn lemma_verified_encoded(payload: Seq<u8>, alphabet: Seq<u8>)
    requires
        is_alphabet(alphabet),
    ensures
        verified_payload(encoded_with(payload, alphabet), alphabet) == Ok::<Seq<u8>, CodecError>(
            payload,
        ),
{
    let buffer = framed(payload);
    let text = base64_text(buffer);
    lemma_text_symbols(buffer);
    lemma_restored_substituted(text, alphabet);
    lemma_bytes_of_text(buffer);
    lemma_unframed_framed(payload);
}

/// Under an alphabet, whatever carries a payload is the encoded form of that payload.
pub proof fn lemma_encoded_verified(encoded: Seq<u8>, alphabet: Seq<u8>)
    requires
        is_alphabet(alphabet),
        verified_payload(encoded, alphabet) is Ok,
    ensures
        encoded_with(verified_payload(encoded, alphabet)->Ok_0, alphabet) == encoded,
{
    let text = restored(encoded, alphabet).unwrap();
    let buffer = base64_bytes(text).unwrap();
    lemma_substituted_restored(encoded, alphabet);
    lemma_framed_unframed(buffer);
}

/// Decoding inverts encoding: every encoding of `data` under `seed` and `algorithm`
/// decodes, under the same seed and algorithm, to `data`. This holds for the empty
/// data and the empty seed too, and for every algorithm.
pub proof fn theorem_decode_inverts_encode(
    data: Seq<u8>,
    seed: Seq<u8>,
    algorithm: CompressionAlgorithm,
    encoded: Seq<u8>,
)
    requires
        is_encoding(encoded, data, seed, algorithm),
    ensures
        decoded(encoded, seed, algorithm) == Ok::<Seq<u8>, CodecError>(data),
{
    let alphabet = derived_alphabet(seed);
    let payload = choose|payload: Seq<u8>| #[trigger]
        is_packed(algorithm, data, payload) && encoded == encoded_with(payload, alphabet);
    theorem_alphabet_is_permutation(seed);
    lemma_verified_encoded(payload, alphabet);
}

/// Corruption is detected. Let `corrupted` differ from the encoded form of `payload`
/// in any way that keeps the length, a single changed byte for one. Then decoding
/// rejects it with `InvalidCharacter`, `InvalidBase64` or `ChecksumMismatch`,
/// whatever the algorithm. The one exception is a collision: `corrupted` is itself
/// the encoded form of another payload, checksum and all.
pub proof fn theorem_corruption_is_detected(
    payload: Seq<u8>,
    seed: Seq<u8>,
    algorithm: CompressionAlgorithm,
    corrupted: Seq<u8>,
)
    requires
        corrupted.len() == encoded_with(payload, derived_alphabet(seed)).len(),
        corrupted != encoded_with(payload, derived_alphabet(seed)),
    ensures
        match verified_payload(corrupted, derived_alphabet(seed)) {
            Err(error) => {
                &&& decoded(corrupted, seed, algorithm) == Err::<Seq<u8>, CodecError>(error)
                &&& (error == CodecError::InvalidCharacter || error == CodecError::InvalidBase64
                    || error == CodecError::ChecksumMismatch)
            },
            Ok(other) => other != payload && corrupted == encoded_with(
                other,
                derived_alphabet(seed),
            ),
        },
{
    let alphabet = derived_alphabet(seed);
    theorem_alphabet_is_permutation(seed);
    if verified_payload(corrupted, alphabet) is Ok {
        lemma_encoded_verified(corrupted, alphabet);
    } else if restored(corrupted, alphabet) is Some {
        let text = restored(corrupted, alphabet).unwrap();
        if base64_bytes(text) is Some {
            let buffer = base64_bytes(text).unwrap();
            lemma_text_len(buffer);
            lemma_text_len(framed(payload));
            lemma_split_framed(payload, crc32(payload));
            assert(buffer.len() >= 4);
        }
    }
}

/// A decoded result is never silently wrong: where decoding succeeds, the input was
/// the encoded form of a payload that holds exactly the data returned.
pub proof fn theorem_decoded_is_encoded(
    encoded: Seq<u8>,
    seed: Seq<u8>,
    algorithm: CompressionAlgorithm,
)
    requires
        decoded(encoded, seed, algorithm) is Ok,
    ensures
        exists|payload: Seq<u8>|
            unpacked(algorithm, payload) == Some(
                decoded(encoded, seed, algorithm)->Ok_0,
            ) && encoded == #[trigger] encoded_with(payload, derived_alphabet(seed)),
{
    let alphabet = derived_alphabet(seed);
    theorem_alphabet_is_permutation(seed);
    lemma_encoded_verified(encoded, alphabet);
    let payload = verified_payload(encoded, alphabet)->Ok_0;
    assert(encoded == encoded_with(payload, alphabet));
}

} // verus!
