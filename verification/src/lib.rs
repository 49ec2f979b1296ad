//! A reversible obfuscating codec: bytes are optionally compressed, framed with a
//! CRC-32 checksum, base64-encoded, and finally substituted through a permutation of
//! the base64 alphabet that is derived from a seed.
//!
//! This is obfuscation with integrity checking, not encryption: the permutation is a
//! plain substitution over 64 symbols and CRC-32 is not a cryptographic checksum.

pub mod alphabet;
pub mod b64;
pub mod codec;
pub mod compression;
pub mod error;
pub mod frame;
pub mod primitives;
pub mod substitution;
pub mod theorems;

pub use codec::{
    decode, decode_with, derive_alphabet, encodable, encode, encode_with, partial_verify,
    try_encode, zk_checksum_verify,
};
pub use compression::CompressionAlgorithm;
pub use error::CodecError;
