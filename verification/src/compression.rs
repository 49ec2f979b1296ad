//! The transform applied to the data before it is framed.

use crate::error::{outcome, CodecError};
use crate::primitives::{lz4_bound, lz4_compress, lz4_decompress, lz4_decompressed, LZ4_MAX_INPUT};
use vstd::pervasive::unreached;
use vstd::prelude::*;
use vstd::slice::slice_to_vec;

verus! {

/// Selects the transform. `Identity` leaves the data as it is and `Lz4` compresses it as
/// one LZ4 block behind a 4-byte length prefix. `Huffman` and `Brotli` are reserved:
/// no transform stands behind them yet, and they leave the data as it is, exactly as
/// `Identity` does. `is_implemented` tells the two kinds apart.
#[derive(Clone, Copy, Debug, PartialEq, Eq, Structural)]
pub enum CompressionAlgorithm {
    Identity,
    Huffman,
    Lz4,
    Brotli,
}

impl CompressionAlgorithm {
    /// Whether a transform of that name stands behind the variant. A reserved variant
    /// passes the data through.
    pub open spec fn implemented(self) -> bool {
        self is Identity || self is Lz4
    }

    /// The name of the variant, as it is written in a request.
    pub open spec fn name_text(self) -> Seq<char> {
        match self {
            CompressionAlgorithm::Identity => "none"@,
            CompressionAlgorithm::Huffman => "huffman"@,
            CompressionAlgorithm::Lz4 => "lz4"@,
            CompressionAlgorithm::Brotli => "brotli"@,
        }
    }

    /// The variant that `name` names. There are four names, all lower case, and no
    /// default: any other text names nothing.
    pub open spec fn named(name: Seq<char>) -> Option<CompressionAlgorithm> {
        if name == "none"@ {
            Some(CompressionAlgorithm::Identity)
        } else if name == "huffman"@ {
            Some(CompressionAlgorithm::Huffman)
        } else if name == "lz4"@ {
            Some(CompressionAlgorithm::Lz4)
        } else if name == "brotli"@ {
            Some(CompressionAlgorithm::Brotli)
        } else {
            None
        }
    }

    /// Each variant is the one that its own name names.
    pub proof fn lemma_named_name(self)
        ensures
            Self::named(self.name_text()) == Some(self),
    {
        reveal_strlit("none");
        reveal_strlit("huffman");
        reveal_strlit("lz4");
        reveal_strlit("brotli");
        assert("none"@.len() == 4 && "huffman"@.len() == 7 && "lz4"@.len() == 3 && "brotli"@.len()
            == 6);
    }

    /// The name of the variant, as it is written in a request.
    pub fn name(self) -> (text: &'static str)
        ensures
            text@ == self.name_text(),
    {
        match self {
            CompressionAlgorithm::Identity => "none",
            CompressionAlgorithm::Huffman => "huffman",
            CompressionAlgorithm::Lz4 => "lz4",
            CompressionAlgorithm::Brotli => "brotli",
        }
    }

    /// The variant that `name` names; `None` for a text that is not one of the four
    /// names.
    pub fn from_name(name: &str) -> (algorithm: Option<CompressionAlgorithm>)
        ensures
            algorithm == Self::named(name@),
    {
        let name: String = name.to_owned();
        if name == "none".to_owned() {
            Some(CompressionAlgorithm::Identity)
        } else if name == "huffman".to_owned() {
            Some(CompressionAlgorithm::Huffman)
        } else if name == "lz4".to_owned() {
            Some(CompressionAlgorithm::Lz4)
        } else if name == "brotli".to_owned() {
            Some(CompressionAlgorithm::Brotli)
        } else {
            None
        }
    }

    /// Whether a transform of that name stands behind the variant.
    pub fn is_implemented(self) -> (yes: bool)
        ensures
            yes == self.implemented(),
    {
        match self {
            CompressionAlgorithm::Identity => true,
            CompressionAlgorithm::Lz4 => true,
            CompressionAlgorithm::Huffman => false,
            CompressionAlgorithm::Brotli => false,
        }
    }
}

/// Whether `payload` is a form that `data` may take under `algorithm`. Under `Lz4` it
/// is any block that decompresses to `data` and keeps within the bound that LZ4
/// gives for its output; which of them the compressor picks is not stated. Under the
/// other variants it is `data` itself.
pub open spec fn is_packed(algorithm: CompressionAlgorithm, data: Seq<u8>, payload: Seq<u8>) -> bool {
    if algorithm is Lz4 {
        lz4_decompressed(payload) == Some(data) && payload.len() <= lz4_bound(data.len())
    } else {
        payload == data
    }
}

/// The data that `payload` holds under `algorithm`, if `payload` is valid.
pub open spec fn unpacked(algorithm: CompressionAlgorithm, payload: Seq<u8>) -> Option<Seq<u8>> {
    if algorithm is Lz4 {
        lz4_decompressed(payload)
    } else {
        Some(payload)
    }
}

/// Applies the transform of `algorithm` to `data`. LZ4 takes no more than
/// `LZ4_MAX_INPUT` bytes.
pub fn compress(data: &[u8], algorithm: CompressionAlgorithm) -> (payload: Vec<u8>)
    requires
        algorithm is Lz4 ==> data@.len() <= LZ4_MAX_INPUT,
    ensures
        is_packed(algorithm, data@, payload@),
{
    match algorithm {
        CompressionAlgorithm::Lz4 => match lz4_compress(data) {
            Ok(block) => block,
            Err(_) => unreached(),
        },
        CompressionAlgorithm::Identity => slice_to_vec(data),
        CompressionAlgorithm::Brotli => slice_to_vec(data),
        CompressionAlgorithm::Huffman => slice_to_vec(data),
    }
}

/// Reverses the transform of `algorithm`. Fails with `DecompressionError` exactly
/// where `payload` is not a valid block.
pub fn decompress(payload: Vec<u8>, algorithm: CompressionAlgorithm) -> (data: Result<
    Vec<u8>,
    CodecError,
>)
    ensures
        outcome(data) == match unpacked(algorithm, payload@) {
            Some(bytes) => Ok::<Seq<u8>, CodecError>(bytes),
            None => Err(CodecError::DecompressionError),
        },
{
    match algorithm {
        CompressionAlgorithm::Lz4 => match lz4_decompress(payload.as_slice()) {
            Ok(bytes) => Ok(bytes),
            Err(_) => Err(CodecError::DecompressionError),
        },
        CompressionAlgorithm::Identity => Ok(payload),
        CompressionAlgorithm::Brotli => Ok(payload),
        CompressionAlgorithm::Huffman => Ok(payload),
    }
}

} // verus!
