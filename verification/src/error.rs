//! Why decoding fails.

use vstd::prelude::*;

verus! {

/// The reason for which an encoded text is rejected. Decoding stops at the first
/// stage that fails, so each text has at most one.
#[derive(Clone, Copy, Debug, PartialEq, Eq, Structural)]
pub enum CodecError {
    /// A byte of the input is neither `=` nor a member of the alphabet in use.
    InvalidCharacter,
    /// The text behind the substitution is not valid base64.
    InvalidBase64,
    /// The decoded buffer is shorter than a checksum.
    TooShort,
    /// The checksum stored in the buffer is not the checksum of its payload.
    ChecksumMismatch,
    /// The payload is not a valid compressed block.
    DecompressionError,
}

impl CodecError {
    /// The message that goes with the error.
    pub open spec fn message_text(self) -> Seq<char> {
        match self {
            CodecError::InvalidCharacter => "Invalid character"@,
            CodecError::InvalidBase64 => "Invalid base64"@,
            CodecError::TooShort => "Data too short"@,
            CodecError::ChecksumMismatch => "Checksum mismatch"@,
            CodecError::DecompressionError => "Decompression LZ4 failed"@,
        }
    }

    /// The message that goes with the error.
    pub fn message(self) -> (text: &'static str)
        ensures
            text@ == self.message_text(),
    {
        match self {
            CodecError::InvalidCharacter => "Invalid character",
            CodecError::InvalidBase64 => "Invalid base64",
            CodecError::TooShort => "Data too short",
            CodecError::ChecksumMismatch => "Checksum mismatch",
            CodecError::DecompressionError => "Decompression LZ4 failed",
        }
    }
}

/// The result of a decoding step, with the bytes as a sequence.
pub open spec fn outcome(result: Result<Vec<u8>, CodecError>) -> Result<Seq<u8>, CodecError> {
    match result {
        Ok(bytes) => Ok(bytes@),
        Err(error) => Err(error),
    }
}

} // verus!
