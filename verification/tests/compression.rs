use cyphersolbase::compression::{compress, decompress};
use cyphersolbase::{CodecError, CompressionAlgorithm};

#[test]
fn identity_and_reserved_algorithms_pass_data_through() {
    for algorithm in [
        CompressionAlgorithm::Identity,
        CompressionAlgorithm::Huffman,
        CompressionAlgorithm::Brotli,
    ] {
        assert_eq!(compress(b"some data", algorithm), b"some data".to_vec());
        assert_eq!(decompress(b"some data".to_vec(), algorithm), Ok(b"some data".to_vec()));
        assert_eq!(compress(b"", algorithm), Vec::<u8>::new());
    }
}

#[test]
fn lz4_block_starts_with_the_length() {
    let data = vec![b'a'; 300];
    let block = compress(&data, CompressionAlgorithm::Lz4);
    assert_eq!(&block[..4], &[44, 1, 0, 0]);
    assert!(block.len() < data.len());
    assert_eq!(decompress(block, CompressionAlgorithm::Lz4), Ok(data));
}

#[test]
fn lz4_round_trips_empty_data() {
    let block = compress(b"", CompressionAlgorithm::Lz4);
    assert_eq!(&block[..4], &[0, 0, 0, 0]);
    assert_eq!(decompress(block, CompressionAlgorithm::Lz4), Ok(Vec::new()));
}

#[test]
fn lz4_keeps_within_its_bound() {
    for len in [0usize, 1, 10, 254, 255, 256, 1000, 4096] {
        let data: Vec<u8> = (0..len).map(|i| (i * i * 31 + i / 7) as u8).collect();
        let block = compress(&data, CompressionAlgorithm::Lz4);
        assert!(block.len() <= len + len / 255 + 20);
        assert_eq!(decompress(block, CompressionAlgorithm::Lz4), Ok(data));
    }
}

#[test]
fn lz4_rejects_invalid_blocks() {
    let lz4 = CompressionAlgorithm::Lz4;
    assert_eq!(decompress(Vec::new(), lz4), Err(CodecError::DecompressionError));
    assert_eq!(decompress(vec![1, 2, 3], lz4), Err(CodecError::DecompressionError));
    assert_eq!(decompress(vec![5, 0, 0, 0], lz4), Err(CodecError::DecompressionError));
    assert_eq!(
        decompress(vec![0xff, 0xff, 0xff, 0xff, 0], lz4),
        Err(CodecError::DecompressionError)
    );
    assert_eq!(
        decompress(vec![2, 0, 0, 0, 0x50, b'h', b'e', b'l', b'l', b'o'], lz4),
        Err(CodecError::DecompressionError)
    );
    assert_eq!(
        decompress(vec![5, 0, 0, 0, 0x50, b'h', b'e', b'l', b'l', b'o'], lz4),
        Ok(b"hello".to_vec())
    );
}

#[test]
fn algorithms_have_four_names() {
    assert_eq!(CompressionAlgorithm::from_name("none"), Some(CompressionAlgorithm::Identity));
    assert_eq!(CompressionAlgorithm::from_name("huffman"), Some(CompressionAlgorithm::Huffman));
    assert_eq!(CompressionAlgorithm::from_name("lz4"), Some(CompressionAlgorithm::Lz4));
    assert_eq!(CompressionAlgorithm::from_name("brotli"), Some(CompressionAlgorithm::Brotli));
}

#[test]
fn unknown_names_name_nothing() {
    for name in ["", "None", "LZ4", "lz4 ", "gzip", "identity", "zstd", "brotl", "nonee"] {
        assert_eq!(CompressionAlgorithm::from_name(name), None);
    }
}

#[test]
fn names_lead_back_to_their_algorithm() {
    for algorithm in [
        CompressionAlgorithm::Identity,
        CompressionAlgorithm::Huffman,
        CompressionAlgorithm::Lz4,
        CompressionAlgorithm::Brotli,
    ] {
        assert_eq!(CompressionAlgorithm::from_name(algorithm.name()), Some(algorithm));
    }
    assert_eq!(CompressionAlgorithm::Identity.name(), "none");
    assert_eq!(CompressionAlgorithm::Lz4.name(), "lz4");
}

#[test]
fn only_identity_and_lz4_are_implemented() {
    assert!(CompressionAlgorithm::Identity.is_implemented());
    assert!(CompressionAlgorithm::Lz4.is_implemented());
    assert!(!CompressionAlgorithm::Huffman.is_implemented());
    assert!(!CompressionAlgorithm::Brotli.is_implemented());
}

#[test]
fn errors_have_messages() {
    assert_eq!(CodecError::InvalidCharacter.message(), "Invalid character");
    assert_eq!(CodecError::InvalidBase64.message(), "Invalid base64");
    assert_eq!(CodecError::TooShort.message(), "Data too short");
    assert_eq!(CodecError::ChecksumMismatch.message(), "Checksum mismatch");
    assert_eq!(CodecError::DecompressionError.message(), "Decompression LZ4 failed");
}
