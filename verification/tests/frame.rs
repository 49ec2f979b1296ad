use cyphersolbase::frame::{
    checksum_bytes, checksum_value, frame, frame_with, split_frame, unframe, CHECKSUM_LEN,
};
use cyphersolbase::CodecError;

#[test]
fn checksum_is_written_least_significant_byte_first() {
    assert_eq!(checksum_bytes(0x0102_0304), [4, 3, 2, 1]);
    assert_eq!(checksum_bytes(0), [0, 0, 0, 0]);
    assert_eq!(checksum_bytes(u32::MAX), [255, 255, 255, 255]);
    assert_eq!(checksum_bytes(0xCBF4_3926), [0x26, 0x39, 0xF4, 0xCB]);
}

#[test]
fn checksum_is_read_least_significant_byte_first() {
    assert_eq!(checksum_value(&[4, 3, 2, 1]), 0x0102_0304);
    assert_eq!(checksum_value(&[255, 255, 255, 255]), u32::MAX);
    for value in [0u32, 1, 255, 256, 65535, 65536, 0x00FF_FFFF, 0x0100_0000, 0x8000_0000] {
        assert_eq!(checksum_value(&checksum_bytes(value)), value);
        assert_eq!(checksum_bytes(value), value.to_le_bytes());
    }
}

#[test]
fn frame_appends_the_crc32() {
    assert_eq!(CHECKSUM_LEN, 4);
    assert_eq!(frame(b""), vec![0, 0, 0, 0]);
    assert_eq!(frame(b"123456789"), b"123456789\x26\x39\xF4\xCB".to_vec());
}

#[test]
fn frame_with_appends_what_it_is_given() {
    assert_eq!(frame_with(b"ab", 0x0102_0304), vec![b'a', b'b', 4, 3, 2, 1]);
    assert_eq!(frame_with(b"", 7), vec![7, 0, 0, 0]);
}

#[test]
fn split_frame_takes_the_last_four_bytes() {
    assert_eq!(split_frame(b""), None);
    assert_eq!(split_frame(&[1, 2, 3]), None);
    assert_eq!(split_frame(&[4, 3, 2, 1]), Some((Vec::new(), 0x0102_0304)));
    assert_eq!(split_frame(&[9, 8, 4, 3, 2, 1]), Some((vec![9, 8], 0x0102_0304)));
}

#[test]
fn unframe_checks_length_and_checksum() {
    assert_eq!(unframe(&[]), Err(CodecError::TooShort));
    assert_eq!(unframe(&[0, 0, 0]), Err(CodecError::TooShort));
    assert_eq!(unframe(&[0, 0, 0, 0]), Ok((Vec::new(), 0)));
    assert_eq!(unframe(&[1, 0, 0, 0]), Err(CodecError::ChecksumMismatch));
    assert_eq!(unframe(b"123456789\x26\x39\xF4\xCB"), Ok((b"123456789".to_vec(), 0xCBF4_3926)));
    assert_eq!(unframe(b"123456789\xCB\xF4\x39\x26"), Err(CodecError::ChecksumMismatch));
    assert_eq!(unframe(b"123456780\x26\x39\xF4\xCB"), Err(CodecError::ChecksumMismatch));
}

#[test]
fn unframe_undoes_frame() {
    for len in 0..50usize {
        let payload: Vec<u8> = (0..len).map(|i| (i * 29 + 1) as u8).collect();
        let (unframed, _) = unframe(&frame(&payload)).unwrap();
        assert_eq!(unframed, payload);
    }
}
