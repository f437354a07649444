use packstore::errors::Error;
use packstore::header::decode_header;
use packstore::header::decode_offset;
use packstore::header::encode_header;

#[test]
fn header_single_byte() {
    // 0x35 = 0011_0101: no continuation, tag 3, size 5.
    let bytes = vec![0x35u8];
    assert_eq!(decode_header(&bytes, 0, 1), Ok((3, 5, 1)));
}

#[test]
fn header_two_bytes() {
    // 0x95 = 1001_0101: continuation, tag 1, low size 5; then 0x01
    // contributes 1 << 4, so the size is 5 + 16 = 21.
    let bytes = vec![0x95u8, 0x01];
    assert_eq!(decode_header(&bytes, 0, 2), Ok((1, 21, 2)));
}

#[test]
fn header_round_trips() {
    let cases: Vec<(u8, u64)> = vec![
        (0, 0),
        (3, 15),
        (3, 16),
        (1, 127),
        (2, 123456789),
        (6, 300),
        (7, u64::MAX),
    ];
    for (tag, size) in cases {
        let enc = encode_header(tag, size);
        let n = enc.len();
        assert_eq!(decode_header(&enc, 0, n), Ok((tag, size, n)));
    }
}

#[test]
fn header_encoder_canonical_bytes() {
    assert_eq!(encode_header(3, 5), vec![0x35]);
    assert_eq!(encode_header(1, 21), vec![0x95, 0x01]);
    assert_eq!(encode_header(3, 16), vec![0xb0, 0x01]);
}

#[test]
fn header_truncated_is_corrupted() {
    // Continuation bit set on the only available byte.
    let bytes = vec![0x90u8];
    assert_eq!(decode_header(&bytes, 0, 1), Err(Error::CorruptedPackfile));
    // An empty window cannot hold a header at all.
    assert_eq!(decode_header(&bytes, 0, 0), Err(Error::CorruptedPackfile));
}

#[test]
fn header_ignores_bytes_past_window() {
    // The window ends after the first byte, which still asks for more.
    let bytes = vec![0x90u8, 0x01];
    assert_eq!(decode_header(&bytes, 0, 1), Err(Error::CorruptedPackfile));
}

#[test]
fn offset_single_byte() {
    assert_eq!(decode_offset(&[0x00u8], 0, 1), Ok((0, 1)));
    assert_eq!(decode_offset(&[0x7fu8], 0, 1), Ok((127, 1)));
}

#[test]
fn offset_bias_per_continuation() {
    // The offset rule adds one before each shift, so 0x80 0x00 is 128,
    // not 0, and 0x81 0x00 is 256.
    assert_eq!(decode_offset(&[0x80u8, 0x00], 0, 2), Ok((128, 2)));
    assert_eq!(decode_offset(&[0x81u8, 0x00], 0, 2), Ok((256, 2)));
    assert_eq!(decode_offset(&[0x80u8, 0x7f], 0, 2), Ok((255, 2)));
}

#[test]
fn offset_differs_from_header_size_rule() {
    // The same continuation byte pair under the header rule gives
    // 0 + (1 << 4) = 16 for the size bits, while the offset rule gives
    // (0 + 1) * 128 + 1 = 129: the two encodings must stay distinct.
    let bytes = vec![0x80u8, 0x01];
    assert_eq!(decode_offset(&bytes, 0, 2), Ok((129, 2)));
}

#[test]
fn offset_truncated_is_corrupted() {
    assert_eq!(decode_offset(&[0x80u8], 0, 1), Err(Error::CorruptedPackfile));
    assert_eq!(decode_offset(&[0x80u8, 0x80], 0, 2), Err(Error::CorruptedPackfile));
}
