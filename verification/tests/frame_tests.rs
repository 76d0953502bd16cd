use benchserv::frame::{decode_len, encode_len};

#[test]
fn header_encodes_little_endian() {
    assert_eq!(encode_len(0), [0; 8]);
    assert_eq!(encode_len(1), [1, 0, 0, 0, 0, 0, 0, 0]);
    assert_eq!(encode_len(1024), [0, 4, 0, 0, 0, 0, 0, 0]);
    assert_eq!(
        encode_len(0x0102030405060708),
        [8, 7, 6, 5, 4, 3, 2, 1]
    );
    assert_eq!(encode_len(u64::MAX), [0xff; 8]);
}

#[test]
fn header_decodes_little_endian() {
    assert_eq!(decode_len(&[0; 8]), 0);
    assert_eq!(decode_len(&[1, 0, 0, 0, 0, 0, 0, 0]), 1);
    assert_eq!(decode_len(&[8, 7, 6, 5, 4, 3, 2, 1]), 0x0102030405060708);
    assert_eq!(decode_len(&[0xff; 8]), u64::MAX);
}

#[test]
fn header_round_trips() {
    for len in [0u64, 1, 255, 256, 65_535, 1 << 32, u64::MAX - 1, u64::MAX] {
        assert_eq!(decode_len(&encode_len(len)), len);
    }
    // The encoding is canonical: decoding then re-encoding gives the same
    // bytes back.
    let header = [9, 0, 0, 2, 0, 0, 0, 7];
    assert_eq!(encode_len(decode_len(&header)), header);
    // It matches the platform's own little-endian byte order.
    assert_eq!(encode_len(123_456_789), 123_456_789u64.to_le_bytes());
    assert_eq!(decode_len(&987_654_321u64.to_le_bytes()), 987_654_321);
}
