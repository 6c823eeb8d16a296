use state_store::codec::{
    compress_block_list, decode_block_number, decode_felt, decompress_block_list,
    encode_block_number, encode_felt, CodecError,
};
use state_store::felt::Felt;

#[test]
fn block_number_encodes_big_endian() {
    assert_eq!(
        encode_block_number(0x0102030405060708),
        vec![1, 2, 3, 4, 5, 6, 7, 8]
    );
    assert_eq!(encode_block_number(0), vec![0; 8]);
    assert_eq!(encode_block_number(u64::MAX), vec![0xff; 8]);
    assert_eq!(encode_block_number(1), vec![0, 0, 0, 0, 0, 0, 0, 1]);
}

#[test]
fn block_number_round_trip() {
    for n in [0u64, 1, 255, 256, 0xdead_beef, u64::MAX] {
        let e = encode_block_number(n);
        assert_eq!(decode_block_number(&e), Ok(n));
    }
}

#[test]
fn block_number_decode_wrong_length() {
    assert_eq!(
        decode_block_number(&[1, 2, 3]),
        Err(CodecError::InvalidLength)
    );
    assert_eq!(decode_block_number(&[0; 9]), Err(CodecError::InvalidLength));
    assert_eq!(decode_block_number(&[]), Err(CodecError::InvalidLength));
}

#[test]
fn block_number_encoding_is_monotonic() {
    let pairs = [
        (0u64, 1u64),
        (1, 255),
        (255, 256),
        (256, 0x0100_0000),
        (0x0100_0000, u64::MAX - 1),
        (u64::MAX - 1, u64::MAX),
    ];
    for (a, b) in pairs {
        assert!(a < b);
        // Lexicographic byte comparison.
        assert!(encode_block_number(a) < encode_block_number(b));
    }
}

#[test]
fn felt_encodes_as_32_bytes() {
    let f = Felt::new(1, 2, 3, 4);
    let e = encode_felt(&f);
    assert_eq!(e.len(), 32);
    let mut expected = vec![0u8; 32];
    expected[7] = 1;
    expected[15] = 2;
    expected[23] = 3;
    expected[31] = 4;
    assert_eq!(e, expected);
}

#[test]
fn felt_round_trip() {
    let f = Felt::new(0x07ff_ffff_ffff_ffff, 5, 0, u64::MAX);
    let e = encode_felt(&f);
    assert_eq!(decode_felt(&e), Ok(f));
}

#[test]
fn felt_encoding_is_monotonic() {
    let a = Felt::new(0, 0, 0, 5);
    let b = Felt::new(0, 0, 1, 0);
    let c = Felt::new(0, 7, 0, 0);
    assert!(a.lt(&b) && b.lt(&c));
    assert!(encode_felt(&a) < encode_felt(&b));
    assert!(encode_felt(&b) < encode_felt(&c));
}

#[test]
fn felt_decode_wrong_length() {
    assert_eq!(decode_felt(&[0; 31]), Err(CodecError::InvalidLength));
    assert_eq!(decode_felt(&[0; 33]), Err(CodecError::InvalidLength));
}

#[test]
fn felt_decode_out_of_range_is_corrupted() {
    // 2^251 itself lies outside the field's range.
    let mut bytes = [0u8; 32];
    bytes[0] = 0x08;
    assert_eq!(decode_felt(&bytes), Err(CodecError::Corrupted));
    assert_eq!(decode_felt(&[0xff; 32]), Err(CodecError::Corrupted));
    // One less is in range.
    let mut bytes = [0xffu8; 32];
    bytes[0] = 0x07;
    assert!(decode_felt(&bytes).is_ok());
}

#[test]
fn block_list_compresses_with_count_prefix() {
    let e = compress_block_list(&vec![1u64, 2]);
    let mut expected = vec![0u8, 0, 0, 0, 0, 0, 0, 2];
    expected.extend_from_slice(&[0, 0, 0, 0, 0, 0, 0, 1]);
    expected.extend_from_slice(&[0, 0, 0, 0, 0, 0, 0, 2]);
    assert_eq!(e, expected);
}

#[test]
fn block_list_round_trip() {
    for l in [vec![], vec![7u64], vec![1, 5, 10], vec![u64::MAX, 0, 3]] {
        let e = compress_block_list(&l);
        assert_eq!(decompress_block_list(&e), Ok(l));
    }
}

#[test]
fn block_list_too_short_is_eof() {
    // Too short to hold the count.
    assert_eq!(
        decompress_block_list(&[0, 0, 0]),
        Err(CodecError::UnexpectedEof)
    );
    // Announces two elements, holds one.
    let mut e = vec![0u8, 0, 0, 0, 0, 0, 0, 2];
    e.extend_from_slice(&[0; 8]);
    assert_eq!(decompress_block_list(&e), Err(CodecError::UnexpectedEof));
}

#[test]
fn block_list_trailing_bytes_are_corrupted() {
    // Announces one element, holds one and a spare byte.
    let mut e = vec![0u8, 0, 0, 0, 0, 0, 0, 1];
    e.extend_from_slice(&[0; 9]);
    assert_eq!(decompress_block_list(&e), Err(CodecError::Corrupted));
}
