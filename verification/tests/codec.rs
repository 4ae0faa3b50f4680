use rdb::decoder::common::utils::{
    read_blob, read_exact, read_length, read_length_with_encoding, read_sequence, verify_magic,
    verify_version,
};
use rdb::numbers::{decimal_bytes, decimal_u64, int_to_vec};
use rdb::source::ByteSource;
use rdb::types::RdbError;

fn source(bytes: &[u8]) -> ByteSource {
    ByteSource::new(bytes.to_vec())
}

fn encode_length(n: u32) -> Vec<u8> {
    if n < 64 {
        vec![n as u8]
    } else if n < 16384 {
        vec![0x40 | (n >> 8) as u8, (n & 0xff) as u8]
    } else {
        let mut out = vec![0x80];
        out.extend_from_slice(&n.to_be_bytes());
        out
    }
}

#[test]
fn test_read_length() {
    assert_eq!(
        (0, false),
        read_length_with_encoding(&mut ByteSource::new(vec![0x0])).unwrap()
    );

    assert_eq!(
        (16383, false),
        read_length_with_encoding(&mut ByteSource::new(vec![0x7f, 0xff])).unwrap()
    );

    assert_eq!(
        (4294967295, false),
        read_length_with_encoding(&mut ByteSource::new(vec![0x80, 0xff, 0xff, 0xff, 0xff]))
            .unwrap()
    );

    assert_eq!(
        (0, true),
        read_length_with_encoding(&mut ByteSource::new(vec![0xC0])).unwrap()
    );

    assert_eq!(
        16383,
        read_length(&mut ByteSource::new(vec![0x7f, 0xff])).unwrap()
    );
}

#[test]
fn lib_test_read_blob() {
    assert_eq!(
        vec![0x61, 0x62, 0x63, 0x64],
        read_blob(&mut ByteSource::new(vec![4, 0x61, 0x62, 0x63, 0x64])).unwrap()
    );
}

#[test]
fn lib_test_verify_version() {
    assert_eq!(
        (),
        verify_version(&mut ByteSource::new(vec![0x30, 0x30, 0x30, 0x33])).unwrap()
    );

    match verify_version(&mut ByteSource::new(vec![0x30, 0x30, 0x30, 0x3a])) {
        Ok(_) => assert!(false),
        Err(_) => assert!(true),
    }
}

#[test]
fn lib_test_verify_magic() {
    assert_eq!(
        (),
        verify_magic(&mut ByteSource::new(vec![0x52, 0x45, 0x44, 0x49, 0x53])).unwrap()
    );

    match verify_magic(&mut ByteSource::new(vec![0x51, 0x0, 0x0, 0x0, 0x0])) {
        Ok(_) => assert!(false),
        Err(_) => assert!(true),
    }
}

#[test]
fn utils_test_read_blob() {
    assert_eq!(
        vec![0x61, 0x62, 0x63, 0x64],
        read_blob(&mut ByteSource::new(vec![4, 0x61, 0x62, 0x63, 0x64])).unwrap()
    );
}

#[test]
fn utils_test_verify_version() {
    // Valid version "0003" should succeed
    assert_eq!(
        (),
        verify_version(&mut ByteSource::new(vec![0x30, 0x30, 0x30, 0x33])).unwrap()
    );

    // Invalid version "000:" should fail
    let result = verify_version(&mut ByteSource::new(vec![0x30, 0x30, 0x30, 0x3a]));
    assert!(result.is_err());
}

#[test]
fn utils_test_verify_magic() {
    assert_eq!(
        (),
        verify_magic(&mut ByteSource::new(vec![0x52, 0x45, 0x44, 0x49, 0x53])).unwrap()
    );

    match verify_magic(&mut ByteSource::new(vec![0x51, 0x0, 0x0, 0x0, 0x0])) {
        Ok(_) => assert!(false),
        Err(_) => assert!(true),
    }
}

#[test]
fn read_length_leaves_the_position_behind_the_prefix() {
    let cases: Vec<(Vec<u8>, (u32, bool), usize)> = vec![
        (vec![0x0], (0, false), 1),
        (vec![0x7f, 0xff], (16383, false), 2),
        (vec![0x80, 0xff, 0xff, 0xff, 0xff], (4294967295, false), 5),
        (vec![0xC0], (0, true), 1),
    ];
    for (bytes, expected, position) in cases {
        let mut input = ByteSource::new(bytes);
        assert_eq!(expected, read_length_with_encoding(&mut input).unwrap());
        assert_eq!(position, input.position());
    }
}

#[test]
fn length_round_trip_at_the_class_boundaries() {
    for n in [0u32, 63, 64, 16383, 16384, u32::MAX] {
        let mut bytes = encode_length(n);
        let prefix = bytes.len();
        bytes.extend_from_slice(&[0xAA, 0xBB]);
        let mut input = ByteSource::new(bytes);
        assert_eq!((n, false), read_length_with_encoding(&mut input).unwrap());
        assert_eq!(prefix, input.position());
    }
}

#[test]
fn length_of_the_third_class_is_big_endian() {
    assert_eq!(
        (0x01020304, false),
        read_length_with_encoding(&mut source(&[0x80, 0x01, 0x02, 0x03, 0x04])).unwrap()
    );
    assert_eq!(
        (0x0102, false),
        read_length_with_encoding(&mut source(&[0x41, 0x02])).unwrap()
    );
}

#[test]
fn length_needs_all_its_bytes() {
    assert_eq!(
        Err(RdbError::IoFailure),
        read_length_with_encoding(&mut source(&[]))
    );
    assert_eq!(
        Err(RdbError::IoFailure),
        read_length_with_encoding(&mut source(&[0x41]))
    );
    assert_eq!(
        Err(RdbError::IoFailure),
        read_length_with_encoding(&mut source(&[0x80, 1, 2, 3]))
    );
}

#[test]
fn special_tag_is_the_low_six_bits() {
    assert_eq!(
        (3, true),
        read_length_with_encoding(&mut source(&[0xC3])).unwrap()
    );
    assert_eq!(
        (63, true),
        read_length_with_encoding(&mut source(&[0xFF])).unwrap()
    );
}

#[test]
fn blob_round_trip_at_the_class_boundaries() {
    for n in [0usize, 1, 63, 64, 16383, 1 << 20] {
        let payload: Vec<u8> = (0..n).map(|i| (i % 251) as u8).collect();
        let mut bytes = encode_length(n as u32);
        let prefix = bytes.len();
        bytes.extend_from_slice(&payload);
        bytes.push(0x77);
        let mut input = ByteSource::new(bytes);
        assert_eq!(payload, read_blob(&mut input).unwrap());
        assert_eq!(prefix + n, input.position());
    }
}

#[test]
fn integer_blobs_are_decimal_text() {
    assert_eq!(b"42".to_vec(), read_blob(&mut source(&[0xC0, 0x2A])).unwrap());
    assert_eq!(b"-1".to_vec(), read_blob(&mut source(&[0xC0, 0xFF])).unwrap());
    assert_eq!(b"-128".to_vec(), read_blob(&mut source(&[0xC0, 0x80])).unwrap());
    assert_eq!(
        b"258".to_vec(),
        read_blob(&mut source(&[0xC1, 0x02, 0x01])).unwrap()
    );
    assert_eq!(
        b"-32768".to_vec(),
        read_blob(&mut source(&[0xC1, 0x00, 0x80])).unwrap()
    );
    assert_eq!(
        b"-2147483648".to_vec(),
        read_blob(&mut source(&[0xC2, 0x00, 0x00, 0x00, 0x80])).unwrap()
    );
    assert_eq!(
        b"16909060".to_vec(),
        read_blob(&mut source(&[0xC2, 0x04, 0x03, 0x02, 0x01])).unwrap()
    );
}

#[test]
fn integer_blob_needs_all_its_bytes() {
    assert_eq!(Err(RdbError::IoFailure), read_blob(&mut source(&[0xC0])));
    assert_eq!(Err(RdbError::IoFailure), read_blob(&mut source(&[0xC1, 0x01])));
    assert_eq!(
        Err(RdbError::IoFailure),
        read_blob(&mut source(&[0xC2, 0x01, 0x02, 0x03]))
    );
}

#[test]
fn compressed_blob_is_decompressed() {
    let mut bytes = vec![0xC3, 0x09, 0x40, 0xC8];
    bytes.extend_from_slice(&[1, 97, 97, 224, 187, 0, 1, 97, 97]);
    bytes.push(0x55);
    let mut input = ByteSource::new(bytes);
    assert_eq!(vec![97u8; 200], read_blob(&mut input).unwrap());
    assert_eq!(13, input.position());
}

#[test]
fn compressed_blob_of_another_size_fails() {
    let mut bytes = vec![0xC3, 0x09, 0x40, 0xC9];
    bytes.extend_from_slice(&[1, 97, 97, 224, 187, 0, 1, 97, 97]);
    assert_eq!(
        Err(RdbError::DecompressionFailed),
        read_blob(&mut ByteSource::new(bytes))
    );
}

#[test]
fn compressed_blob_that_does_not_fit_fails() {
    let mut bytes = vec![0xC3, 0x09, 0x0A];
    bytes.extend_from_slice(&[1, 97, 97, 224, 187, 0, 1, 97, 97]);
    assert_eq!(
        Err(RdbError::DecompressionFailed),
        read_blob(&mut ByteSource::new(bytes))
    );
}

#[test]
fn corrupt_compressed_blob_fails() {
    let bytes = vec![0xC3, 0x03, 0x0A, 0xE0, 0x00, 0x05];
    assert_eq!(
        Err(RdbError::DecompressionFailed),
        read_blob(&mut ByteSource::new(bytes))
    );
}

#[test]
fn unknown_blob_tag_is_an_unknown_encoding() {
    assert_eq!(
        Err(RdbError::UnknownEncoding(4)),
        read_blob(&mut source(&[0xC4, 0x00]))
    );
    assert_eq!(
        Err(RdbError::UnknownEncoding(63)),
        read_blob(&mut source(&[0xFF]))
    );
}

#[test]
fn blob_needs_all_its_bytes() {
    assert_eq!(Err(RdbError::IoFailure), read_blob(&mut source(&[3, 1, 2])));
    assert_eq!(Err(RdbError::IoFailure), read_blob(&mut source(&[])));
}

#[test]
fn read_exact_takes_the_bytes_in_order() {
    let mut input = source(&[1, 2, 3, 4, 5]);
    assert_eq!(vec![1, 2], read_exact(&mut input, 2).unwrap());
    assert_eq!(vec![3, 4, 5], read_exact(&mut input, 3).unwrap());
    assert_eq!(Vec::<u8>::new(), read_exact(&mut input, 0).unwrap());
    assert_eq!(Err(RdbError::IoFailure), read_exact(&mut input, 1));
}

#[test]
fn sequence_is_a_length_and_that_many_blobs() {
    let mut input = source(&[2, 1, 0x61, 0xC0, 0x07, 0x99]);
    assert_eq!(
        vec![b"a".to_vec(), b"7".to_vec()],
        read_sequence(&mut input).unwrap()
    );
    assert_eq!(5, input.position());
    assert_eq!(
        Vec::<Vec<u8>>::new(),
        read_sequence(&mut source(&[0])).unwrap()
    );
    assert_eq!(
        Err(RdbError::IoFailure),
        read_sequence(&mut source(&[2, 1, 0x61]))
    );
}

#[test]
fn magic_must_be_whole_and_right() {
    assert_eq!(
        Err(RdbError::UnsupportedFormat),
        verify_magic(&mut source(b"REDI"))
    );
    assert_eq!(
        Err(RdbError::UnsupportedFormat),
        verify_magic(&mut source(b"REDIT"))
    );
    assert_eq!(
        Err(RdbError::UnsupportedFormat),
        verify_magic(&mut source(b"redis"))
    );
}

#[test]
fn versions_one_to_twelve_are_supported() {
    for version in 1..=12u32 {
        let text = format!("{:04}", version);
        assert_eq!(Ok(()), verify_version(&mut source(text.as_bytes())));
    }
    for text in ["0000", "0013", "0100", "9999", "00a1", "001 ", "-001"] {
        assert_eq!(
            Err(RdbError::UnsupportedFormat),
            verify_version(&mut source(text.as_bytes()))
        );
    }
    assert_eq!(
        Err(RdbError::UnsupportedFormat),
        verify_version(&mut source(b"000"))
    );
}

#[test]
fn decimal_text_of_integers() {
    assert_eq!(b"0".to_vec(), int_to_vec(0));
    assert_eq!(b"7".to_vec(), int_to_vec(7));
    assert_eq!(b"10".to_vec(), int_to_vec(10));
    assert_eq!(b"-10".to_vec(), int_to_vec(-10));
    assert_eq!(b"2147483647".to_vec(), int_to_vec(i32::MAX));
    assert_eq!(b"-2147483648".to_vec(), int_to_vec(i32::MIN));
    assert_eq!(b"9223372036854775807".to_vec(), decimal_bytes(i64::MAX));
    assert_eq!(b"-9223372036854775808".to_vec(), decimal_bytes(i64::MIN));
    assert_eq!(b"18446744073709551615".to_vec(), decimal_u64(u64::MAX));
    for n in [-1234567i64, -1, 0, 1, 99, 100, 101, 65535, 1 << 40] {
        assert_eq!(n.to_string().into_bytes(), decimal_bytes(n));
    }
}

#[test]
fn fixed_width_reads_follow_their_byte_order() {
    let mut input = source(&[0x01, 0x02]);
    assert_eq!(0x0201, input.read_u16_le().unwrap());
    let mut input = source(&[0x01, 0x02, 0x03, 0x04]);
    assert_eq!(0x04030201, input.read_u32_le().unwrap());
    let mut input = source(&[0x01, 0x02, 0x03, 0x04]);
    assert_eq!(0x01020304, input.read_u32_be().unwrap());
    let mut input = source(&[1, 2, 3, 4, 5, 6, 7, 8]);
    assert_eq!(0x0807060504030201, input.read_u64_le().unwrap());
    let mut input = source(&[0xFE, 0xFF]);
    assert_eq!(-2, input.read_i16_le().unwrap());
    let mut input = source(&[0xFE, 0xFF, 0xFF]);
    assert_eq!(-2, input.read_i24_le().unwrap());
    let mut input = source(&[0x00, 0x00, 0x80]);
    assert_eq!(-8388608, input.read_i24_le().unwrap());
    let mut input = source(&[0xFF, 0xFF, 0x7F]);
    assert_eq!(8388607, input.read_i24_le().unwrap());
    let mut input = source(&[0xFE, 0xFF, 0xFF, 0xFF]);
    assert_eq!(-2, input.read_i32_le().unwrap());
    let mut input = source(&[0xFE, 0xFF, 0xFF, 0xFF, 0xFF, 0xFF, 0xFF, 0xFF]);
    assert_eq!(-2, input.read_i64_le().unwrap());
    let mut input = source(&[0, 0, 0, 0, 0, 0, 0, 0x80]);
    assert_eq!(i64::MIN, input.read_i64_le().unwrap());
    let mut input = source(&[0x80]);
    assert_eq!(-128, input.read_i8().unwrap());
}

#[test]
fn source_keeps_track_of_its_position() {
    let mut input = source(&[9, 8, 7, 6]);
    assert_eq!(0, input.position());
    assert_eq!(4, input.remaining());
    assert_eq!(9, input.read_u8().unwrap());
    assert_eq!(Ok(()), input.skip(2));
    assert_eq!(3, input.position());
    assert_eq!(Err(RdbError::IoFailure), input.skip(2));
    assert_eq!(vec![6], input.read_to_end());
    assert_eq!(0, input.remaining());
    assert_eq!(Err(RdbError::IoFailure), input.read_u8());
    assert_eq!(Vec::<u8>::new(), input.read_to_end());
}
