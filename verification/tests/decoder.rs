use regex::bytes::Regex;
use rdb::decoder::rdb::{
    process_next_operation, read_type, skip, skip_blob, skip_key_and_object, skip_object,
    verify_header, DecoderState,
};
use rdb::filter::{Filter, Simple};
use rdb::source::ByteSource;
use rdb::types::{parse_type, RdbError, RdbValue, Score, Type};
use rdb::RdbDecoder;

const HEADER: [u8; 9] = [0x52, 0x45, 0x44, 0x49, 0x53, 0x30, 0x30, 0x30, 0x33];

fn snapshot(body: &[u8]) -> Vec<u8> {
    let mut out = HEADER.to_vec();
    out.extend_from_slice(body);
    out
}

fn decode(bytes: Vec<u8>, filter: Simple) -> (Vec<RdbValue>, Option<RdbError>) {
    RdbDecoder::new(bytes, filter).unwrap().read_all()
}

fn string(key: &str, value: &str, expiry: Option<u64>) -> RdbValue {
    RdbValue::String { key: key.as_bytes().to_vec(), value: value.as_bytes().to_vec(), expiry }
}

fn source(bytes: &[u8]) -> ByteSource {
    ByteSource::new(bytes.to_vec())
}

#[test]
fn header_is_accepted_for_every_supported_version() {
    for version in 1..=12u32 {
        let mut bytes = b"REDIS".to_vec();
        bytes.extend_from_slice(format!("{:04}", version).as_bytes());
        bytes.extend_from_slice(&[0x01, 0x02, 0x03]);
        assert!(RdbDecoder::new(bytes.clone(), Simple::new()).is_ok());
        let mut input = ByteSource::new(bytes);
        assert_eq!(Ok(()), verify_header(&mut input));
        assert_eq!(9, input.position());
    }
}

#[test]
fn header_of_another_format_is_refused() {
    for bytes in [
        b"REDIS0000".to_vec(),
        b"REDIS0013".to_vec(),
        b"REDIT0003".to_vec(),
        b"REDIS003".to_vec(),
        b"REDIS00x3".to_vec(),
        b"".to_vec(),
    ] {
        match RdbDecoder::new(bytes, Simple::new()) {
            Ok(_) => panic!("accepted"),
            Err(e) => assert_eq!(RdbError::UnsupportedFormat, e),
        }
    }
}

#[test]
fn empty_database() {
    let bytes = vec![0x52, 0x45, 0x44, 0x49, 0x53, 0x30, 0x30, 0x30, 0x33, 0xFF];
    let mut decoder = RdbDecoder::new(bytes, Simple::new()).unwrap();
    assert_eq!(Some(Ok(RdbValue::Checksum(vec![]))), decoder.next());
    assert!(decoder.reached_eof());
    assert_eq!(None, decoder.next());
    assert_eq!(None, decoder.next());
}

#[test]
fn single_string() {
    let bytes = vec![
        0x52, 0x45, 0x44, 0x49, 0x53, 0x30, 0x30, 0x30, 0x33, 0xFE, 0x00, 0x00, 0x03, 0x66, 0x6F,
        0x6F, 0x03, 0x62, 0x61, 0x72, 0xFF,
    ];
    let mut decoder = RdbDecoder::new(bytes, Simple::new()).unwrap();
    assert_eq!(Some(Ok(RdbValue::SelectDb(0))), decoder.next());
    assert_eq!(Some(Ok(string("foo", "bar", None))), decoder.next());
    assert_eq!(Some(Ok(RdbValue::Checksum(vec![]))), decoder.next());
    assert_eq!(None, decoder.next());
}

#[test]
fn integer_encoded_value() {
    let (records, failure) = decode(snapshot(&[0x00, 0x01, 0x6B, 0xC0, 0x2A, 0xFF]), Simple::new());
    assert_eq!(None, failure);
    assert_eq!(vec![string("k", "42", None), RdbValue::Checksum(vec![])], records);
}

#[test]
fn expiry_attachment() {
    let mut body = vec![0xFE, 0x00, 0xFC];
    body.extend_from_slice(&1700000000000u64.to_le_bytes());
    body.extend_from_slice(&[0x00, 0x03, 0x66, 0x6F, 0x6F, 0x03, 0x62, 0x61, 0x72]);
    body.extend_from_slice(&[0x00, 0x01, 0x6B, 0x01, 0x76, 0xFF]);
    let (records, failure) = decode(snapshot(&body), Simple::new());
    assert_eq!(None, failure);
    assert_eq!(
        vec![
            RdbValue::SelectDb(0),
            string("foo", "bar", Some(1700000000000)),
            string("k", "v", None),
            RdbValue::Checksum(vec![]),
        ],
        records
    );
}

#[test]
fn expiry_in_seconds_is_scaled_to_milliseconds() {
    let body = [0xFD, 0x00, 0x00, 0x00, 0x02, 0x00, 0x01, 0x6B, 0x01, 0x76, 0xFF];
    let (records, _) = decode(snapshot(&body), Simple::new());
    assert_eq!(string("k", "v", Some(2000)), records[0]);
    let body = [0xFD, 0xFF, 0xFF, 0xFF, 0xFF, 0x00, 0x01, 0x6B, 0x01, 0x76, 0xFF];
    let (records, _) = decode(snapshot(&body), Simple::new());
    assert_eq!(string("k", "v", Some(4294967295000)), records[0]);
}

#[test]
fn hints_keep_the_pending_expiry_and_other_op_codes_clear_it() {
    let mut expiry = vec![0xFC];
    expiry.extend_from_slice(&77u64.to_le_bytes());
    let key = [0x00, 0x01, 0x6B, 0x01, 0x76];

    let mut body = expiry.clone();
    body.extend_from_slice(&[0xF8, 0x05, 0xF9, 0x09]);
    body.extend_from_slice(&key);
    body.push(0xFF);
    let (records, _) = decode(snapshot(&body), Simple::new());
    assert_eq!(string("k", "v", Some(77)), records[0]);

    let mut body = expiry.clone();
    body.extend_from_slice(&[0xFE, 0x01]);
    body.extend_from_slice(&key);
    body.push(0xFF);
    let (records, _) = decode(snapshot(&body), Simple::new());
    assert_eq!(vec![RdbValue::SelectDb(1), string("k", "v", None)], records[..2]);

    let mut body = expiry.clone();
    body.extend_from_slice(&[0xF7, 0x01, 0x00]);
    body.extend_from_slice(&key);
    body.push(0xFF);
    let (records, _) = decode(snapshot(&body), Simple::new());
    assert_eq!(string("k", "v", None), records[0]);
}

#[test]
fn expiry_of_a_rejected_key_is_used_up() {
    let mut body = vec![0xFC];
    body.extend_from_slice(&77u64.to_le_bytes());
    body.extend_from_slice(&[0x00, 0x01, 0x61, 0x01, 0x31]);
    body.extend_from_slice(&[0x00, 0x01, 0x62, 0x01, 0x32, 0xFF]);
    let mut filter = Simple::new();
    filter.add_keys(Regex::new("^b$").unwrap());
    let (records, failure) = decode(snapshot(&body), filter);
    assert_eq!(None, failure);
    assert_eq!(vec![string("b", "2", None), RdbValue::Checksum(vec![])], records);
}

fn two_databases() -> Vec<u8> {
    let mut body = vec![0xFE, 0x00];
    for i in 0..5u8 {
        body.extend_from_slice(&[0x00, 0x02, 0x6B, 0x30 + i, 0x01, 0x76]);
    }
    body.extend_from_slice(&[0xFE, 0x01, 0x00, 0x03, 0x6F, 0x6E, 0x65, 0x01, 0x31, 0xFF]);
    snapshot(&body)
}

#[test]
fn filtered_database_skip() {
    let mut filter = Simple::new();
    filter.add_database(1);
    let (records, failure) = decode(two_databases(), filter);
    assert_eq!(None, failure);
    assert_eq!(
        vec![
            RdbValue::SelectDb(0),
            RdbValue::SelectDb(1),
            string("one", "1", None),
            RdbValue::Checksum(vec![]),
        ],
        records
    );
}

#[test]
fn filtered_stream_is_the_wanted_part_of_the_whole_stream() {
    let (all, _) = decode(two_databases(), Simple::new());
    assert_eq!(9, all.len());
    let mut filter = Simple::new();
    filter.add_database(0);
    filter.add_keys(Regex::new("k[13]").unwrap());
    let (some, failure) = decode(two_databases(), filter);
    assert_eq!(None, failure);
    let keyed: Vec<&RdbValue> = some
        .iter()
        .filter(|r| matches!(r, RdbValue::String { .. }))
        .collect();
    assert_eq!(vec![&all[2], &all[4]], keyed);
}

#[test]
fn sorted_set_with_sentinel_score() {
    let body = [
        0xFE, 0x00, 0x03, 0x01, 0x7A, 0x03, 0x01, 0x61, 253, 0x01, 0x62, 254, 0x01, 0x63, 255,
        0xFF,
    ];
    let (records, failure) = decode(snapshot(&body), Simple::new());
    assert_eq!(None, failure);
    assert_eq!(
        RdbValue::SortedSet {
            key: b"z".to_vec(),
            values: vec![
                (Score::NotANumber, b"a".to_vec()),
                (Score::PositiveInfinity, b"b".to_vec()),
                (Score::NegativeInfinity, b"c".to_vec()),
            ],
            expiry: None,
        },
        records[1]
    );
    match &records[1] {
        RdbValue::SortedSet { values, .. } => {
            let scores: Vec<f64> = values
                .iter()
                .map(|(score, _)| f64::from_bits(score.to_bits(None).unwrap()))
                .collect();
            assert!(scores[0].is_nan());
            assert_eq!(f64::INFINITY, scores[1]);
            assert_eq!(f64::NEG_INFINITY, scores[2]);
        }
        _ => unreachable!(),
    }
}

#[test]
fn records_come_in_the_order_of_the_bytes() {
    let body = [
        0xFA, 0x01, 0x61, 0x01, 0x62, 0xFE, 0x02, 0xFB, 0x03, 0x01, 0x00, 0x01, 0x6B, 0x01, 0x76,
        0xFF, 0x01, 0x02, 0x03, 0x04, 0x05, 0x06, 0x07, 0x08,
    ];
    let mut decoder = RdbDecoder::new(snapshot(&body), Simple::new()).unwrap();
    assert_eq!(0, decoder.current_database());
    assert_eq!(
        Some(Ok(RdbValue::AuxField { key: b"a".to_vec(), value: b"b".to_vec() })),
        decoder.next()
    );
    assert_eq!(Some(Ok(RdbValue::SelectDb(2))), decoder.next());
    assert_eq!(2, decoder.current_database());
    assert_eq!(
        Some(Ok(RdbValue::ResizeDb { db_size: 3, expires_size: 1 })),
        decoder.next()
    );
    assert_eq!(Some(Ok(string("k", "v", None))), decoder.next());
    assert!(!decoder.reached_eof());
    assert_eq!(
        Some(Ok(RdbValue::Checksum(vec![1, 2, 3, 4, 5, 6, 7, 8]))),
        decoder.next()
    );
    assert!(decoder.reached_eof());
    assert_eq!(None, decoder.next());
}

#[test]
fn bytes_that_end_without_end_marker_yield_an_empty_checksum() {
    let (records, failure) = decode(snapshot(&[0xFE, 0x00]), Simple::new());
    assert_eq!(None, failure);
    assert_eq!(
        vec![RdbValue::SelectDb(0), RdbValue::Checksum(vec![])],
        records
    );
    let mut decoder = RdbDecoder::new(snapshot(&[]), Simple::new()).unwrap();
    assert_eq!(Some(Ok(RdbValue::Checksum(vec![]))), decoder.next());
    assert_eq!(None, decoder.next());
}

#[test]
fn value_that_is_cut_short_is_fatal() {
    let (records, failure) = decode(snapshot(&[0xFE, 0x00, 0x00, 0x03, 0x66, 0x6F]), Simple::new());
    assert_eq!(vec![RdbValue::SelectDb(0)], records);
    assert_eq!(Some(RdbError::IoFailure), failure);
}

#[test]
fn stream_module_and_unknown_tags_stop_the_decoder() {
    for tag in [6u8, 7, 8, 15, 19, 21, 22, 100, 246] {
        let (records, failure) = decode(snapshot(&[tag, 0x01, 0x6B, 0x00, 0xFF]), Simple::new());
        assert_eq!(Vec::<RdbValue>::new(), records);
        assert_eq!(Some(RdbError::UnknownEncoding(tag)), failure);
    }
}

#[test]
fn every_layout_is_read_by_its_tag() {
    let ziplist = [0, 0, 0, 0, 0, 0, 0, 0, 2, 0, 0, 1, 0x61, 3, 0xF2, 0xFF];
    let listpack = [11, 0, 0, 0, 2, 0, 0x81, 0x61, 0x02, 0x01, 0x01, 0xFF];
    let intset = [2, 0, 0, 0, 1, 0, 0, 0, 7, 0];
    let zipmap = [1, 1, 0x61, 1, 0, 0x31, 0xFF];
    let a1: Vec<Vec<u8>> = vec![b"a".to_vec(), b"1".to_vec()];
    let pair: indexmap::IndexMap<Vec<u8>, Vec<u8>> =
        [(b"a".to_vec(), b"1".to_vec())].into_iter().collect();
    let scored = vec![(Score::Text(b"1".to_vec()), b"a".to_vec())];
    let key = b"k".to_vec();

    let with_blob = |payload: &[u8]| {
        let mut out = vec![payload.len() as u8];
        out.extend_from_slice(payload);
        out
    };
    let mut quicklist = vec![1];
    quicklist.extend(with_blob(&ziplist));
    let mut quicklist2 = vec![1, 2];
    quicklist2.extend(with_blob(&listpack));
    let mut zset2 = vec![1, 1, 0x61];
    zset2.extend_from_slice(&1.0f64.to_bits().to_le_bytes());

    let cases: Vec<(u8, Vec<u8>, RdbValue)> = vec![
        (0, vec![1, 0x76], string("k", "v", None)),
        (1, vec![2, 1, 0x61, 1, 0x31], RdbValue::List { key: key.clone(), values: a1.clone(), expiry: None }),
        (2, vec![2, 1, 0x61, 1, 0x31], RdbValue::PlainSet { key: key.clone(), members: a1.clone(), expiry: None }),
        (3, vec![1, 1, 0x61, 1, 0x31], RdbValue::SortedSet { key: key.clone(), values: scored.clone(), expiry: None }),
        (4, vec![1, 1, 0x61, 1, 0x31], RdbValue::Hash { key: key.clone(), values: pair.clone(), expiry: None }),
        (5, zset2, RdbValue::SortedSet { key: key.clone(), values: vec![(Score::Bits(1.0f64.to_bits()), b"a".to_vec())], expiry: None }),
        (9, with_blob(&zipmap), RdbValue::Hash { key: key.clone(), values: pair.clone(), expiry: None }),
        (10, with_blob(&ziplist), RdbValue::List { key: key.clone(), values: a1.clone(), expiry: None }),
        (11, with_blob(&intset), RdbValue::PlainSet { key: key.clone(), members: vec![b"7".to_vec()], expiry: None }),
        (12, with_blob(&ziplist), RdbValue::SortedSet { key: key.clone(), values: scored.clone(), expiry: None }),
        (13, with_blob(&ziplist), RdbValue::Hash { key: key.clone(), values: pair.clone(), expiry: None }),
        (14, quicklist, RdbValue::List { key: key.clone(), values: a1.clone(), expiry: None }),
        (16, with_blob(&listpack), RdbValue::Hash { key: key.clone(), values: pair.clone(), expiry: None }),
        (17, with_blob(&listpack), RdbValue::SortedSet { key: key.clone(), values: scored.clone(), expiry: None }),
        (18, quicklist2, RdbValue::List { key: key.clone(), values: a1.clone(), expiry: None }),
        (20, with_blob(&listpack), RdbValue::PlainSet { key: key.clone(), members: a1.clone(), expiry: None }),
    ];
    for (tag, body, expected) in cases {
        let size = body.len();
        let mut input = ByteSource::new(body.clone());
        assert_eq!(Ok(expected), read_type(&mut input, b"k", tag, None), "tag {}", tag);
        assert_eq!(size, input.position(), "tag {}", tag);

        let mut input = ByteSource::new(body);
        let skipped = skip_object(&mut input, tag);
        if tag == 3 || tag == 5 || tag == 18 {
            if tag != 3 {
                assert_eq!(Err(RdbError::UnknownEncoding(tag)), skipped);
            }
        } else {
            assert_eq!(Ok(()), skipped, "tag {}", tag);
            assert_eq!(size, input.position(), "tag {}", tag);
        }
    }
}

#[test]
fn skip_blob_passes_over_each_encoding() {
    let cases: Vec<(Vec<u8>, usize)> = vec![
        (vec![0x02, 1, 2, 9], 3),
        (vec![0x00, 9], 1),
        (vec![0xC0, 1, 9], 2),
        (vec![0xC1, 1, 2, 9], 3),
        (vec![0xC2, 1, 2, 3, 4, 9], 5),
        (vec![0xC3, 0x02, 0x40, 0xC8, 7, 7, 9], 6),
    ];
    for (bytes, end) in cases {
        let mut input = ByteSource::new(bytes);
        assert_eq!(Ok(()), skip_blob(&mut input));
        assert_eq!(end, input.position());
    }
    assert_eq!(Err(RdbError::IoFailure), skip_blob(&mut source(&[0x02, 1])));
    assert_eq!(
        Err(RdbError::UnknownEncoding(5)),
        skip_blob(&mut source(&[0xC5, 1]))
    );
    assert_eq!(Err(RdbError::IoFailure), skip(&mut source(&[1, 2]), 3));
}

#[test]
fn skip_object_counts_the_blobs_of_each_layout() {
    let mut input = source(&[2, 1, 0x61, 1, 0x62, 1, 0x63, 1, 0x64, 9]);
    assert_eq!(Ok(()), skip_object(&mut input, 4));
    assert_eq!(9, input.position());
    let mut input = source(&[2, 1, 0x61, 1, 0x62, 1, 0x63, 1, 0x64, 9]);
    assert_eq!(Ok(()), skip_object(&mut input, 1));
    assert_eq!(5, input.position());
    let mut input = source(&[1, 0x6B, 1, 0x76, 9]);
    assert_eq!(Ok(()), skip_key_and_object(&mut input, 0));
    assert_eq!(4, input.position());
    assert_eq!(
        Err(RdbError::UnknownEncoding(15)),
        skip_object(&mut source(&[0]), 15)
    );
    assert_eq!(
        Err(RdbError::IoFailure),
        skip_object(&mut source(&[2, 1, 0x61]), 2)
    );
}

#[test]
fn process_next_operation_handles_silent_op_codes_on_the_way() {
    let mut body = vec![0xF8, 0x01, 0xF9, 0x02, 0xFC];
    body.extend_from_slice(&5u64.to_le_bytes());
    body.extend_from_slice(&[0x00, 0x01, 0x6B, 0x01, 0x76, 0xFF]);
    let mut input = ByteSource::new(body);
    let mut state = DecoderState::default();
    let filter = Simple::new();
    assert_eq!(
        Ok(string("k", "v", Some(5))),
        process_next_operation(&mut input, &filter, &mut state)
    );
    assert_eq!(None, state.last_expiretime);
    assert_eq!(18, input.position());
    assert_eq!(
        Ok(RdbValue::Checksum(vec![])),
        process_next_operation(&mut input, &filter, &mut state)
    );
    assert!(state.reached_eof);
}

#[test]
fn simple_filter_defaults_to_accept() {
    let filter = Simple::new();
    assert!(filter.matches_db(0));
    assert!(filter.matches_db(u32::MAX));
    assert!(filter.matches_type(0));
    assert!(filter.matches_type(200));
    assert!(filter.matches_key(b""));
    assert!(filter.matches_key(&[0xFF, 0x00, 0xFE]));
    let filter = Simple::default();
    assert!(filter.matches_db(3));
}

#[test]
fn simple_filter_databases() {
    let mut filter = Simple::new();
    filter.add_database(1);
    filter.add_database(7);
    assert!(filter.matches_db(1));
    assert!(filter.matches_db(7));
    assert!(!filter.matches_db(0));
    assert!(filter.matches_type(0));
    assert!(filter.matches_key(b"x"));
}

#[test]
fn simple_filter_maps_tags_to_kinds() {
    let mut filter = Simple::new();
    filter.add_type(Type::Hash);
    filter.add_type(Type::SortedSet);
    for tag in [4u8, 9, 13, 16, 3, 5, 12, 17] {
        assert!(filter.matches_type(tag), "tag {}", tag);
    }
    for tag in [0u8, 1, 2, 10, 11, 14, 18, 20, 6, 15, 8, 99] {
        assert!(!filter.matches_type(tag), "tag {}", tag);
    }
}

#[test]
fn kinds_of_tags() {
    assert_eq!(Ok(Type::String), Type::from_encoding(0));
    assert_eq!(Ok(Type::List), Type::from_encoding(18));
    assert_eq!(Ok(Type::PlainSet), Type::from_encoding(20));
    assert_eq!(Ok(Type::SortedSet), Type::from_encoding(5));
    assert_eq!(Ok(Type::Hash), Type::from_encoding(9));
    assert_eq!(Ok(Type::Stream), Type::from_encoding(21));
    assert_eq!(Ok(Type::Module), Type::from_encoding(7));
    assert_eq!(Err(RdbError::UnknownEncoding(8)), Type::from_encoding(8));
    assert_eq!(Err(RdbError::UnknownEncoding(22)), Type::from_encoding(22));
}

#[test]
fn kinds_by_name() {
    assert_eq!(Some(Type::String), parse_type("string"));
    assert_eq!(Some(Type::List), parse_type("list"));
    assert_eq!(Some(Type::PlainSet), parse_type("set"));
    assert_eq!(Some(Type::SortedSet), parse_type("sortedset"));
    assert_eq!(Some(Type::SortedSet), parse_type("sorted-set"));
    assert_eq!(Some(Type::SortedSet), parse_type("sorted_set"));
    assert_eq!(Some(Type::Hash), parse_type("hash"));
    assert_eq!(None, parse_type("stream"));
    assert_eq!(None, parse_type("String"));
    assert_eq!(None, parse_type(""));
    assert_eq!(None, parse_type("hashes"));
}

#[test]
fn simple_filter_keys() {
    let mut filter = Simple::new();
    filter.add_keys(Regex::new("^user:[0-9]+$").unwrap());
    assert!(filter.matches_key(b"user:42"));
    assert!(!filter.matches_key(b"user:"));
    assert!(!filter.matches_key(b"xuser:42"));
    let mut filter = Simple::new();
    filter.add_keys(Regex::new("a").unwrap());
    assert!(filter.matches_key(&[0xFF, 0x61, 0x00]));
    assert!(!filter.matches_key(&[0xFF, 0x00, 0xC3]));
    filter.add_keys(Regex::new("b").unwrap());
    assert!(!filter.matches_key(b"a"));
    assert!(filter.matches_key(b"b"));
}

#[test]
fn filter_by_kind_skips_the_other_values() {
    let body = [
        0x00, 0x01, 0x73, 0x01, 0x76, 0x01, 0x01, 0x6C, 0x01, 0x01, 0x61, 0x04, 0x01, 0x68, 0x01,
        0x01, 0x66, 0x01, 0x31, 0xFF,
    ];
    let mut filter = Simple::new();
    filter.add_type(Type::List);
    let (records, failure) = decode(snapshot(&body), filter);
    assert_eq!(None, failure);
    assert_eq!(
        vec![
            RdbValue::List { key: b"l".to_vec(), values: vec![b"a".to_vec()], expiry: None },
            RdbValue::Checksum(vec![]),
        ],
        records
    );
}

#[test]
fn rejected_value_that_cannot_be_passed_over_stops_the_decoder() {
    let mut body = vec![0x05, 0x01, 0x7A, 0x01, 0x01, 0x61];
    body.extend_from_slice(&1.0f64.to_bits().to_le_bytes());
    body.push(0xFF);
    let mut filter = Simple::new();
    filter.add_type(Type::String);
    let (records, failure) = decode(snapshot(&body), filter);
    assert_eq!(Vec::<RdbValue>::new(), records);
    assert_eq!(Some(RdbError::UnknownEncoding(5)), failure);
}
