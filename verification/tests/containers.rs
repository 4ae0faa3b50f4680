use indexmap::IndexMap;
use rdb::decoder::common::entries::{read_intset, read_listpack, read_ziplist};
use rdb::decoder::common::listpack::{
    read_list_pack_entry_as_string, read_list_pack_length, skip_backlen,
};
use rdb::decoder::common::ziplist::{
    read_ziplist_entry, read_ziplist_entry_string, read_ziplist_metadata, ZiplistEntry,
};
use rdb::decoder::hash::{
    read_hash, read_hash_list_pack, read_hash_ziplist, read_hash_zipmap, read_zipmap,
    read_zipmap_entry,
};
use rdb::decoder::list::{read_linked_list, read_list_ziplist, read_quicklist, read_quicklist_2};
use rdb::decoder::set::{read_set, read_set_intset, read_set_list_pack};
use rdb::decoder::sorted_set::{
    read_score, read_sorted_set, read_sorted_set_listpack, read_sorted_set_ziplist,
};
use rdb::source::ByteSource;
use rdb::types::{Container, Defect, RdbError, RdbValue, Score};

fn source(bytes: &[u8]) -> ByteSource {
    ByteSource::new(bytes.to_vec())
}

fn corrupt(context: Container, detail: Defect) -> RdbError {
    RdbError::CorruptPayload { context, detail }
}

fn blob(payload: &[u8]) -> Vec<u8> {
    assert!(payload.len() < 64);
    let mut out = vec![payload.len() as u8];
    out.extend_from_slice(payload);
    out
}

fn ziplist(count: u16, entries: &[u8], terminator: &[u8]) -> Vec<u8> {
    let mut out = vec![0, 0, 0, 0, 0, 0, 0, 0];
    out.extend_from_slice(&count.to_le_bytes());
    out.extend_from_slice(entries);
    out.extend_from_slice(terminator);
    out
}

fn listpack(count: u16, entries: &[u8], terminator: &[u8]) -> Vec<u8> {
    let total = (6 + entries.len() + terminator.len()) as u32;
    let mut out = total.to_le_bytes().to_vec();
    out.extend_from_slice(&count.to_le_bytes());
    out.extend_from_slice(entries);
    out.extend_from_slice(terminator);
    out
}

fn texts(items: &[&str]) -> Vec<Vec<u8>> {
    items.iter().map(|s| s.as_bytes().to_vec()).collect()
}

fn fields(pairs: &[(&str, &str)]) -> IndexMap<Vec<u8>, Vec<u8>> {
    pairs
        .iter()
        .map(|(k, v)| (k.as_bytes().to_vec(), v.as_bytes().to_vec()))
        .collect()
}

const THREE_ZIPLIST_ENTRIES: [u8; 9] = [0x00, 0x01, 0x61, 0x03, 0xF6, 0x02, 0xC0, 0xFE, 0xFF];

#[test]
fn ziplist_metadata_is_three_little_endian_fields() {
    let mut input = source(&[1, 0, 0, 0, 2, 1, 0, 0, 3, 2]);
    assert_eq!((1, 258, 515), read_ziplist_metadata(&mut input).unwrap());
    assert_eq!(10, input.position());
    assert_eq!(
        Err(RdbError::IoFailure),
        read_ziplist_metadata(&mut source(&[1, 0, 0, 0, 2, 1, 0, 0, 3]))
    );
}

#[test]
fn ziplist_entry_strings() {
    assert_eq!(
        ZiplistEntry::String(b"ab".to_vec()),
        read_ziplist_entry(&mut source(&[0, 0x02, 0x61, 0x62])).unwrap()
    );
    let mut long = vec![0, 0x41, 0x00];
    long.extend_from_slice(&[0x78; 256]);
    assert_eq!(
        ZiplistEntry::String(vec![0x78; 256]),
        read_ziplist_entry(&mut ByteSource::new(long)).unwrap()
    );
    assert_eq!(
        ZiplistEntry::String(b"abc".to_vec()),
        read_ziplist_entry(&mut source(&[0, 0x80, 0, 0, 0, 3, 0x61, 0x62, 0x63])).unwrap()
    );
}

#[test]
fn ziplist_entry_integers() {
    let cases: Vec<(Vec<u8>, i64)> = vec![
        (vec![0, 0xC0, 0xFE, 0xFF], -2),
        (vec![0, 0xC0, 0x34, 0x12], 0x1234),
        (vec![0, 0xD0, 0x00, 0x00, 0x00, 0x80], -2147483648),
        (vec![0, 0xE0, 1, 0, 0, 0, 0, 0, 0, 0], 1),
        (vec![0, 0xE0, 0, 0, 0, 0, 0, 0, 0, 0x80], i64::MIN),
        (vec![0, 0xF0, 0xFF, 0xFF, 0xFF], -1),
        (vec![0, 0xF0, 0x01, 0x00, 0x01], 65537),
        (vec![0, 0xFE, 0x80], -128),
        (vec![0, 0xFE, 0x7F], 127),
        (vec![0, 0xF1], 0),
        (vec![0, 0xF6], 5),
        (vec![0, 0xFD], 12),
    ];
    for (bytes, expected) in cases {
        let size = bytes.len();
        let mut input = ByteSource::new(bytes);
        assert_eq!(
            ZiplistEntry::Number(expected),
            read_ziplist_entry(&mut input).unwrap()
        );
        assert_eq!(size, input.position());
    }
}

#[test]
fn ziplist_entry_with_a_long_previous_length() {
    let mut input = source(&[254, 9, 9, 9, 9, 0x01, 0x61, 0x55]);
    assert_eq!(
        b"a".to_vec(),
        read_ziplist_entry_string(&mut input).unwrap()
    );
    assert_eq!(7, input.position());
    assert_eq!(
        Err(RdbError::IoFailure),
        read_ziplist_entry(&mut source(&[254, 9, 9, 9]))
    );
}

#[test]
fn ziplist_entry_integers_are_rendered_to_text() {
    assert_eq!(
        b"-2".to_vec(),
        read_ziplist_entry_string(&mut source(&[0, 0xC0, 0xFE, 0xFF])).unwrap()
    );
    assert_eq!(
        b"12".to_vec(),
        read_ziplist_entry_string(&mut source(&[0, 0xFD])).unwrap()
    );
}

#[test]
fn ziplist_impossible_flags() {
    for flag in [0xC1u8, 0xCF, 0xD1, 0xE5, 0xFF] {
        assert_eq!(
            Err(corrupt(Container::Ziplist, Defect::ImpossibleFlag(flag))),
            read_ziplist_entry(&mut source(&[0, flag, 0, 0, 0, 0, 0, 0, 0, 0]))
        );
    }
}

#[test]
fn ziplist_decodes_to_its_elements() {
    assert_eq!(
        texts(&["a", "5", "-2"]),
        read_ziplist(ziplist(3, &THREE_ZIPLIST_ENTRIES, &[0xFF])).unwrap()
    );
    assert_eq!(
        Vec::<Vec<u8>>::new(),
        read_ziplist(ziplist(0, &[], &[0xFF])).unwrap()
    );
}

#[test]
fn ziplist_without_terminator_is_corrupt() {
    let missing = corrupt(Container::Ziplist, Defect::MissingTerminator);
    assert_eq!(
        Err(missing),
        read_ziplist(ziplist(3, &THREE_ZIPLIST_ENTRIES, &[]))
    );
    assert_eq!(
        Err(missing),
        read_ziplist(ziplist(3, &THREE_ZIPLIST_ENTRIES, &[0xFE]))
    );
    assert_eq!(Err(missing), read_ziplist(ziplist(0, &[], &[0x00])));
}

#[test]
fn ziplist_that_is_cut_short_fails() {
    assert_eq!(
        Err(RdbError::IoFailure),
        read_ziplist(ziplist(4, &THREE_ZIPLIST_ENTRIES, &[]))
    );
    assert_eq!(Err(RdbError::IoFailure), read_ziplist(vec![1, 2, 3]));
}

#[test]
fn backlen_width_follows_the_element_length() {
    for (element_len, width) in [
        (1u64, 1usize),
        (127, 1),
        (128, 2),
        (16382, 2),
        (16383, 3),
        (2097150, 3),
        (2097151, 4),
        (268435454, 4),
        (268435455, 5),
        (u64::MAX, 5),
    ] {
        let mut input = source(&[0; 5]);
        assert_eq!(Ok(()), skip_backlen(&mut input, element_len));
        assert_eq!(width, input.position());
    }
    assert_eq!(
        Err(RdbError::IoFailure),
        skip_backlen(&mut source(&[0]), 128)
    );
}

#[test]
fn listpack_header_gives_the_element_count() {
    let mut input = source(&[9, 9, 9, 9, 0x02, 0x01, 7]);
    assert_eq!(258, read_list_pack_length(&mut input).unwrap());
    assert_eq!(6, input.position());
    assert_eq!(
        Err(RdbError::IoFailure),
        read_list_pack_length(&mut source(&[9, 9, 9, 9, 0x02]))
    );
}

#[test]
fn listpack_entries() {
    let mut long = vec![0xE1, 0x00];
    long.extend_from_slice(&[0x79; 256]);
    long.extend_from_slice(&[0, 0]);
    let cases: Vec<(Vec<u8>, Vec<u8>)> = vec![
        (vec![0x05, 0x01], b"5".to_vec()),
        (vec![0x7F, 0x01], b"127".to_vec()),
        (vec![0x00, 0x01], b"0".to_vec()),
        (vec![0x82, 0x61, 0x62, 0x03], b"ab".to_vec()),
        (vec![0x80, 0x01], b"".to_vec()),
        (vec![0xDF, 0xFF, 0x02], b"-1".to_vec()),
        (vec![0xD0, 0x00, 0x02], b"-4096".to_vec()),
        (vec![0xCF, 0xFF, 0x02], b"4095".to_vec()),
        (vec![0xC0, 0x80, 0x02], b"128".to_vec()),
        (long, vec![0x79; 256]),
        (vec![0xF0, 3, 0, 0, 0, 0x61, 0x62, 0x63, 0x08], b"abc".to_vec()),
        (vec![0xF1, 0xFE, 0xFF, 0x03], b"-2".to_vec()),
        (vec![0xF2, 0x00, 0x00, 0x80, 0x04], b"-8388608".to_vec()),
        (vec![0xF3, 0x00, 0x00, 0x00, 0x80, 0x05], b"-2147483648".to_vec()),
        (
            vec![0xF4, 0, 0, 0, 0, 0, 0, 0, 0x80, 0x09],
            b"-9223372036854775808".to_vec(),
        ),
    ];
    for (bytes, expected) in cases {
        let size = bytes.len();
        let mut input = ByteSource::new(bytes);
        assert_eq!(
            expected,
            read_list_pack_entry_as_string(&mut input).unwrap()
        );
        assert_eq!(size, input.position());
    }
}

#[test]
fn listpack_entry_needs_its_back_length() {
    assert_eq!(
        Err(RdbError::IoFailure),
        read_list_pack_entry_as_string(&mut source(&[0x05]))
    );
    assert_eq!(
        Err(RdbError::IoFailure),
        read_list_pack_entry_as_string(&mut source(&[0x82, 0x61, 0x62]))
    );
}

#[test]
fn listpack_impossible_headers() {
    for header in [0xF5u8, 0xF8, 0xFE, 0xFF] {
        assert_eq!(
            Err(corrupt(Container::Listpack, Defect::ImpossibleFlag(header))),
            read_list_pack_entry_as_string(&mut source(&[header, 0, 0, 0]))
        );
    }
}

const THREE_LISTPACK_ENTRIES: [u8; 9] = [0x05, 0x01, 0x82, 0x61, 0x62, 0x03, 0xDF, 0xFF, 0x02];

#[test]
fn listpack_decodes_to_its_elements() {
    assert_eq!(
        texts(&["5", "ab", "-1"]),
        read_listpack(listpack(3, &THREE_LISTPACK_ENTRIES, &[0xFF])).unwrap()
    );
}

#[test]
fn listpack_without_terminator_is_corrupt() {
    let missing = corrupt(Container::Listpack, Defect::MissingTerminator);
    assert_eq!(
        Err(missing),
        read_listpack(listpack(3, &THREE_LISTPACK_ENTRIES, &[]))
    );
    assert_eq!(
        Err(missing),
        read_listpack(listpack(3, &THREE_LISTPACK_ENTRIES, &[0x00]))
    );
}

#[test]
fn intset_members_keep_their_order() {
    let two = vec![2, 0, 0, 0, 3, 0, 0, 0, 0xFF, 0xFF, 0x01, 0x00, 0x00, 0x01];
    assert_eq!(texts(&["-1", "1", "256"]), read_intset(two).unwrap());
    let four = vec![4, 0, 0, 0, 2, 0, 0, 0, 0, 0, 0, 0x80, 0xFF, 0xFF, 0xFF, 0x7F];
    assert_eq!(
        texts(&["-2147483648", "2147483647"]),
        read_intset(four).unwrap()
    );
    let mut eight = vec![8, 0, 0, 0, 2, 0, 0, 0];
    eight.extend_from_slice(&(-5i64).to_le_bytes());
    eight.extend_from_slice(&(1i64 << 40).to_le_bytes());
    assert_eq!(texts(&["-5", "1099511627776"]), read_intset(eight).unwrap());
    let unsorted = vec![2, 0, 0, 0, 2, 0, 0, 0, 9, 0, 3, 0];
    assert_eq!(texts(&["9", "3"]), read_intset(unsorted).unwrap());
}

#[test]
fn intset_element_size_must_be_two_four_or_eight() {
    for size in [0u32, 1, 3, 5, 16] {
        let mut bytes = size.to_le_bytes().to_vec();
        bytes.extend_from_slice(&[0, 0, 0, 0]);
        assert_eq!(
            Err(corrupt(Container::Intset, Defect::InvalidElementSize(size))),
            read_intset(bytes)
        );
    }
    assert_eq!(
        Err(RdbError::IoFailure),
        read_intset(vec![2, 0, 0, 0, 2, 0, 0, 0, 1, 0, 2])
    );
}

#[test]
fn zipmap_decodes_to_its_fields() {
    let bytes = vec![2, 1, 0x61, 1, 0, 0x78, 1, 0x62, 1, 0, 0x79, 0xFF];
    let map = read_zipmap(bytes).unwrap();
    assert_eq!(fields(&[("a", "x"), ("b", "y")]), map);
    assert_eq!(
        vec![&b"a".to_vec(), &b"b".to_vec()],
        map.keys().collect::<Vec<_>>()
    );
}

#[test]
fn zipmap_without_a_count_runs_to_the_terminator() {
    let bytes = vec![255, 1, 0x61, 1, 0, 0x78, 1, 0x62, 1, 0, 0x79, 0xFF];
    assert_eq!(
        fields(&[("a", "x"), ("b", "y")]),
        read_zipmap(bytes).unwrap()
    );
    assert_eq!(fields(&[]), read_zipmap(vec![0, 0xFF]).unwrap());
}

#[test]
fn zipmap_long_elements() {
    let mut bytes = vec![1, 253, 3, 0, 0, 0, 0x61, 0x62, 0x63, 253, 0, 2, 0, 0, 0, 0x78, 0x79];
    bytes.push(0xFF);
    assert_eq!(fields(&[("abc", "xy")]), read_zipmap(bytes).unwrap());
}

#[test]
fn zipmap_without_terminator_is_corrupt() {
    let missing = corrupt(Container::Zipmap, Defect::MissingTerminator);
    assert_eq!(
        Err(missing),
        read_zipmap(vec![1, 1, 0x61, 1, 0, 0x78])
    );
    assert_eq!(
        Err(missing),
        read_zipmap(vec![1, 1, 0x61, 1, 0, 0x78, 0x00])
    );
    assert_eq!(
        Err(missing),
        read_zipmap(vec![255, 1, 0x61, 1, 0, 0x78])
    );
    assert_eq!(Err(missing), read_zipmap(vec![0]));
}

#[test]
fn zipmap_invalid_length_bytes() {
    assert_eq!(
        Err(corrupt(Container::Zipmap, Defect::InvalidLength(254))),
        read_zipmap(vec![1, 254, 0, 0])
    );
    assert_eq!(
        Err(corrupt(Container::Zipmap, Defect::InvalidLength(255))),
        read_zipmap(vec![1, 1, 0x61, 255, 0, 0x78, 0xFF])
    );
    assert_eq!(
        Err(corrupt(Container::Zipmap, Defect::InvalidLength(254))),
        read_zipmap_entry(254, &mut source(&[1, 2, 3]))
    );
    assert_eq!(
        b"ab".to_vec(),
        read_zipmap_entry(2, &mut source(&[0x61, 0x62, 0x63])).unwrap()
    );
}

#[test]
fn linked_list_and_set_are_sequences_of_blobs() {
    let bytes = [2, 1, 0x61, 1, 0x62];
    assert_eq!(
        RdbValue::List { key: b"k".to_vec(), values: texts(&["a", "b"]), expiry: Some(5) },
        read_linked_list(&mut source(&bytes), b"k", Some(5)).unwrap()
    );
    assert_eq!(
        RdbValue::PlainSet { key: b"k".to_vec(), members: texts(&["a", "b"]), expiry: None },
        read_set(&mut source(&bytes), b"k", None).unwrap()
    );
}

#[test]
fn list_ziplist_is_one_blob() {
    let mut bytes = blob(&ziplist(3, &THREE_ZIPLIST_ENTRIES, &[0xFF]));
    bytes.push(0x42);
    let mut input = ByteSource::new(bytes);
    assert_eq!(
        RdbValue::List { key: b"k".to_vec(), values: texts(&["a", "5", "-2"]), expiry: None },
        read_list_ziplist(&mut input, b"k", None).unwrap()
    );
    assert_eq!(21, input.position());
    assert_eq!(
        Err(corrupt(Container::Ziplist, Defect::MissingTerminator)),
        read_list_ziplist(
            &mut ByteSource::new(blob(&ziplist(3, &THREE_ZIPLIST_ENTRIES, &[]))),
            b"k",
            None
        )
    );
}

#[test]
fn quicklist_concatenates_its_nodes() {
    let mut bytes = vec![2];
    bytes.extend(blob(&ziplist(3, &THREE_ZIPLIST_ENTRIES, &[0xFF])));
    bytes.extend(blob(&ziplist(1, &[0x00, 0x01, 0x7A], &[0xFF])));
    assert_eq!(
        RdbValue::List {
            key: b"k".to_vec(),
            values: texts(&["a", "5", "-2", "z"]),
            expiry: None
        },
        read_quicklist(&mut ByteSource::new(bytes), b"k", None).unwrap()
    );
}

#[test]
fn quicklist_2_reads_plain_and_packed_nodes() {
    let mut bytes = vec![3, 2];
    bytes.extend(blob(&listpack(3, &THREE_LISTPACK_ENTRIES, &[0xFF])));
    bytes.push(1);
    bytes.extend(blob(b"plain"));
    bytes.push(2);
    bytes.extend(blob(&listpack(1, &[0x07, 0x01], &[0xFF])));
    assert_eq!(
        RdbValue::List {
            key: b"k".to_vec(),
            values: texts(&["5", "ab", "-1", "plain", "7"]),
            expiry: None
        },
        read_quicklist_2(&mut ByteSource::new(bytes), b"k", None).unwrap()
    );
    assert_eq!(
        Err(corrupt(Container::Quicklist, Defect::UnknownNodeContainer(3))),
        read_quicklist_2(&mut source(&[1, 3, 1, 0x61]), b"k", None)
    );
}

#[test]
fn set_intset_and_listpack() {
    let intset = vec![2, 0, 0, 0, 3, 0, 0, 0, 0xFF, 0xFF, 0x01, 0x00, 0x00, 0x01];
    assert_eq!(
        RdbValue::PlainSet {
            key: b"s".to_vec(),
            members: texts(&["-1", "1", "256"]),
            expiry: None
        },
        read_set_intset(&mut ByteSource::new(blob(&intset)), b"s", None).unwrap()
    );
    assert_eq!(
        RdbValue::PlainSet {
            key: b"s".to_vec(),
            members: texts(&["5", "ab", "-1"]),
            expiry: Some(1)
        },
        read_set_list_pack(
            &mut ByteSource::new(blob(&listpack(3, &THREE_LISTPACK_ENTRIES, &[0xFF]))),
            b"s",
            Some(1)
        )
        .unwrap()
    );
}

#[test]
fn plain_hash_keeps_the_order_of_its_fields() {
    let bytes = [3, 1, 0x62, 1, 0x31, 1, 0x61, 1, 0x32, 1, 0x62, 1, 0x33];
    let value = read_hash(&mut source(&bytes), b"h", None).unwrap();
    assert_eq!(
        RdbValue::Hash { key: b"h".to_vec(), values: fields(&[("b", "3"), ("a", "2")]), expiry: None },
        value
    );
    match value {
        RdbValue::Hash { values, .. } => {
            assert_eq!(
                vec![(&b"b".to_vec(), &b"3".to_vec()), (&b"a".to_vec(), &b"2".to_vec())],
                values.iter().collect::<Vec<_>>()
            );
        }
        _ => unreachable!(),
    }
}

const FOUR_ZIPLIST_ENTRIES: [u8; 11] =
    [0x00, 0x01, 0x61, 0x03, 0xF6, 0x02, 0x01, 0x62, 0x03, 0x01, 0x63];

#[test]
fn hash_ziplist_pairs_up_its_elements() {
    assert_eq!(
        RdbValue::Hash { key: b"h".to_vec(), values: fields(&[("a", "5"), ("b", "c")]), expiry: None },
        read_hash_ziplist(
            &mut ByteSource::new(blob(&ziplist(4, &FOUR_ZIPLIST_ENTRIES, &[0xFF]))),
            b"h",
            None
        )
        .unwrap()
    );
}

#[test]
fn container_of_pairs_with_an_odd_count_is_corrupt() {
    assert_eq!(
        Err(corrupt(Container::Ziplist, Defect::OddElementCount(3))),
        read_hash_ziplist(
            &mut ByteSource::new(blob(&ziplist(3, &THREE_ZIPLIST_ENTRIES, &[0xFF]))),
            b"h",
            None
        )
    );
    assert_eq!(
        Err(corrupt(Container::Ziplist, Defect::OddElementCount(3))),
        read_sorted_set_ziplist(
            &mut ByteSource::new(blob(&ziplist(3, &THREE_ZIPLIST_ENTRIES, &[0xFF]))),
            b"z",
            None
        )
    );
    assert_eq!(
        Err(corrupt(Container::Listpack, Defect::OddElementCount(3))),
        read_hash_list_pack(
            &mut ByteSource::new(blob(&listpack(3, &THREE_LISTPACK_ENTRIES, &[0xFF]))),
            b"h",
            None
        )
    );
    assert_eq!(
        Err(corrupt(Container::Listpack, Defect::OddElementCount(3))),
        read_sorted_set_listpack(
            &mut ByteSource::new(blob(&listpack(3, &THREE_LISTPACK_ENTRIES, &[0xFF]))),
            b"z",
            None
        )
    );
}

const FOUR_LISTPACK_ENTRIES: [u8; 13] =
    [0x81, 0x61, 0x02, 0x05, 0x01, 0x81, 0x62, 0x02, 0x83, 0x31, 0x2E, 0x35, 0x04];

#[test]
fn hash_listpack_pairs_up_its_elements() {
    assert_eq!(
        RdbValue::Hash {
            key: b"h".to_vec(),
            values: fields(&[("a", "5"), ("b", "1.5")]),
            expiry: None
        },
        read_hash_list_pack(
            &mut ByteSource::new(blob(&listpack(4, &FOUR_LISTPACK_ENTRIES, &[0xFF]))),
            b"h",
            None
        )
        .unwrap()
    );
    assert_eq!(
        Err(corrupt(Container::Listpack, Defect::MissingTerminator)),
        read_hash_list_pack(
            &mut ByteSource::new(blob(&listpack(4, &FOUR_LISTPACK_ENTRIES, &[]))),
            b"h",
            None
        )
    );
}

#[test]
fn hash_zipmap_is_one_blob() {
    let zipmap = [2, 1, 0x61, 1, 0, 0x78, 1, 0x62, 1, 0, 0x79, 0xFF];
    assert_eq!(
        RdbValue::Hash { key: b"h".to_vec(), values: fields(&[("a", "x"), ("b", "y")]), expiry: Some(9) },
        read_hash_zipmap(&mut ByteSource::new(blob(&zipmap)), b"h", Some(9)).unwrap()
    );
}

#[test]
fn hash_field_that_comes_twice_keeps_its_place() {
    let bytes = [3, 1, 0x61, 1, 0x31, 1, 0x62, 1, 0x32, 1, 0x61, 1, 0x33];
    match read_hash(&mut source(&bytes), b"h", None).unwrap() {
        RdbValue::Hash { values, .. } => {
            assert_eq!(
                vec![(&b"a".to_vec(), &b"3".to_vec()), (&b"b".to_vec(), &b"2".to_vec())],
                values.iter().collect::<Vec<_>>()
            );
        }
        _ => unreachable!(),
    }
}

#[test]
fn score_sentinels() {
    assert_eq!(Score::NotANumber, read_score(&mut source(&[253]), false).unwrap());
    assert_eq!(
        Score::PositiveInfinity,
        read_score(&mut source(&[254]), false).unwrap()
    );
    assert_eq!(
        Score::NegativeInfinity,
        read_score(&mut source(&[255]), false).unwrap()
    );
    let mut input = source(&[3, 0x31, 0x2E, 0x35, 0x99]);
    assert_eq!(
        Score::Text(b"1.5".to_vec()),
        read_score(&mut input, false).unwrap()
    );
    assert_eq!(4, input.position());
    assert_eq!(
        Err(RdbError::IoFailure),
        read_score(&mut source(&[3, 0x31]), false)
    );
}

#[test]
fn score_bits_of_the_sentinels() {
    assert!(f64::from_bits(Score::NotANumber.to_bits(None).unwrap()).is_nan());
    assert_eq!(
        f64::INFINITY,
        f64::from_bits(Score::PositiveInfinity.to_bits(None).unwrap())
    );
    assert_eq!(
        f64::NEG_INFINITY,
        f64::from_bits(Score::NegativeInfinity.to_bits(None).unwrap())
    );
    assert_eq!(f64::NAN.to_bits(), Score::NotANumber.to_bits(Some(7)).unwrap());
    assert_eq!(Ok(42), Score::Bits(42).to_bits(None));
    assert_eq!(
        Ok(1.5f64.to_bits()),
        Score::Text(b"1.5".to_vec()).to_bits(Some(1.5f64.to_bits()))
    );
    assert_eq!(
        Err(RdbError::NumericParse),
        Score::Text(b"abc".to_vec()).to_bits(None)
    );
}

#[test]
fn binary_score_keeps_its_bit_pattern() {
    let bits = 2.5f64.to_bits();
    let mut input = ByteSource::new(bits.to_le_bytes().to_vec());
    assert_eq!(Score::Bits(bits), read_score(&mut input, true).unwrap());
    assert_eq!(8, input.position());
    let odd = 0x7ff8_0000_dead_beefu64;
    assert_eq!(
        Score::Bits(odd),
        read_score(&mut ByteSource::new(odd.to_le_bytes().to_vec()), true).unwrap()
    );
}

#[test]
fn plain_sorted_sets() {
    let bytes = [2, 1, 0x61, 3, 0x31, 0x2E, 0x35, 1, 0x62, 254];
    assert_eq!(
        RdbValue::SortedSet {
            key: b"z".to_vec(),
            values: vec![
                (Score::Text(b"1.5".to_vec()), b"a".to_vec()),
                (Score::PositiveInfinity, b"b".to_vec())
            ],
            expiry: None
        },
        read_sorted_set(&mut source(&bytes), b"z", None, false).unwrap()
    );
    let mut binary = vec![1, 1, 0x61];
    binary.extend_from_slice(&(-0.5f64).to_bits().to_le_bytes());
    assert_eq!(
        RdbValue::SortedSet {
            key: b"z".to_vec(),
            values: vec![(Score::Bits((-0.5f64).to_bits()), b"a".to_vec())],
            expiry: Some(3)
        },
        read_sorted_set(&mut ByteSource::new(binary), b"z", Some(3), true).unwrap()
    );
}

#[test]
fn packed_sorted_sets_keep_the_score_text() {
    assert_eq!(
        RdbValue::SortedSet {
            key: b"z".to_vec(),
            values: vec![
                (Score::Text(b"5".to_vec()), b"a".to_vec()),
                (Score::Text(b"c".to_vec()), b"b".to_vec())
            ],
            expiry: None
        },
        read_sorted_set_ziplist(
            &mut ByteSource::new(blob(&ziplist(4, &FOUR_ZIPLIST_ENTRIES, &[0xFF]))),
            b"z",
            None
        )
        .unwrap()
    );
    assert_eq!(
        RdbValue::SortedSet {
            key: b"z".to_vec(),
            values: vec![
                (Score::Text(b"5".to_vec()), b"a".to_vec()),
                (Score::Text(b"1.5".to_vec()), b"b".to_vec())
            ],
            expiry: None
        },
        read_sorted_set_listpack(
            &mut ByteSource::new(blob(&listpack(4, &FOUR_LISTPACK_ENTRIES, &[0xFF]))),
            b"z",
            None
        )
        .unwrap()
    );
    assert_eq!(
        Err(corrupt(Container::Listpack, Defect::MissingTerminator)),
        read_sorted_set_listpack(
            &mut ByteSource::new(blob(&listpack(4, &FOUR_LISTPACK_ENTRIES, &[0x01]))),
            b"z",
            None
        )
    );
}
