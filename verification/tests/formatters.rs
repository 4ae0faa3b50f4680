use indexmap::IndexMap;
use rdb::formatter::json::encode_to_ascii;
use rdb::formatter::{write_all, write_number, write_str, HexKeys, Nil, Plain, Protocol, JSON};
use rdb::types::{RdbValue, Record, Score};
use vstd::seq::Seq;
use rdb::{Formatter, FormatterType};

fn text(bytes: Vec<u8>) -> String {
    String::from_utf8(bytes).unwrap()
}

fn blobs(items: &[&str]) -> Vec<Vec<u8>> {
    items.iter().map(|s| s.as_bytes().to_vec()).collect()
}

fn fields(pairs: &[(&str, &str)]) -> IndexMap<Vec<u8>, Vec<u8>> {
    pairs
        .iter()
        .map(|(k, v)| (k.as_bytes().to_vec(), v.as_bytes().to_vec()))
        .collect()
}

fn string(key: &str, value: &str, expiry: Option<u64>) -> RdbValue {
    RdbValue::String { key: key.as_bytes().to_vec(), value: value.as_bytes().to_vec(), expiry }
}

fn sample() -> Vec<(RdbValue, Vec<Vec<u8>>)> {
    vec![
        (RdbValue::AuxField { key: b"ver".to_vec(), value: b"7".to_vec() }, vec![]),
        (RdbValue::SelectDb(0), vec![]),
        (RdbValue::ResizeDb { db_size: 5, expires_size: 1 }, vec![]),
        (string("foo", "bar", Some(1700000000000)), vec![]),
        (
            RdbValue::Hash {
                key: b"h".to_vec(),
                values: fields(&[("name", "John"), ("age", "30")]),
                expiry: None,
            },
            vec![],
        ),
        (
            RdbValue::PlainSet { key: b"s".to_vec(), members: blobs(&["Earth", "Mars"]), expiry: None },
            vec![],
        ),
        (RdbValue::SelectDb(3), vec![]),
        (
            RdbValue::List { key: b"l".to_vec(), values: blobs(&["Rex", "Bella", "Max"]), expiry: None },
            vec![],
        ),
        (
            RdbValue::SortedSet {
                key: b"z".to_vec(),
                values: vec![
                    (Score::Text(b"1.50".to_vec()), b"a".to_vec()),
                    (Score::PositiveInfinity, b"b".to_vec()),
                ],
                expiry: Some(9),
            },
            blobs(&["1.5", "inf"]),
        ),
        (RdbValue::List { key: b"e".to_vec(), values: vec![], expiry: None }, vec![]),
        (RdbValue::Checksum(vec![0x00, 0xAB, 0x1F]), vec![]),
    ]
}

fn run<F: Formatter>(formatter: &mut F) {
    formatter.start_rdb();
    for (record, scores) in sample() {
        formatter.format(&record, &scores);
    }
    formatter.end_rdb();
}

#[test]
fn json_output() {
    let mut formatter = JSON::new();
    run(&mut formatter);
    assert_eq!(
        [
            "[{\"foo\":\"bar\",",
            "\"h\":{\"name\":\"John\",\"age\":\"30\"},",
            "\"s\":[\"Earth\",\"Mars\"]},",
            "{\"l\":[\"Rex\",\"Bella\",\"Max\"],",
            "\"z\":{\"a\":\"1.5\",\"b\":\"inf\"},",
            "\"e\":[]}]\n"
        ]
        .concat(),
        text(formatter.take_output())
    );
    assert_eq!(Vec::<u8>::new(), formatter.take_output());
}

#[test]
fn json_without_databases() {
    let mut formatter = JSON::new();
    formatter.start_rdb();
    formatter.end_rdb();
    assert_eq!("[]\n", text(formatter.take_output()));
}

#[test]
fn json_strings_are_escaped() {
    assert_eq!(b"\"plain\"".to_vec(), encode_to_ascii(b"plain"));
    assert_eq!(b"\"\"".to_vec(), encode_to_ascii(b""));
    assert_eq!(
        b"\"a\\\"b\\\\c\"".to_vec(),
        encode_to_ascii(b"a\"b\\c")
    );
    assert_eq!(
        b"\"\\b\\t\\n\\f\\r\"".to_vec(),
        encode_to_ascii(&[0x08, 0x09, 0x0a, 0x0c, 0x0d])
    );
    assert_eq!(
        b"\"\\u0000\\u000b\\u001f\\u007f\"".to_vec(),
        encode_to_ascii(&[0x00, 0x0b, 0x1f, 0x7f])
    );
    assert_eq!(
        "\"gr\u{fc}n\"".as_bytes().to_vec(),
        encode_to_ascii("gr\u{fc}n".as_bytes())
    );
}

#[test]
fn bytes_that_are_no_text_are_made_ascii() {
    assert_eq!(
        b"\"a\\u00ff\\u0000~\\u007f \\u001f\"".to_vec(),
        encode_to_ascii(&[0x61, 0xFF, 0x00, 0x7E, 0x7F, 0x20, 0x1F])
    );
    assert_eq!(b"\"\\u00c3\"\"".to_vec(), encode_to_ascii(&[0xC3, 0x22]));
}

#[test]
fn plain_output() {
    let mut formatter = Plain::new();
    run(&mut formatter);
    assert_eq!(
        [
            "aux ver -> 7\n",
            "db=0 foo -> bar\n",
            "db=0 h . name -> John\n",
            "db=0 h . age -> 30\n",
            "db=0 s { Earth } \n",
            "db=0 s { Mars } \n",
            "db=3 l[0] -> Rex\n",
            "db=3 l[1] -> Bella\n",
            "db=3 l[2] -> Max\n",
            "db=3 z[0] -> {a, score=1.5}\n",
            "db=3 z[1] -> {b, score=inf}\n",
            "checksum 00ab1f\n"
        ]
        .concat(),
        text(formatter.take_output())
    );
}

#[test]
fn protocol_output() {
    let mut formatter = Protocol::new();
    run(&mut formatter);
    assert_eq!(
        [
            "*2\r\n$6\r\nSELECT\r\n$1\r\n0\r\n",
            "*3\r\n$3\r\nSET\r\n$3\r\nfoo\r\n$3\r\nbar\r\n",
            "*3\r\n$9\r\nPEXPIREAT\r\n$3\r\nfoo\r\n$13\r\n1700000000000\r\n",
            "*4\r\n$4\r\nHSET\r\n$1\r\nh\r\n$4\r\nname\r\n$4\r\nJohn\r\n",
            "*4\r\n$4\r\nHSET\r\n$1\r\nh\r\n$3\r\nage\r\n$2\r\n30\r\n",
            "*3\r\n$4\r\nSADD\r\n$1\r\ns\r\n$5\r\nEarth\r\n",
            "*3\r\n$4\r\nSADD\r\n$1\r\ns\r\n$4\r\nMars\r\n",
            "*2\r\n$6\r\nSELECT\r\n$1\r\n3\r\n",
            "*3\r\n$5\r\nRPUSH\r\n$1\r\nl\r\n$3\r\nRex\r\n",
            "*3\r\n$5\r\nRPUSH\r\n$1\r\nl\r\n$5\r\nBella\r\n",
            "*3\r\n$5\r\nRPUSH\r\n$1\r\nl\r\n$3\r\nMax\r\n",
            "*4\r\n$4\r\nZADD\r\n$1\r\nz\r\n$3\r\n1.5\r\n$1\r\na\r\n",
            "*4\r\n$4\r\nZADD\r\n$1\r\nz\r\n$3\r\ninf\r\n$1\r\nb\r\n",
            "*3\r\n$9\r\nPEXPIREAT\r\n$1\r\nz\r\n$1\r\n9\r\n"
        ]
        .concat(),
        text(formatter.take_output())
    );
}

#[test]
fn protocol_emit_counts_arguments_and_bytes() {
    let mut formatter = Protocol::new();
    let long = vec![0x78u8; 12];
    formatter.emit(vec![b"A".as_slice(), b"".as_slice(), long.as_slice()]);
    assert_eq!(
        "*3\r\n$1\r\nA\r\n$0\r\n\r\n$12\r\nxxxxxxxxxxxx\r\n",
        text(formatter.take_output())
    );
    formatter.emit(vec![]);
    assert_eq!("*0\r\n", text(formatter.take_output()));
}

#[test]
fn protocol_expiry_is_printed_once() {
    let mut formatter = Protocol::new();
    formatter.pre_expire(&Some(5));
    formatter.post_expire(b"k");
    formatter.post_expire(b"k");
    assert_eq!(
        "*3\r\n$9\r\nPEXPIREAT\r\n$1\r\nk\r\n$1\r\n5\r\n",
        text(formatter.take_output())
    );
}

#[test]
fn nil_prints_nothing() {
    let mut formatter = Nil::new();
    run(&mut formatter);
    assert_eq!(Vec::<u8>::new(), formatter.take_output());
}

#[test]
fn hexkeys_prints_the_keys() {
    let mut formatter = HexKeys::new();
    run(&mut formatter);
    assert_eq!(
        "666f6f\n68\n73\n6c\n7a\n65\n",
        text(formatter.take_output())
    );
    formatter.matched_key(&[0x00, 0xFF, 0x1a, 0xA1]);
    assert_eq!("00ff1aa1\n", text(formatter.take_output()));
}

#[test]
fn formatter_type_prints_as_the_chosen_formatter() {
    let mut json = FormatterType::Json(JSON::new());
    run(&mut json);
    let mut direct = JSON::new();
    run(&mut direct);
    assert_eq!(direct.take_output(), json.take_output());

    let mut plain = FormatterType::Plain(Plain::new());
    run(&mut plain);
    let mut direct = Plain::new();
    run(&mut direct);
    assert_eq!(direct.take_output(), plain.take_output());

    let mut protocol = FormatterType::Protocol(Protocol::new());
    run(&mut protocol);
    let mut direct = Protocol::new();
    run(&mut direct);
    assert_eq!(direct.take_output(), protocol.take_output());

    let mut nil = FormatterType::Nil(Nil::new());
    run(&mut nil);
    assert_eq!(Vec::<u8>::new(), nil.take_output());
}

#[test]
fn missing_score_text_is_printed_as_nothing() {
    let record = RdbValue::SortedSet {
        key: b"z".to_vec(),
        values: vec![(Score::NotANumber, b"a".to_vec()), (Score::Bits(0), b"b".to_vec())],
        expiry: None,
    };
    let mut formatter = Plain::new();
    formatter.format(&record, &vec![b"NaN".to_vec()]);
    assert_eq!(
        "db=0 z[0] -> {a, score=NaN}\ndb=0 z[1] -> {b, score=}\n",
        text(formatter.take_output())
    );
}

#[test]
fn writers_append() {
    let mut out = b"x".to_vec();
    write_str(&mut out, "ab");
    write_all(&mut out, &[0x00, 0xFF]);
    write_number(&mut out, 1203);
    write_number(&mut out, 0);
    assert_eq!(
        vec![0x78, 0x61, 0x62, 0x00, 0xFF, 0x31, 0x32, 0x30, 0x33, 0x30],
        out
    );
}

struct Kinds {
    seen: Vec<&'static str>,
}

impl Formatter for Kinds {
    fn becomes(&self, _after: &Self, _record: Record, _scores: Seq<Vec<u8>>) -> bool {
        true
    }

    fn take_output(&mut self) -> Vec<u8> {
        self.seen.join(",").into_bytes()
    }

    fn checksum(&mut self, _checksum: &[u8]) {
        self.seen.push("checksum");
    }

    fn start_database(&mut self, _db_index: u32) {
        self.seen.push("database");
    }

    fn resizedb(&mut self, _db_size: u32, _expires_size: u32) {
        self.seen.push("resize");
    }

    fn aux_field(&mut self, _key: &[u8], _value: &[u8]) {
        self.seen.push("aux");
    }

    fn string(&mut self, _key: &Vec<u8>, _value: &Vec<u8>, _expiry: &Option<u64>) {
        self.seen.push("string");
    }

    fn hash(
        &mut self,
        _key: &Vec<u8>,
        _values: &IndexMap<Vec<u8>, Vec<u8>>,
        _expiry: &Option<u64>,
    ) {
        self.seen.push("hash");
    }

    fn set(&mut self, _key: &Vec<u8>, _values: &Vec<Vec<u8>>, _expiry: &Option<u64>) {
        self.seen.push("set");
    }

    fn list(&mut self, _key: &Vec<u8>, _values: &Vec<Vec<u8>>, _expiry: &Option<u64>) {
        self.seen.push("list");
    }

    fn sorted_set(
        &mut self,
        _key: &Vec<u8>,
        _values: &Vec<(Score, Vec<u8>)>,
        scores: &Vec<Vec<u8>>,
        _expiry: &Option<u64>,
    ) {
        assert_eq!(blobs(&["1.5", "inf"]), *scores);
        self.seen.push("sorted_set");
    }
}

#[test]
fn format_hands_each_record_to_the_method_of_its_kind() {
    let mut formatter = Kinds { seen: Vec::new() };
    run(&mut formatter);
    assert_eq!(
        "aux,database,resize,string,hash,set,database,list,sorted_set,list,checksum",
        text(formatter.take_output())
    );
}
