//! The formatter that prints one JSON array of databases, each an object
//! of its keys.

use indexmap::IndexMap;
use vstd::prelude::*;
use vstd::string::StringSliceAdditionalSpecFns;
use vstd::utf8::valid_utf8;

use crate::fields::{hash_entries, hash_get_index, hash_len};
use crate::formatter::plain::hex_digit;
use crate::formatter::{score_text, write_str, Formatter};
use crate::source::byte_strings;
use crate::types::{scored_view, RdbValue, Record, Score, ScoreView};

verus! {

/// What stands for one byte of a text inside a JSON string: the quotation
/// mark and the backslash get a backslash before them; backspace, tab,
/// line feed, form feed and carriage return get their short escape; the
/// other control characters and the delete character get the escape of
/// their code point with four lower-case hexadecimal digits; every other
/// byte stands for itself.
pub open spec fn json_escaped_byte(b: u8) -> Seq<u8> {
    if b == 0x22 {
        "\\\"".spec_bytes()
    } else if b == 0x5c {
        "\\\\".spec_bytes()
    } else if b == 0x08 {
        "\\b".spec_bytes()
    } else if b == 0x09 {
        "\\t".spec_bytes()
    } else if b == 0x0a {
        "\\n".spec_bytes()
    } else if b == 0x0c {
        "\\f".spec_bytes()
    } else if b == 0x0d {
        "\\r".spec_bytes()
    } else if b < 0x20 || b == 0x7f {
        code_point_escape(b)
    } else {
        seq![b]
    }
}

/// The escape of the code point of a byte: backslash, `u`, two zeros and
/// the two lower-case hexadecimal digits of the byte.
pub open spec fn code_point_escape(b: u8) -> Seq<u8> {
    "\\u00".spec_bytes().push(hex_digit(b as int / 16)).push(hex_digit(b as int % 16))
}

/// The bytes of a text with each byte escaped for a JSON string.
pub open spec fn json_escaped(text: Seq<u8>) -> Seq<u8>
    decreases text.len(),
{
    if text.len() == 0 {
        Seq::empty()
    } else {
        json_escaped(text.drop_last()) + json_escaped_byte(text.last())
    }
}

/// The JSON string of a text: its escaped bytes between quotation marks.
pub open spec fn json_string(text: Seq<u8>) -> Seq<u8> {
    "\"".spec_bytes() + json_escaped(text) + "\"".spec_bytes()
}

/// What stands for one byte of a byte string that is no text: a printable
/// ASCII character stands for itself, every other byte is the escape of
/// its code point.
pub open spec fn ascii_escaped_byte(b: u8) -> Seq<u8> {
    if 32 <= b < 127 {
        seq![b]
    } else {
        code_point_escape(b)
    }
}

/// The bytes of a byte string that is no text, each made ASCII.
pub open spec fn ascii_escaped(value: Seq<u8>) -> Seq<u8>
    decreases value.len(),
{
    if value.len() == 0 {
        Seq::empty()
    } else {
        ascii_escaped(value.drop_last()) + ascii_escaped_byte(value.last())
    }
}

/// The string that the formatter prints for a key or a value: the JSON
/// string of the text, where the bytes are UTF-8; else the bytes made
/// ASCII, between quotation marks.
pub open spec fn encoded(value: Seq<u8>) -> Seq<u8> {
    if valid_utf8(value) {
        json_string(value)
    } else {
        "\"".spec_bytes() + ascii_escaped(value) + "\"".spec_bytes()
    }
}

/// `std::str::from_utf8`: the bytes as a string slice, if and only if
/// they are valid UTF-8.
#[verifier::external_body]
fn utf8_text(value: &[u8]) -> (r: Option<&str>)
    ensures
        r is Some <==> valid_utf8(value@),
        r is Some ==> r->Some_0.spec_bytes() == value@,
{
    std::str::from_utf8(value).ok()
}

/// `rustc_serialize::json::encode` of a string slice, as bytes: the
/// string between quotation marks, with the escapes of `json_escaped_byte`.
/// For a string slice the encoder does not fail: only a map key or a
/// failing writer make it fail, and it writes into a string.
#[verifier::external_body]
fn json_encode(text: &str) -> (r: Option<Vec<u8>>)
    ensures
        r is Some,
        r->Some_0@ == json_string(text.spec_bytes()),
{
    rustc_serialize::json::encode(&text).ok().map(String::into_bytes)
}

/// The lower-case hexadecimal digit of a number below sixteen.
fn hex_digit_of(n: u8) -> (r: u8)
    requires
        n < 16,
    ensures
        r == hex_digit(n as int),
{
    if n < 10 {
        48 + n
    } else {
        87 + n
    }
}

/// Makes a key or a value a string of the output.
pub fn encode_to_ascii(value: &[u8]) -> (r: Vec<u8>)
    ensures
        r@ == encoded(value@),
{
    match utf8_text(value) {
        Some(s) => match json_encode(s) {
            Some(text) => text,
            None => Vec::new(),
        },
        None => {
            let mut out: Vec<u8> = Vec::new();
            write_str(&mut out, "\"");
            let ghost head: Seq<u8> = out@;
            let mut i: usize = 0;
            proof {
                assert(value@.take(0) =~= Seq::<u8>::empty());
                assert(out@ =~= head + ascii_escaped(value@.take(0)));
            }
            while i < value.len()
                invariant
                    i <= value@.len(),
                    out@ == head + ascii_escaped(value@.take(i as int)),
                decreases value@.len() - i,
            {
                let b: u8 = value[i];
                let ghost before: Seq<u8> = out@;
                if 32 <= b && b < 127 {
                    out.push(b);
                    proof {
                        assert(out@ =~= before + ascii_escaped_byte(b));
                    }
                } else {
                    write_str(&mut out, "\\u00");
                    out.push(hex_digit_of(b / 16));
                    out.push(hex_digit_of(b % 16));
                    proof {
                        assert(out@ =~= before + ascii_escaped_byte(b));
                    }
                }
                proof {
                    let longer = value@.take(i + 1);
                    assert(longer.drop_last() =~= value@.take(i as int));
                    assert(longer.last() == b);
                    assert(out@ =~= head + ascii_escaped(longer));
                }
                i = i + 1;
            }
            write_str(&mut out, "\"");
            proof {
                assert(value@.take(value@.len() as int) =~= value@);
                assert(out@ =~= encoded(value@));
            }
            out
        },
    }
}

/// What the formatter remembers between two events.
#[derive(Debug, Clone, Copy, PartialEq, Eq, Structural)]
pub struct JsonState {
    /// No database was opened yet.
    pub is_first_db: bool,
    /// A database was opened and is not closed yet.
    pub has_databases: bool,
    /// No key was printed yet in the open database.
    pub is_first_key_in_db: bool,
    /// The number of elements of the container that was printed last.
    pub elements_in_key: u32,
    /// The number of elements printed of that container.
    pub element_index: u32,
}

/// The state of a formatter that has printed nothing.
pub open spec fn json_start() -> JsonState {
    JsonState {
        is_first_db: true,
        has_databases: false,
        is_first_key_in_db: true,
        elements_in_key: 0,
        element_index: 0,
    }
}

/// `len` as a 32-bit number, or the largest 32-bit number if it is larger.
pub open spec fn clamped(len: nat) -> u32 {
    if len > u32::MAX {
        u32::MAX
    } else {
        len as u32
    }
}

/// The comma between two keys of a database: none before the first key.
pub open spec fn key_separator(state: JsonState) -> Seq<u8> {
    if state.is_first_key_in_db {
        Seq::empty()
    } else {
        ",".spec_bytes()
    }
}

/// The comma between two elements of a container: none before the first.
pub open spec fn element_separator(index: nat) -> Seq<u8> {
    if index == 0 {
        Seq::empty()
    } else {
        ",".spec_bytes()
    }
}

/// The state after a key with `elements` elements was printed.
pub open spec fn after_key(state: JsonState, elements: nat) -> JsonState {
    JsonState {
        is_first_key_in_db: false,
        elements_in_key: clamped(elements),
        element_index: clamped(elements),
        ..state
    }
}

/// The first `count` fields of a hash as members of a JSON object.
pub open spec fn json_fields(entries: Seq<(Seq<u8>, Seq<u8>)>, count: nat) -> Seq<u8>
    decreases count,
{
    if count == 0 || count > entries.len() {
        Seq::empty()
    } else {
        json_fields(entries, (count - 1) as nat) + element_separator((count - 1) as nat) + encoded(
            entries[count - 1].0,
        ) + ":".spec_bytes() + encoded(entries[count - 1].1)
    }
}

/// The first `count` values as elements of a JSON array.
pub open spec fn json_elements(values: Seq<Seq<u8>>, count: nat) -> Seq<u8>
    decreases count,
{
    if count == 0 || count > values.len() {
        Seq::empty()
    } else {
        json_elements(values, (count - 1) as nat) + element_separator((count - 1) as nat)
            + encoded(values[count - 1])
    }
}

/// The first `count` entries of a sorted set as members of a JSON object:
/// the member is the name, the text of the score the value.
pub open spec fn json_scored(
    values: Seq<(ScoreView, Seq<u8>)>,
    scores: Seq<Vec<u8>>,
    count: nat,
) -> Seq<u8>
    decreases count,
{
    if count == 0 || count > values.len() {
        Seq::empty()
    } else {
        json_scored(values, scores, (count - 1) as nat) + element_separator((count - 1) as nat)
            + encoded(values[count - 1].1) + ":".spec_bytes() + encoded(
            score_text(scores, count - 1),
        )
    }
}

/// What opens a database: the end of the database before it, if there is
/// one, and an opening brace.
pub open spec fn database_text(state: JsonState) -> Seq<u8> {
    (if state.is_first_db {
        Seq::<u8>::empty()
    } else {
        "},".spec_bytes()
    }) + "{".spec_bytes()
}

/// What the formatter in state `state` prints for a record.
pub open spec fn json_text(state: JsonState, record: Record, scores: Seq<Vec<u8>>) -> Seq<u8> {
    match record {
        Record::SelectDb(_) => database_text(state),
        Record::ResizeDb { .. } => Seq::empty(),
        Record::AuxField { .. } => Seq::empty(),
        Record::Checksum(_) => Seq::empty(),
        Record::String { key, value, .. } => key_separator(state) + encoded(key)
            + ":".spec_bytes() + encoded(value),
        Record::Hash { key, values, .. } => key_separator(state) + encoded(key)
            + ":{".spec_bytes() + json_fields(values, values.len()) + "}".spec_bytes(),
        Record::PlainSet { key, members, .. } => key_separator(state) + encoded(key)
            + ":[".spec_bytes() + json_elements(members, members.len()) + "]".spec_bytes(),
        Record::List { key, values, .. } => key_separator(state) + encoded(key)
            + ":[".spec_bytes() + json_elements(values, values.len()) + "]".spec_bytes(),
        Record::SortedSet { key, values, .. } => key_separator(state) + encoded(key)
            + ":{".spec_bytes() + json_scored(values, scores, values.len()) + "}".spec_bytes(),
    }
}

/// The number of elements of a key/value record; a string has none.
pub open spec fn element_count(record: Record) -> nat {
    match record {
        Record::Hash { values, .. } => values.len(),
        Record::PlainSet { members, .. } => members.len(),
        Record::List { values, .. } => values.len(),
        Record::SortedSet { values, .. } => values.len(),
        _ => 0,
    }
}

/// The state of the formatter after a record.
pub open spec fn json_after(state: JsonState, record: Record) -> JsonState {
    match record {
        Record::SelectDb(_) => JsonState {
            is_first_db: false,
            has_databases: true,
            is_first_key_in_db: true,
            ..state
        },
        Record::ResizeDb { .. } => state,
        Record::AuxField { .. } => state,
        Record::Checksum(_) => state,
        _ => after_key(state, element_count(record)),
    }
}

/// Prints the databases as a JSON array of objects.
pub struct JSON {
    out: Vec<u8>,
    is_first_db: bool,
    has_databases: bool,
    is_first_key_in_db: bool,
    elements_in_key: u32,
    element_index: u32,
}

impl JSON {
    /// The bytes printed and not yet taken.
    pub closed spec fn output(&self) -> Seq<u8> {
        self.out@
    }

    /// What the formatter remembers.
    pub closed spec fn state(&self) -> JsonState {
        JsonState {
            is_first_db: self.is_first_db,
            has_databases: self.has_databases,
            is_first_key_in_db: self.is_first_key_in_db,
            elements_in_key: self.elements_in_key,
            element_index: self.element_index,
        }
    }

    /// A formatter that has printed nothing.
    pub fn new() -> (r: JSON)
        ensures
            r.output() == Seq::<u8>::empty(),
            r.state() == json_start(),
    {
        JSON {
            out: Vec::new(),
            is_first_db: true,
            has_databases: false,
            is_first_key_in_db: true,
            elements_in_key: 0,
            element_index: 0,
        }
    }

    /// Starts a key with `length` elements: a comma, unless it is the
    /// first key of its database.
    pub fn start_key(&mut self, length: u32)
        ensures
            final(self).output() == old(self).output() + key_separator(old(self).state()),
            final(self).state() == (JsonState {
                is_first_key_in_db: false,
                elements_in_key: length,
                element_index: 0,
                ..old(self).state()
            }),
    {
        if !self.is_first_key_in_db {
            write_str(&mut self.out, ",");
        } else {
            proof {
                assert(self.out@ =~= self.out@ + Seq::<u8>::empty());
            }
        }
        self.is_first_key_in_db = false;
        self.elements_in_key = length;
        self.element_index = 0;
    }

    /// Ends a key.
    pub fn end_key(&mut self)
        ensures
            final(self).output() == old(self).output(),
            final(self).state() == old(self).state(),
    {
    }

    /// Starts an element: a comma, unless it is the first of its container.
    pub fn write_comma(&mut self)
        ensures
            final(self).output() == old(self).output() + element_separator(
                old(self).state().element_index as nat,
            ),
            final(self).state() == (JsonState {
                element_index: clamped(old(self).state().element_index as nat + 1),
                ..old(self).state()
            }),
    {
        if self.element_index > 0 {
            write_str(&mut self.out, ",");
        } else {
            proof {
                assert(self.out@ =~= self.out@ + Seq::<u8>::empty());
            }
        }
        if self.element_index < u32::MAX {
            self.element_index = self.element_index + 1;
        }
    }

    /// Prints a key, or the name of a member, as a string.
    pub fn write_key(&mut self, key: &[u8])
        ensures
            final(self).output() == old(self).output() + encoded(key@),
            final(self).state() == old(self).state(),
    {
        let mut text: Vec<u8> = encode_to_ascii(key);
        self.out.append(&mut text);
    }

    /// Prints a value as a string.
    pub fn write_value(&mut self, value: &[u8])
        ensures
            final(self).output() == old(self).output() + encoded(value@),
            final(self).state() == old(self).state(),
    {
        let mut text: Vec<u8> = encode_to_ascii(value);
        self.out.append(&mut text);
    }

    /// Prints one member of an object: a comma unless it is the first, the
    /// name, a colon and the value.
    fn write_member(&mut self, name: &[u8], value: &[u8])
        ensures
            final(self).output() == old(self).output() + element_separator(
                old(self).state().element_index as nat,
            ) + encoded(name@) + ":".spec_bytes() + encoded(value@),
            final(self).state() == (JsonState {
                element_index: clamped(old(self).state().element_index as nat + 1),
                ..old(self).state()
            }),
    {
        self.write_comma();
        self.write_key(name);
        write_str(&mut self.out, ":");
        self.write_value(value);
        proof {
            assert(self.out@ =~= old(self).out@ + element_separator(
                old(self).state().element_index as nat,
            ) + encoded(name@) + ":".spec_bytes() + encoded(value@));
        }
    }

    /// Prints one element of an array: a comma unless it is the first,
    /// and the value.
    fn write_element(&mut self, value: &[u8])
        ensures
            final(self).output() == old(self).output() + element_separator(
                old(self).state().element_index as nat,
            ) + encoded(value@),
            final(self).state() == (JsonState {
                element_index: clamped(old(self).state().element_index as nat + 1),
                ..old(self).state()
            }),
    {
        self.write_comma();
        self.write_value(value);
        proof {
            assert(self.out@ =~= old(self).out@ + element_separator(
                old(self).state().element_index as nat,
            ) + encoded(value@));
        }
    }

    /// Starts a key whose value is a container of `length` elements:
    /// the key and what opens the container.
    fn start_container(&mut self, key: &[u8], length: usize, open: &str)
        ensures
            final(self).output() == old(self).output() + key_separator(old(self).state())
                + encoded(key@) + open.spec_bytes(),
            final(self).state() == (JsonState {
                is_first_key_in_db: false,
                elements_in_key: clamped(length as nat),
                element_index: 0,
                ..old(self).state()
            }),
    {
        let length: u32 = if length > u32::MAX as usize {
            u32::MAX
        } else {
            length as u32
        };
        self.start_key(length);
        self.write_key(key);
        write_str(&mut self.out, open);
        proof {
            assert(self.out@ =~= old(self).out@ + key_separator(old(self).state()) + encoded(key@)
                + open.spec_bytes());
        }
    }
}

impl Formatter for JSON {
    /// A record makes the formatter print its text and remember where in
    /// the array of databases it stands.
    open spec fn becomes(&self, after: &Self, record: Record, scores: Seq<Vec<u8>>) -> bool {
        &&& after.output() == self.output() + json_text(self.state(), record, scores)
        &&& after.state() == json_after(self.state(), record)
    }

    /// Hands over the bytes printed since the last call.
    fn take_output(&mut self) -> (r: Vec<u8>)
        ensures
            r@ == old(self).output(),
            final(self).output() == Seq::<u8>::empty(),
            final(self).state() == old(self).state(),
    {
        let mut taken: Vec<u8> = Vec::new();
        taken.append(&mut self.out);
        taken
    }

    fn checksum(&mut self, _checksum: &[u8])
        ensures
            final(self).output() == old(self).output(),
            final(self).state() == old(self).state(),
    {
    }

    fn end_database(&mut self, _db_index: u32)
        ensures
            final(self).output() == old(self).output(),
            final(self).state() == old(self).state(),
    {
    }

    fn resizedb(&mut self, _db_size: u32, _expires_size: u32)
        ensures
            final(self).output() == old(self).output(),
            final(self).state() == old(self).state(),
    {
    }

    fn aux_field(&mut self, _key: &[u8], _value: &[u8])
        ensures
            final(self).output() == old(self).output(),
            final(self).state() == old(self).state(),
    {
    }

    fn start_rdb(&mut self)
        ensures
            final(self).output() == old(self).output() + "[".spec_bytes(),
            final(self).state() == old(self).state(),
    {
        write_str(&mut self.out, "[");
    }

    fn end_rdb(&mut self)
        ensures
            final(self).output() == old(self).output() + (if old(self).state().has_databases {
                "}".spec_bytes()
            } else {
                Seq::<u8>::empty()
            }) + "]\n".spec_bytes(),
            final(self).state() == old(self).state(),
    {
        if self.has_databases {
            write_str(&mut self.out, "}");
        }
        write_str(&mut self.out, "]\n");
        proof {
            assert(self.out@ =~= old(self).out@ + (if old(self).has_databases {
                "}".spec_bytes()
            } else {
                Seq::<u8>::empty()
            }) + "]\n".spec_bytes());
        }
    }

    fn start_database(&mut self, _db_number: u32)
        ensures
            final(self).output() == old(self).output() + database_text(old(self).state()),
            final(self).state() == (JsonState {
                is_first_db: false,
                has_databases: true,
                is_first_key_in_db: true,
                ..old(self).state()
            }),
    {
        if !self.is_first_db {
            write_str(&mut self.out, "},");
        }
        write_str(&mut self.out, "{");
        proof {
            assert(self.out@ =~= old(self).out@ + database_text(old(self).state()));
        }
        self.is_first_db = false;
        self.has_databases = true;
        self.is_first_key_in_db = true;
    }

    fn string(&mut self, key: &Vec<u8>, value: &Vec<u8>, _expiry: &Option<u64>)
        ensures
            final(self).output() == old(self).output() + key_separator(old(self).state())
                + encoded(key@) + ":".spec_bytes() + encoded(value@),
            final(self).state() == after_key(old(self).state(), 0),
    {
        self.start_key(0);
        self.write_key(key.as_slice());
        write_str(&mut self.out, ":");
        self.write_value(value.as_slice());
        proof {
            assert(self.out@ =~= old(self).out@ + key_separator(old(self).state()) + encoded(key@)
                + ":".spec_bytes() + encoded(value@));
        }
        proof {
            let record = Record::String { key: key@, value: value@, expiry: *_expiry };
            assert(json_after(old(self).state(), record) == after_key(old(self).state(), 0));
            assert(self.out@ =~= old(self).out@ + json_text(old(self).state(), record, Seq::empty()));
        }
    }

    fn hash(&mut self, key: &Vec<u8>, values: &IndexMap<Vec<u8>, Vec<u8>>, _expiry: &Option<u64>)
        ensures
            final(self).output() == old(self).output() + key_separator(old(self).state())
                + encoded(key@) + ":{".spec_bytes() + json_fields(
                hash_entries(*values),
                hash_entries(*values).len(),
            ) + "}".spec_bytes(),
            final(self).state() == after_key(old(self).state(), hash_entries(*values).len()),
    {
        self.object(key, values);
        proof {
            let record = Record::Hash { key: key@, values: hash_entries(*values), expiry: *_expiry };
            assert(json_after(old(self).state(), record) == after_key(old(self).state(), hash_entries(*values).len()));
            assert(self.out@ =~= old(self).out@ + json_text(old(self).state(), record, Seq::empty()));
        }
    }

    fn set(&mut self, key: &Vec<u8>, values: &Vec<Vec<u8>>, _expiry: &Option<u64>)
        ensures
            final(self).output() == old(self).output() + key_separator(old(self).state())
                + encoded(key@) + ":[".spec_bytes() + json_elements(
                byte_strings(values@),
                values@.len(),
            ) + "]".spec_bytes(),
            final(self).state() == after_key(old(self).state(), values@.len()),
    {
        self.array(key, values);
        proof {
            let record = Record::PlainSet { key: key@, members: byte_strings(values@), expiry: *_expiry };
            assert(json_after(old(self).state(), record) == after_key(old(self).state(), values@.len()));
            assert(self.out@ =~= old(self).out@ + json_text(old(self).state(), record, Seq::empty()));
        }
    }

    fn list(&mut self, key: &Vec<u8>, values: &Vec<Vec<u8>>, _expiry: &Option<u64>)
        ensures
            final(self).output() == old(self).output() + key_separator(old(self).state())
                + encoded(key@) + ":[".spec_bytes() + json_elements(
                byte_strings(values@),
                values@.len(),
            ) + "]".spec_bytes(),
            final(self).state() == after_key(old(self).state(), values@.len()),
    {
        self.array(key, values);
        proof {
            let record = Record::List { key: key@, values: byte_strings(values@), expiry: *_expiry };
            assert(json_after(old(self).state(), record) == after_key(old(self).state(), values@.len()));
            assert(self.out@ =~= old(self).out@ + json_text(old(self).state(), record, Seq::empty()));
        }
    }

    fn sorted_set(
        &mut self,
        key: &Vec<u8>,
        values: &Vec<(Score, Vec<u8>)>,
        scores: &Vec<Vec<u8>>,
        _expiry: &Option<u64>,
    )
        ensures
            final(self).output() == old(self).output() + key_separator(old(self).state())
                + encoded(key@) + ":{".spec_bytes() + json_scored(
                scored_view(values@),
                scores@,
                values@.len(),
            ) + "}".spec_bytes(),
            final(self).state() == after_key(old(self).state(), values@.len()),
    {
        self.scored_object(key, values, scores);
        proof {
            let record = Record::SortedSet { key: key@, values: scored_view(values@), expiry: *_expiry };
            assert(json_after(old(self).state(), record) == after_key(old(self).state(), values@.len()));
            assert(self.out@ =~= old(self).out@ + json_text(old(self).state(), record, scores@));
        }
    }

    #[verifier::spinoff_prover]
    #[verifier::rlimit(60)]
    fn format(&mut self, value: &RdbValue, scores: &Vec<Vec<u8>>)
        ensures
            final(self).output() == old(self).output() + json_text(
                old(self).state(),
                value@,
                scores@,
            ),
            final(self).state() == json_after(old(self).state(), value@),
    {
        let ghost state: JsonState = self.state();
        let ghost record: Record = value@;
        match value {
            RdbValue::PlainSet { key, members, expiry } => {
                proof {
                    assert(json_text(state, record, scores@) == key_separator(state) + encoded(key@)
                        + ":[".spec_bytes() + json_elements(
                        byte_strings(members@),
                        members@.len(),
                    ) + "]".spec_bytes());
                    assert(json_after(state, record) == after_key(state, members@.len()));
                }
                self.set(key, members, expiry);
            },
            RdbValue::Hash { key, values, expiry } => {
                proof {
                    assert(json_text(state, record, scores@) == key_separator(state) + encoded(key@)
                        + ":{".spec_bytes() + json_fields(
                        hash_entries(*values),
                        hash_entries(*values).len(),
                    ) + "}".spec_bytes());
                    assert(json_after(state, record) == after_key(
                        state,
                        hash_entries(*values).len(),
                    ));
                }
                self.hash(key, values, expiry);
            },
            RdbValue::List { key, values, expiry } => {
                proof {
                    assert(json_text(state, record, scores@) == key_separator(state) + encoded(key@)
                        + ":[".spec_bytes() + json_elements(byte_strings(values@), values@.len())
                        + "]".spec_bytes());
                    assert(json_after(state, record) == after_key(state, values@.len()));
                }
                self.list(key, values, expiry);
            },
            RdbValue::SortedSet { key, values, expiry } => {
                proof {
                    assert(json_text(state, record, scores@) == key_separator(state) + encoded(key@)
                        + ":{".spec_bytes() + json_scored(
                        scored_view(values@),
                        scores@,
                        values@.len(),
                    ) + "}".spec_bytes());
                    assert(json_after(state, record) == after_key(state, values@.len()));
                }
                self.sorted_set(key, values, scores, expiry);
            },
            RdbValue::String { key, value, expiry } => {
                proof {
                    assert(json_text(state, record, scores@) == key_separator(state) + encoded(key@)
                        + ":".spec_bytes() + encoded(value@));
                    assert(json_after(state, record) == after_key(state, 0));
                }
                self.string(key, value, expiry);
            },
            RdbValue::SelectDb(db_number) => {
                proof {
                    assert(json_text(state, record, scores@) == database_text(state));
                }
                self.start_database(*db_number);
            },
            RdbValue::ResizeDb { .. } => {
                proof {
                    assert(self.out@ =~= old(self).out@ + Seq::<u8>::empty());
                }
            },
            RdbValue::AuxField { .. } => {
                proof {
                    assert(self.out@ =~= old(self).out@ + Seq::<u8>::empty());
                }
            },
            RdbValue::Checksum(_) => {
                proof {
                    assert(self.out@ =~= old(self).out@ + Seq::<u8>::empty());
                }
            },
        }
    }
}

impl JSON {
    /// Prints a key whose value is an object of the fields of a hash.
    #[verifier::spinoff_prover]
    #[verifier::rlimit(50)]
    fn object(&mut self, key: &Vec<u8>, values: &IndexMap<Vec<u8>, Vec<u8>>)
        ensures
            final(self).output() == old(self).output() + key_separator(old(self).state())
                + encoded(key@) + ":{".spec_bytes() + json_fields(
                hash_entries(*values),
                hash_entries(*values).len(),
            ) + "}".spec_bytes(),
            final(self).state() == after_key(old(self).state(), hash_entries(*values).len()),
    {
        let ghost entries: Seq<(Seq<u8>, Seq<u8>)> = hash_entries(*values);
        let count: usize = hash_len(values);
        self.start_container(key.as_slice(), count, ":{");
        let ghost head: Seq<u8> = self.out@;
        let mut i: usize = 0;
        proof {
            assert(self.out@ =~= head + json_fields(entries, 0));
        }
        while i < count
            invariant
                i <= count,
                count == entries.len(),
                entries == hash_entries(*values),
                self.state() == (JsonState {
                    is_first_key_in_db: false,
                    elements_in_key: clamped(count as nat),
                    element_index: clamped(i as nat),
                    ..old(self).state()
                }),
                self.out@ == head + json_fields(entries, i as nat),
            decreases count - i,
        {
            let ghost before: Seq<u8> = self.out@;
            proof {
                assert(element_separator(clamped(i as nat) as nat) == element_separator(i as nat));
                assert(clamped(clamped(i as nat) as nat + 1) == clamped((i + 1) as nat));
            }
            match hash_get_index(values, i) {
                Some((field, value)) => {
                    self.write_member(field.as_slice(), value.as_slice());
                },
                None => {},
            }
            proof {
                let member = element_separator(i as nat) + encoded(entries[i as int].0)
                    + ":".spec_bytes() + encoded(entries[i as int].1);
                assert(json_fields(entries, (i + 1) as nat) == json_fields(entries, i as nat)
                    + element_separator(i as nat) + encoded(entries[i as int].0)
                    + ":".spec_bytes() + encoded(entries[i as int].1));
                assert(self.out@ =~= before + member);
                assert(self.out@ =~= head + json_fields(entries, (i + 1) as nat));
            }
            i = i + 1;
        }
        self.end_key();
        write_str(&mut self.out, "}");
        proof {
            assert(self.out@ =~= old(self).out@ + key_separator(old(self).state()) + encoded(key@)
                + ":{".spec_bytes() + json_fields(entries, entries.len()) + "}".spec_bytes());
        }
    }

    /// Prints a key whose value is an object of the members of a sorted
    /// set, each with the text of its score.
    #[verifier::spinoff_prover]
    #[verifier::rlimit(50)]
    fn scored_object(
        &mut self,
        key: &Vec<u8>,
        values: &Vec<(Score, Vec<u8>)>,
        scores: &Vec<Vec<u8>>,
    )
        ensures
            final(self).output() == old(self).output() + key_separator(old(self).state())
                + encoded(key@) + ":{".spec_bytes() + json_scored(
                scored_view(values@),
                scores@,
                values@.len(),
            ) + "}".spec_bytes(),
            final(self).state() == after_key(old(self).state(), values@.len()),
    {
        let ghost entries: Seq<(ScoreView, Seq<u8>)> = scored_view(values@);
        let empty: Vec<u8> = Vec::new();
        self.start_container(key.as_slice(), values.len(), ":{");
        let ghost head: Seq<u8> = self.out@;
        let mut i: usize = 0;
        proof {
            assert(self.out@ =~= head + json_scored(entries, scores@, 0));
        }
        while i < values.len()
            invariant
                i <= values@.len(),
                entries == scored_view(values@),
                empty@ == Seq::<u8>::empty(),
                self.state() == (JsonState {
                    is_first_key_in_db: false,
                    elements_in_key: clamped(values@.len()),
                    element_index: clamped(i as nat),
                    ..old(self).state()
                }),
                self.out@ == head + json_scored(entries, scores@, i as nat),
            decreases values@.len() - i,
        {
            let score: &[u8] = if i < scores.len() {
                scores[i].as_slice()
            } else {
                empty.as_slice()
            };
            self.write_member(values[i].1.as_slice(), score);
            proof {
                assert(self.out@ =~= head + json_scored(entries, scores@, (i + 1) as nat));
            }
            i = i + 1;
        }
        self.end_key();
        write_str(&mut self.out, "}");
        proof {
            assert(self.out@ =~= old(self).out@ + key_separator(old(self).state()) + encoded(key@)
                + ":{".spec_bytes() + json_scored(entries, scores@, entries.len())
                + "}".spec_bytes());
        }
    }

    /// Prints a key whose value is an array of byte strings.
    #[verifier::spinoff_prover]
    #[verifier::rlimit(50)]
    fn array(&mut self, key: &Vec<u8>, values: &Vec<Vec<u8>>)
        ensures
            final(self).output() == old(self).output() + key_separator(old(self).state())
                + encoded(key@) + ":[".spec_bytes() + json_elements(
                byte_strings(values@),
                values@.len(),
            ) + "]".spec_bytes(),
            final(self).state() == after_key(old(self).state(), values@.len()),
    {
        let ghost elements: Seq<Seq<u8>> = byte_strings(values@);
        self.start_container(key.as_slice(), values.len(), ":[");
        let ghost head: Seq<u8> = self.out@;
        let mut i: usize = 0;
        proof {
            assert(self.out@ =~= head + json_elements(elements, 0));
        }
        while i < values.len()
            invariant
                i <= values@.len(),
                elements == byte_strings(values@),
                self.state() == (JsonState {
                    is_first_key_in_db: false,
                    elements_in_key: clamped(values@.len()),
                    element_index: clamped(i as nat),
                    ..old(self).state()
                }),
                self.out@ == head + json_elements(elements, i as nat),
            decreases values@.len() - i,
        {
            self.write_element(values[i].as_slice());
            proof {
                assert(self.out@ =~= head + json_elements(elements, (i + 1) as nat));
            }
            i = i + 1;
        }
        self.end_key();
        write_str(&mut self.out, "]");
        proof {
            assert(self.out@ =~= old(self).out@ + key_separator(old(self).state()) + encoded(key@)
                + ":[".spec_bytes() + json_elements(elements, elements.len())
                + "]".spec_bytes());
        }
    }
}

} // verus!
