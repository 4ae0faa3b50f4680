//! Formatters: they turn records into text.
//!
//! A formatter appends to a buffer of its own and never writes anywhere
//! else; the caller takes the bytes and sends them where they belong.
//!
//! The score of a sorted-set member is a binary64 number, on which this
//! library does not compute. A formatter prints a score as the text that
//! its caller hands it.

pub mod hexkeys;
pub mod json;
pub mod nil;
pub mod plain;
pub mod protocol;

use indexmap::IndexMap;
use vstd::prelude::*;
use vstd::slice::slice_to_vec;
use vstd::string::StringSliceAdditionalSpecFns;

pub use crate::formatter::hexkeys::HexKeys;
pub use crate::formatter::json::JSON;
pub use crate::formatter::nil::Nil;
pub use crate::formatter::plain::Plain;
pub use crate::formatter::protocol::Protocol;
use crate::fields::hash_entries;
use crate::formatter::json::{json_after, json_start, json_text, JsonState};
use crate::formatter::plain::{plain_text, selected_after};
use crate::formatter::protocol::protocol_text;
use crate::numbers::{decimal_u64, digits};
use crate::source::byte_strings;
use crate::types::{scored_view, RdbValue, Record, Score};

verus! {

/// Appends the bytes of `data` to `out`.
pub fn write_str(out: &mut Vec<u8>, data: &str)
    ensures
        final(out)@ == old(out)@ + data.spec_bytes(),
{
    let mut bytes: Vec<u8> = slice_to_vec(data.as_bytes());
    out.append(&mut bytes);
}

/// Appends `data` to `out`.
pub fn write_all(out: &mut Vec<u8>, data: &[u8])
    ensures
        final(out)@ == old(out)@ + data@,
{
    let mut bytes: Vec<u8> = slice_to_vec(data);
    out.append(&mut bytes);
}

/// Appends the decimal digits of `number` to `out`.
pub fn write_number(out: &mut Vec<u8>, number: u64)
    ensures
        final(out)@ == old(out)@ + digits(number as nat),
{
    let mut bytes: Vec<u8> = decimal_u64(number);
    out.append(&mut bytes);
}

/// The text of the score at `index`: the one that the caller handed over
/// for it, or none where the caller handed over too few.
pub open spec fn score_text(scores: Seq<Vec<u8>>, index: int) -> Seq<u8> {
    if 0 <= index < scores.len() {
        scores[index]@
    } else {
        Seq::empty()
    }
}

/// The score texts that go with a record: those that the caller handed
/// over, with a sorted set; none with any other record.
pub open spec fn told(record: Record, scores: Seq<Vec<u8>>) -> Seq<Vec<u8>> {
    if record is SortedSet {
        scores
    } else {
        Seq::empty()
    }
}

/// What consumes the records of a decoder. Each method appends what the
/// formatter prints for one event to the buffer of the formatter.
///
/// A formatter says with `becomes` what a record makes of it: what it
/// prints for the record and what it remembers afterwards. The method of
/// each kind of record does that to the formatter, and `format` hands a
/// record to the method of its kind; `scores` holds, for a sorted set, the
/// text of each score in the order of the entries.
pub trait Formatter {
    /// Whether `after` is this formatter after it was told of `record`,
    /// with the score texts `scores` if the record is a sorted set.
    spec fn becomes(&self, after: &Self, record: Record, scores: Seq<Vec<u8>>) -> bool;

    /// Hands over the bytes printed since the last call.
    fn take_output(&mut self) -> Vec<u8>;

    fn start_rdb(&mut self) {
    }

    fn end_rdb(&mut self) {
    }

    fn end_database(&mut self, db_index: u32) {
    }

    fn checksum(&mut self, checksum: &[u8])
        ensures
            old(self).becomes(final(self), Record::Checksum(checksum@), Seq::empty()),
    ;

    fn start_database(&mut self, db_index: u32)
        ensures
            old(self).becomes(final(self), Record::SelectDb(db_index), Seq::empty()),
    ;

    fn resizedb(&mut self, db_size: u32, expires_size: u32)
        ensures
            old(self).becomes(
                final(self),
                (Record::ResizeDb { db_size, expires_size }),
                Seq::empty(),
            ),
    ;

    fn aux_field(&mut self, key: &[u8], value: &[u8])
        ensures
            old(self).becomes(
                final(self),
                (Record::AuxField { key: key@, value: value@ }),
                Seq::empty(),
            ),
    ;

    fn string(&mut self, key: &Vec<u8>, value: &Vec<u8>, expiry: &Option<u64>)
        ensures
            old(self).becomes(
                final(self),
                (Record::String { key: key@, value: value@, expiry: *expiry }),
                Seq::empty(),
            ),
    ;

    fn hash(&mut self, key: &Vec<u8>, values: &IndexMap<Vec<u8>, Vec<u8>>, expiry: &Option<u64>)
        ensures
            old(self).becomes(
                final(self),
                (Record::Hash { key: key@, values: hash_entries(*values), expiry: *expiry }),
                Seq::empty(),
            ),
    ;

    fn set(&mut self, key: &Vec<u8>, values: &Vec<Vec<u8>>, expiry: &Option<u64>)
        ensures
            old(self).becomes(
                final(self),
                (Record::PlainSet { key: key@, members: byte_strings(values@), expiry: *expiry }),
                Seq::empty(),
            ),
    ;

    fn list(&mut self, key: &Vec<u8>, values: &Vec<Vec<u8>>, expiry: &Option<u64>)
        ensures
            old(self).becomes(
                final(self),
                (Record::List { key: key@, values: byte_strings(values@), expiry: *expiry }),
                Seq::empty(),
            ),
    ;

    fn sorted_set(
        &mut self,
        key: &Vec<u8>,
        values: &Vec<(Score, Vec<u8>)>,
        scores: &Vec<Vec<u8>>,
        expiry: &Option<u64>,
    )
        ensures
            old(self).becomes(
                final(self),
                (Record::SortedSet { key: key@, values: scored_view(values@), expiry: *expiry }),
                scores@,
            ),
    ;

    fn format(&mut self, value: &RdbValue, scores: &Vec<Vec<u8>>)
        ensures
            old(self).becomes(final(self), value@, told(value@, scores@)),
    {
        match value {
            RdbValue::PlainSet { key, members, expiry } => {
                self.set(key, members, expiry);
            },
            RdbValue::Hash { key, values, expiry } => {
                self.hash(key, values, expiry);
            },
            RdbValue::List { key, values, expiry } => {
                self.list(key, values, expiry);
            },
            RdbValue::SortedSet { key, values, expiry } => {
                self.sorted_set(key, values, scores, expiry);
            },
            RdbValue::String { key, value, expiry } => {
                self.string(key, value, expiry);
            },
            RdbValue::SelectDb(db_number) => {
                self.start_database(*db_number);
            },
            RdbValue::ResizeDb { db_size, expires_size } => {
                self.resizedb(*db_size, *expires_size);
            },
            RdbValue::AuxField { key, value } => {
                self.aux_field(key.as_slice(), value.as_slice());
            },
            RdbValue::Checksum(checksum) => {
                self.checksum(checksum.as_slice());
            },
        }
    }
}

/// One of the bundled formatters, chosen at run time.
pub enum FormatterType {
    Json(JSON),
    Plain(Plain),
    Nil(Nil),
    Protocol(Protocol),
}

/// Whether `after` is the formatter `before` after it printed `text` and
/// came into the state that the event leaves it in; `json` and `plain` are
/// the states of the two formatters that have one.
pub open spec fn continues(
    before: FormatterType,
    after: FormatterType,
    text: Seq<u8>,
    json: JsonState,
    plain: u32,
) -> bool {
    match (before, after) {
        (FormatterType::Json(a), FormatterType::Json(b)) => b.output() == a.output() + text
            && b.state() == json,
        (FormatterType::Plain(a), FormatterType::Plain(b)) => b.output() == a.output() + text
            && b.database() == plain,
        (FormatterType::Nil(_), FormatterType::Nil(_)) => true,
        (FormatterType::Protocol(a), FormatterType::Protocol(b)) => b.output() == a.output()
            + text,
        _ => false,
    }
}

/// The state of the JSON formatter, if that is the chosen one.
pub open spec fn json_state(formatter: FormatterType) -> JsonState {
    match formatter {
        FormatterType::Json(f) => f.state(),
        _ => json_start(),
    }
}

/// The database that the plain formatter has selected, if that is the
/// chosen one.
pub open spec fn plain_database(formatter: FormatterType) -> u32 {
    match formatter {
        FormatterType::Plain(f) => f.database(),
        _ => 0,
    }
}

/// What the chosen formatter prints for a record.
pub open spec fn record_text(formatter: FormatterType, record: Record, scores: Seq<Vec<u8>>) -> Seq<
    u8,
> {
    match formatter {
        FormatterType::Json(f) => json_text(f.state(), record, scores),
        FormatterType::Plain(f) => plain_text(f.database(), record, scores),
        FormatterType::Nil(_) => Seq::empty(),
        FormatterType::Protocol(_) => protocol_text(record, scores),
    }
}

impl FormatterType {
    /// The bytes printed and not yet taken.
    pub open spec fn output(&self) -> Seq<u8> {
        match *self {
            FormatterType::Json(f) => f.output(),
            FormatterType::Plain(f) => f.output(),
            FormatterType::Nil(f) => f.output(),
            FormatterType::Protocol(f) => f.output(),
        }
    }

}

impl Formatter for FormatterType {
    /// A record makes of the chosen formatter what it makes of that
    /// formatter; the choice stays.
    open spec fn becomes(&self, after: &Self, record: Record, scores: Seq<Vec<u8>>) -> bool {
        match (*self, *after) {
            (FormatterType::Json(a), FormatterType::Json(b)) => a.becomes(&b, record, scores),
            (FormatterType::Plain(a), FormatterType::Plain(b)) => a.becomes(&b, record, scores),
            (FormatterType::Nil(a), FormatterType::Nil(b)) => a.becomes(&b, record, scores),
            (FormatterType::Protocol(a), FormatterType::Protocol(b)) => a.becomes(
                &b,
                record,
                scores,
            ),
            _ => false,
        }
    }

    fn checksum(&mut self, checksum: &[u8]) {
        match self {
            FormatterType::Json(f) => {
                Formatter::checksum(f, checksum);
            },
            FormatterType::Plain(f) => {
                Formatter::checksum(f, checksum);
            },
            FormatterType::Nil(f) => {
                Formatter::checksum(f, checksum);
            },
            FormatterType::Protocol(f) => {
                Formatter::checksum(f, checksum);
            },
        }
    }

    fn start_database(&mut self, db_index: u32) {
        match self {
            FormatterType::Json(f) => {
                Formatter::start_database(f, db_index);
            },
            FormatterType::Plain(f) => {
                Formatter::start_database(f, db_index);
            },
            FormatterType::Nil(f) => {
                Formatter::start_database(f, db_index);
            },
            FormatterType::Protocol(f) => {
                Formatter::start_database(f, db_index);
            },
        }
    }

    fn resizedb(&mut self, db_size: u32, expires_size: u32) {
        match self {
            FormatterType::Json(f) => {
                Formatter::resizedb(f, db_size, expires_size);
            },
            FormatterType::Plain(f) => {
                Formatter::resizedb(f, db_size, expires_size);
            },
            FormatterType::Nil(f) => {
                Formatter::resizedb(f, db_size, expires_size);
            },
            FormatterType::Protocol(f) => {
                Formatter::resizedb(f, db_size, expires_size);
            },
        }
    }

    fn aux_field(&mut self, key: &[u8], value: &[u8]) {
        match self {
            FormatterType::Json(f) => {
                Formatter::aux_field(f, key, value);
            },
            FormatterType::Plain(f) => {
                Formatter::aux_field(f, key, value);
            },
            FormatterType::Nil(f) => {
                Formatter::aux_field(f, key, value);
            },
            FormatterType::Protocol(f) => {
                Formatter::aux_field(f, key, value);
            },
        }
    }

    fn string(&mut self, key: &Vec<u8>, value: &Vec<u8>, expiry: &Option<u64>) {
        match self {
            FormatterType::Json(f) => {
                Formatter::string(f, key, value, expiry);
            },
            FormatterType::Plain(f) => {
                Formatter::string(f, key, value, expiry);
            },
            FormatterType::Nil(f) => {
                Formatter::string(f, key, value, expiry);
            },
            FormatterType::Protocol(f) => {
                Formatter::string(f, key, value, expiry);
            },
        }
    }

    fn hash(&mut self, key: &Vec<u8>, values: &IndexMap<Vec<u8>, Vec<u8>>, expiry: &Option<u64>) {
        match self {
            FormatterType::Json(f) => {
                Formatter::hash(f, key, values, expiry);
            },
            FormatterType::Plain(f) => {
                Formatter::hash(f, key, values, expiry);
            },
            FormatterType::Nil(f) => {
                Formatter::hash(f, key, values, expiry);
            },
            FormatterType::Protocol(f) => {
                Formatter::hash(f, key, values, expiry);
            },
        }
    }

    fn set(&mut self, key: &Vec<u8>, values: &Vec<Vec<u8>>, expiry: &Option<u64>) {
        match self {
            FormatterType::Json(f) => {
                Formatter::set(f, key, values, expiry);
            },
            FormatterType::Plain(f) => {
                Formatter::set(f, key, values, expiry);
            },
            FormatterType::Nil(f) => {
                Formatter::set(f, key, values, expiry);
            },
            FormatterType::Protocol(f) => {
                Formatter::set(f, key, values, expiry);
            },
        }
    }

    fn list(&mut self, key: &Vec<u8>, values: &Vec<Vec<u8>>, expiry: &Option<u64>) {
        match self {
            FormatterType::Json(f) => {
                Formatter::list(f, key, values, expiry);
            },
            FormatterType::Plain(f) => {
                Formatter::list(f, key, values, expiry);
            },
            FormatterType::Nil(f) => {
                Formatter::list(f, key, values, expiry);
            },
            FormatterType::Protocol(f) => {
                Formatter::list(f, key, values, expiry);
            },
        }
    }

    fn sorted_set(&mut self, key: &Vec<u8>, values: &Vec<(Score, Vec<u8>)>, scores: &Vec<Vec<u8>>, expiry: &Option<u64>) {
        match self {
            FormatterType::Json(f) => {
                Formatter::sorted_set(f, key, values, scores, expiry);
            },
            FormatterType::Plain(f) => {
                Formatter::sorted_set(f, key, values, scores, expiry);
            },
            FormatterType::Nil(f) => {
                Formatter::sorted_set(f, key, values, scores, expiry);
            },
            FormatterType::Protocol(f) => {
                Formatter::sorted_set(f, key, values, scores, expiry);
            },
        }
    }

    fn take_output(&mut self) -> (r: Vec<u8>)
        ensures
            r@ == old(self).output(),
            final(self).output() == Seq::<u8>::empty(),
    {
        match self {
            FormatterType::Json(f) => f.take_output(),
            FormatterType::Plain(f) => f.take_output(),
            FormatterType::Nil(f) => f.take_output(),
            FormatterType::Protocol(f) => f.take_output(),
        }
    }

    fn start_rdb(&mut self)
        ensures
            continues(
                *old(self),
                *final(self),
                match *old(self) {
                    FormatterType::Json(_) => "[".spec_bytes(),
                    _ => Seq::<u8>::empty(),
                },
                json_state(*old(self)),
                plain_database(*old(self)),
            ),
    {
        match self {
            FormatterType::Json(f) => {
                f.start_rdb();
            },
            FormatterType::Plain(f) => {
                f.start_rdb();
            },
            FormatterType::Nil(f) => {
                f.start_rdb();
            },
            FormatterType::Protocol(f) => {
                f.start_rdb();
            },
        }
    }

    fn end_rdb(&mut self)
        ensures
            continues(
                *old(self),
                *final(self),
                match *old(self) {
                    FormatterType::Json(f) => (if f.state().has_databases {
                        "}".spec_bytes()
                    } else {
                        Seq::<u8>::empty()
                    }) + "]\n".spec_bytes(),
                    _ => Seq::<u8>::empty(),
                },
                json_state(*old(self)),
                plain_database(*old(self)),
            ),
    {
        match self {
            FormatterType::Json(f) => {
                let ghost before: Seq<u8> = f.output();
                let ghost brace: Seq<u8> = if f.state().has_databases {
                    "}".spec_bytes()
                } else {
                    Seq::<u8>::empty()
                };
                f.end_rdb();
                proof {
                    assert(before + brace + "]\n".spec_bytes() =~= before + (brace
                        + "]\n".spec_bytes()));
                }
            },
            FormatterType::Plain(f) => {
                f.end_rdb();
            },
            FormatterType::Nil(f) => {
                f.end_rdb();
            },
            FormatterType::Protocol(f) => {
                f.end_rdb();
            },
        }
    }

    fn format(&mut self, value: &RdbValue, scores: &Vec<Vec<u8>>)
        ensures
            continues(
                *old(self),
                *final(self),
                record_text(*old(self), value@, scores@),
                json_after(json_state(*old(self)), value@),
                selected_after(plain_database(*old(self)), value@),
            ),
    {
        match self {
            FormatterType::Json(f) => {
                f.format(value, scores);
            },
            FormatterType::Plain(f) => {
                f.format(value, scores);
            },
            FormatterType::Nil(f) => {
                f.format(value, scores);
            },
            FormatterType::Protocol(f) => {
                f.format(value, scores);
            },
        }
    }
}

} // verus!
