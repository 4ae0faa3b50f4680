//! The formatter that prints one line of plain text for each element.

use indexmap::IndexMap;
use rustc_serialize::hex::ToHex;
use vstd::prelude::*;
use vstd::string::StringSliceAdditionalSpecFns;

use crate::fields::{hash_entries, hash_get_index, hash_len};
use crate::formatter::{score_text, write_all, write_number, write_str, Formatter};
use crate::numbers::digits;
use crate::source::byte_strings;
use crate::types::{scored_view, RdbValue, Record, Score, ScoreView};

verus! {

/// The lower-case hexadecimal digit of a number below sixteen.
pub open spec fn hex_digit(n: int) -> u8 {
    if n < 10 {
        (48 + n) as u8
    } else {
        (87 + n) as u8
    }
}

/// Two lower-case hexadecimal digits for each byte, in the order of the bytes.
pub open spec fn hex_text(bytes: Seq<u8>) -> Seq<u8>
    decreases bytes.len(),
{
    if bytes.len() == 0 {
        Seq::empty()
    } else {
        hex_text(bytes.drop_last()).push(hex_digit(bytes.last() as int / 16)).push(
            hex_digit(bytes.last() as int % 16),
        )
    }
}

/// `ToHex::to_hex` of `rustc_serialize`, as bytes: for each byte of the
/// input two lower-case hexadecimal digits, the high four bits first.
#[verifier::external_body]
pub(crate) fn to_hex(bytes: &[u8]) -> (r: Vec<u8>)
    ensures
        r@ == hex_text(bytes@),
{
    bytes.to_hex().into_bytes()
}

/// The start of a line: the database.
pub open spec fn line_start(db: u32) -> Seq<u8> {
    "db=".spec_bytes() + digits(db as nat) + " ".spec_bytes()
}

/// The line of a string.
pub open spec fn string_line(db: u32, key: Seq<u8>, value: Seq<u8>) -> Seq<u8> {
    line_start(db) + key + " -> ".spec_bytes() + value + "\n".spec_bytes()
}

/// The line of an auxiliary field.
pub open spec fn aux_line(key: Seq<u8>, value: Seq<u8>) -> Seq<u8> {
    "aux ".spec_bytes() + key + " -> ".spec_bytes() + value + "\n".spec_bytes()
}

/// The line of the checksum.
pub open spec fn checksum_line(checksum: Seq<u8>) -> Seq<u8> {
    "checksum ".spec_bytes() + hex_text(checksum) + "\n".spec_bytes()
}

/// The line of one field of a hash.
pub open spec fn hash_line(db: u32, key: Seq<u8>, field: Seq<u8>, value: Seq<u8>) -> Seq<u8> {
    line_start(db) + key + " . ".spec_bytes() + field + " -> ".spec_bytes() + value
        + "\n".spec_bytes()
}

/// The line of one member of a set.
pub open spec fn set_line(db: u32, key: Seq<u8>, member: Seq<u8>) -> Seq<u8> {
    line_start(db) + key + " { ".spec_bytes() + member + " } ".spec_bytes() + "\n".spec_bytes()
}

/// The start of the line of an element with an index: the database, the
/// key and the index in brackets.
pub open spec fn indexed_start(db: u32, key: Seq<u8>, index: nat) -> Seq<u8> {
    line_start(db) + key + "[".spec_bytes() + digits(index) + "]".spec_bytes()
}

/// The line of the element at `index` of a list.
pub open spec fn list_line(db: u32, key: Seq<u8>, index: nat, value: Seq<u8>) -> Seq<u8> {
    indexed_start(db, key, index) + " -> ".spec_bytes() + value + "\n".spec_bytes()
}

/// The line of the entry at `index` of a sorted set.
pub open spec fn scored_line(
    db: u32,
    key: Seq<u8>,
    index: nat,
    member: Seq<u8>,
    score: Seq<u8>,
) -> Seq<u8> {
    indexed_start(db, key, index) + " -> {".spec_bytes() + member + ", score=".spec_bytes()
        + score + "}\n".spec_bytes()
}

/// The lines of the first `count` fields of a hash.
pub open spec fn hash_lines(db: u32, key: Seq<u8>, entries: Seq<(Seq<u8>, Seq<u8>)>, count: nat) -> Seq<
    u8,
>
    decreases count,
{
    if count == 0 || count > entries.len() {
        Seq::empty()
    } else {
        hash_lines(db, key, entries, (count - 1) as nat) + hash_line(
            db,
            key,
            entries[count - 1].0,
            entries[count - 1].1,
        )
    }
}

/// The lines of the first `count` members of a set.
pub open spec fn set_lines(db: u32, key: Seq<u8>, members: Seq<Seq<u8>>, count: nat) -> Seq<u8>
    decreases count,
{
    if count == 0 || count > members.len() {
        Seq::empty()
    } else {
        set_lines(db, key, members, (count - 1) as nat) + set_line(db, key, members[count - 1])
    }
}

/// The lines of the first `count` elements of a list.
pub open spec fn list_lines(db: u32, key: Seq<u8>, values: Seq<Seq<u8>>, count: nat) -> Seq<u8>
    decreases count,
{
    if count == 0 || count > values.len() {
        Seq::empty()
    } else {
        list_lines(db, key, values, (count - 1) as nat) + list_line(
            db,
            key,
            (count - 1) as nat,
            values[count - 1],
        )
    }
}

/// The lines of the first `count` entries of a sorted set, each with the
/// text of its score.
pub open spec fn scored_lines(
    db: u32,
    key: Seq<u8>,
    values: Seq<(ScoreView, Seq<u8>)>,
    scores: Seq<Vec<u8>>,
    count: nat,
) -> Seq<u8>
    decreases count,
{
    if count == 0 || count > values.len() {
        Seq::empty()
    } else {
        scored_lines(db, key, values, scores, (count - 1) as nat) + scored_line(
            db,
            key,
            (count - 1) as nat,
            values[count - 1].1,
            score_text(scores, count - 1),
        )
    }
}

/// What the formatter prints for a record while database `db` is selected.
pub open spec fn plain_text(db: u32, record: Record, scores: Seq<Vec<u8>>) -> Seq<u8> {
    match record {
        Record::SelectDb(_) => Seq::empty(),
        Record::ResizeDb { .. } => Seq::empty(),
        Record::AuxField { key, value } => aux_line(key, value),
        Record::Checksum(checksum) => checksum_line(checksum),
        Record::String { key, value, .. } => string_line(db, key, value),
        Record::Hash { key, values, .. } => hash_lines(db, key, values, values.len()),
        Record::PlainSet { key, members, .. } => set_lines(db, key, members, members.len()),
        Record::List { key, values, .. } => list_lines(db, key, values, values.len()),
        Record::SortedSet { key, values, .. } => scored_lines(
            db,
            key,
            values,
            scores,
            values.len(),
        ),
    }
}

/// The database that is selected after a record, if `db` was before it.
pub open spec fn selected_after(db: u32, record: Record) -> u32 {
    match record {
        Record::SelectDb(selected) => selected,
        _ => db,
    }
}

/// Prints one line for each string, each element of a container, each
/// auxiliary field and the checksum.
pub struct Plain {
    out: Vec<u8>,
    dbnum: u32,
}

impl Plain {
    /// The bytes printed and not yet taken.
    pub closed spec fn output(&self) -> Seq<u8> {
        self.out@
    }

    /// The database that the last database marker selected.
    pub closed spec fn database(&self) -> u32 {
        self.dbnum
    }

    /// A formatter that has printed nothing, with database 0 selected.
    pub fn new() -> (r: Plain)
        ensures
            r.output() == Seq::<u8>::empty(),
            r.database() == 0,
    {
        Plain { out: Vec::new(), dbnum: 0 }
    }

    /// Prints the start of a line: the selected database.
    pub fn write_line_start(&mut self)
        ensures
            final(self).output() == old(self).output() + line_start(old(self).database()),
            final(self).database() == old(self).database(),
    {
        write_str(&mut self.out, "db=");
        write_number(&mut self.out, self.dbnum as u64);
        write_str(&mut self.out, " ");
        proof {
            assert(self.out@ =~= old(self).out@ + line_start(self.dbnum));
        }
    }

    /// Prints the line of one field of a hash.
    pub fn hash_element(&mut self, key: &[u8], field: &[u8], value: &[u8])
        ensures
            final(self).output() == old(self).output() + hash_line(
                old(self).database(),
                key@,
                field@,
                value@,
            ),
            final(self).database() == old(self).database(),
    {
        self.write_line_start();
        write_all(&mut self.out, key);
        write_str(&mut self.out, " . ");
        write_all(&mut self.out, field);
        write_str(&mut self.out, " -> ");
        write_all(&mut self.out, value);
        write_str(&mut self.out, "\n");
        proof {
            assert(self.out@ =~= old(self).out@ + hash_line(self.dbnum, key@, field@, value@));
        }
    }

    /// Prints the line of one member of a set.
    pub fn set_element(&mut self, key: &[u8], member: &[u8])
        ensures
            final(self).output() == old(self).output() + set_line(
                old(self).database(),
                key@,
                member@,
            ),
            final(self).database() == old(self).database(),
    {
        self.write_line_start();
        write_all(&mut self.out, key);
        write_str(&mut self.out, " { ");
        write_all(&mut self.out, member);
        write_str(&mut self.out, " } ");
        write_str(&mut self.out, "\n");
        proof {
            assert(self.out@ =~= old(self).out@ + set_line(self.dbnum, key@, member@));
        }
    }

    /// Prints the start of the line of an element with an index.
    fn write_indexed_start(&mut self, key: &[u8], index: usize)
        ensures
            final(self).output() == old(self).output() + indexed_start(
                old(self).database(),
                key@,
                index as nat,
            ),
            final(self).database() == old(self).database(),
    {
        self.write_line_start();
        write_all(&mut self.out, key);
        write_str(&mut self.out, "[");
        write_number(&mut self.out, index as u64);
        write_str(&mut self.out, "]");
        proof {
            assert(self.out@ =~= old(self).out@ + indexed_start(self.dbnum, key@, index as nat));
        }
    }

    /// Prints the line of the element at `index` of a list.
    pub fn list_element(&mut self, key: &[u8], index: usize, value: &[u8])
        ensures
            final(self).output() == old(self).output() + list_line(
                old(self).database(),
                key@,
                index as nat,
                value@,
            ),
            final(self).database() == old(self).database(),
    {
        self.write_indexed_start(key, index);
        write_str(&mut self.out, " -> ");
        write_all(&mut self.out, value);
        write_str(&mut self.out, "\n");
        proof {
            assert(self.out@ =~= old(self).out@ + list_line(
                self.dbnum,
                key@,
                index as nat,
                value@,
            ));
        }
    }

    /// Prints the line of the entry at `index` of a sorted set.
    pub fn sorted_set_element(&mut self, key: &[u8], index: usize, score: &[u8], member: &[u8])
        ensures
            final(self).output() == old(self).output() + scored_line(
                old(self).database(),
                key@,
                index as nat,
                member@,
                score@,
            ),
            final(self).database() == old(self).database(),
    {
        self.write_indexed_start(key, index);
        write_str(&mut self.out, " -> {");
        write_all(&mut self.out, member);
        write_str(&mut self.out, ", score=");
        write_all(&mut self.out, score);
        write_str(&mut self.out, "}\n");
        proof {
            assert(self.out@ =~= old(self).out@ + scored_line(
                self.dbnum,
                key@,
                index as nat,
                member@,
                score@,
            ));
        }
    }
}

impl Formatter for Plain {
    /// A record makes the formatter print its lines, and a database marker
    /// selects its database.
    open spec fn becomes(&self, after: &Self, record: Record, scores: Seq<Vec<u8>>) -> bool {
        &&& after.output() == self.output() + plain_text(self.database(), record, scores)
        &&& after.database() == selected_after(self.database(), record)
    }

    /// Hands over the bytes printed since the last call.
    fn take_output(&mut self) -> (r: Vec<u8>)
        ensures
            r@ == old(self).output(),
            final(self).output() == Seq::<u8>::empty(),
            final(self).database() == old(self).database(),
    {
        let mut taken: Vec<u8> = Vec::new();
        taken.append(&mut self.out);
        taken
    }

    fn start_rdb(&mut self)
        ensures
            final(self).output() == old(self).output(),
            final(self).database() == old(self).database(),
    {
    }

    fn end_rdb(&mut self)
        ensures
            final(self).output() == old(self).output(),
            final(self).database() == old(self).database(),
    {
    }

    fn end_database(&mut self, _db_index: u32)
        ensures
            final(self).output() == old(self).output(),
            final(self).database() == old(self).database(),
    {
    }

    fn resizedb(&mut self, _db_size: u32, _expires_size: u32)
        ensures
            final(self).output() == old(self).output(),
            final(self).database() == old(self).database(),
    {
    }

    fn checksum(&mut self, checksum: &[u8])
        ensures
            final(self).output() == old(self).output() + checksum_line(checksum@),
            final(self).database() == old(self).database(),
    {
        write_str(&mut self.out, "checksum ");
        let mut hex: Vec<u8> = to_hex(checksum);
        self.out.append(&mut hex);
        write_str(&mut self.out, "\n");
        proof {
            assert(self.out@ =~= old(self).out@ + checksum_line(checksum@));
        }
    }

    fn start_database(&mut self, db_number: u32)
        ensures
            final(self).output() == old(self).output(),
            final(self).database() == db_number,
    {
        self.dbnum = db_number;
    }

    fn string(&mut self, key: &Vec<u8>, value: &Vec<u8>, _expiry: &Option<u64>)
        ensures
            final(self).output() == old(self).output() + string_line(
                old(self).database(),
                key@,
                value@,
            ),
            final(self).database() == old(self).database(),
    {
        self.write_line_start();
        write_all(&mut self.out, key.as_slice());
        write_str(&mut self.out, " -> ");
        write_all(&mut self.out, value.as_slice());
        write_str(&mut self.out, "\n");
        proof {
            assert(self.out@ =~= old(self).out@ + string_line(self.dbnum, key@, value@));
        }
    }

    fn aux_field(&mut self, key: &[u8], value: &[u8])
        ensures
            final(self).output() == old(self).output() + aux_line(key@, value@),
            final(self).database() == old(self).database(),
    {
        write_str(&mut self.out, "aux ");
        write_all(&mut self.out, key);
        write_str(&mut self.out, " -> ");
        write_all(&mut self.out, value);
        write_str(&mut self.out, "\n");
        proof {
            assert(self.out@ =~= old(self).out@ + aux_line(key@, value@));
        }
    }

    fn hash(&mut self, key: &Vec<u8>, values: &IndexMap<Vec<u8>, Vec<u8>>, _expiry: &Option<u64>)
        ensures
            final(self).output() == old(self).output() + hash_lines(
                old(self).database(),
                key@,
                hash_entries(*values),
                hash_entries(*values).len(),
            ),
            final(self).database() == old(self).database(),
    {
        let ghost entries: Seq<(Seq<u8>, Seq<u8>)> = hash_entries(*values);
        let count: usize = hash_len(values);
        let mut i: usize = 0;
        proof {
            assert(self.out@ =~= old(self).out@ + hash_lines(self.dbnum, key@, entries, 0));
        }
        while i < count
            invariant
                i <= count,
                count == entries.len(),
                entries == hash_entries(*values),
                self.dbnum == old(self).dbnum,
                self.out@ == old(self).out@ + hash_lines(self.dbnum, key@, entries, i as nat),
            decreases count - i,
        {
            match hash_get_index(values, i) {
                Some((field, value)) => {
                    self.hash_element(key.as_slice(), field.as_slice(), value.as_slice());
                },
                None => {},
            }
            proof {
                assert(self.out@ =~= old(self).out@ + hash_lines(
                    self.dbnum,
                    key@,
                    entries,
                    (i + 1) as nat,
                ));
            }
            i = i + 1;
        }
    }

    fn set(&mut self, key: &Vec<u8>, values: &Vec<Vec<u8>>, _expiry: &Option<u64>)
        ensures
            final(self).output() == old(self).output() + set_lines(
                old(self).database(),
                key@,
                byte_strings(values@),
                values@.len(),
            ),
            final(self).database() == old(self).database(),
    {
        let ghost members: Seq<Seq<u8>> = byte_strings(values@);
        let mut i: usize = 0;
        proof {
            assert(self.out@ =~= old(self).out@ + set_lines(self.dbnum, key@, members, 0));
        }
        while i < values.len()
            invariant
                i <= values@.len(),
                members == byte_strings(values@),
                self.dbnum == old(self).dbnum,
                self.out@ == old(self).out@ + set_lines(self.dbnum, key@, members, i as nat),
            decreases values@.len() - i,
        {
            self.set_element(key.as_slice(), values[i].as_slice());
            proof {
                assert(self.out@ =~= old(self).out@ + set_lines(
                    self.dbnum,
                    key@,
                    members,
                    (i + 1) as nat,
                ));
            }
            i = i + 1;
        }
    }

    fn list(&mut self, key: &Vec<u8>, values: &Vec<Vec<u8>>, _expiry: &Option<u64>)
        ensures
            final(self).output() == old(self).output() + list_lines(
                old(self).database(),
                key@,
                byte_strings(values@),
                values@.len(),
            ),
            final(self).database() == old(self).database(),
    {
        let ghost elements: Seq<Seq<u8>> = byte_strings(values@);
        let mut i: usize = 0;
        proof {
            assert(self.out@ =~= old(self).out@ + list_lines(self.dbnum, key@, elements, 0));
        }
        while i < values.len()
            invariant
                i <= values@.len(),
                elements == byte_strings(values@),
                self.dbnum == old(self).dbnum,
                self.out@ == old(self).out@ + list_lines(self.dbnum, key@, elements, i as nat),
            decreases values@.len() - i,
        {
            self.list_element(key.as_slice(), i, values[i].as_slice());
            proof {
                assert(self.out@ =~= old(self).out@ + list_lines(
                    self.dbnum,
                    key@,
                    elements,
                    (i + 1) as nat,
                ));
            }
            i = i + 1;
        }
    }

    fn sorted_set(
        &mut self,
        key: &Vec<u8>,
        values: &Vec<(Score, Vec<u8>)>,
        scores: &Vec<Vec<u8>>,
        _expiry: &Option<u64>,
    )
        ensures
            final(self).output() == old(self).output() + scored_lines(
                old(self).database(),
                key@,
                scored_view(values@),
                scores@,
                values@.len(),
            ),
            final(self).database() == old(self).database(),
    {
        let ghost entries: Seq<(ScoreView, Seq<u8>)> = scored_view(values@);
        let empty: Vec<u8> = Vec::new();
        let mut i: usize = 0;
        proof {
            assert(self.out@ =~= old(self).out@ + scored_lines(
                self.dbnum,
                key@,
                entries,
                scores@,
                0,
            ));
        }
        while i < values.len()
            invariant
                i <= values@.len(),
                entries == scored_view(values@),
                empty@ == Seq::<u8>::empty(),
                self.dbnum == old(self).dbnum,
                self.out@ == old(self).out@ + scored_lines(
                    self.dbnum,
                    key@,
                    entries,
                    scores@,
                    i as nat,
                ),
            decreases values@.len() - i,
        {
            let score: &[u8] = if i < scores.len() {
                scores[i].as_slice()
            } else {
                empty.as_slice()
            };
            self.sorted_set_element(key.as_slice(), i, score, values[i].1.as_slice());
            proof {
                assert(self.out@ =~= old(self).out@ + scored_lines(
                    self.dbnum,
                    key@,
                    entries,
                    scores@,
                    (i + 1) as nat,
                ));
            }
            i = i + 1;
        }
    }

    fn format(&mut self, value: &RdbValue, scores: &Vec<Vec<u8>>)
        ensures
            final(self).output() == old(self).output() + plain_text(
                old(self).database(),
                value@,
                scores@,
            ),
            final(self).database() == selected_after(old(self).database(), value@),
    {
        match value {
            RdbValue::PlainSet { key, members, expiry } => {
                self.set(key, members, expiry);
            },
            RdbValue::Hash { key, values, expiry } => {
                self.hash(key, values, expiry);
            },
            RdbValue::List { key, values, expiry } => {
                self.list(key, values, expiry);
            },
            RdbValue::SortedSet { key, values, expiry } => {
                self.sorted_set(key, values, scores, expiry);
            },
            RdbValue::String { key, value, expiry } => {
                self.string(key, value, expiry);
            },
            RdbValue::SelectDb(db_number) => {
                self.start_database(*db_number);
                proof {
                    assert(self.out@ =~= old(self).out@ + Seq::<u8>::empty());
                }
            },
            RdbValue::ResizeDb { .. } => {
                proof {
                    assert(self.out@ =~= old(self).out@ + Seq::<u8>::empty());
                }
            },
            RdbValue::AuxField { key, value } => {
                self.aux_field(key.as_slice(), value.as_slice());
            },
            RdbValue::Checksum(checksum) => {
                self.checksum(checksum.as_slice());
            },
        }
    }
}

} // verus!
