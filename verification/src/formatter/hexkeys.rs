//! The formatter that prints the keys alone, in hexadecimal.

use indexmap::IndexMap;
use vstd::prelude::*;
use vstd::string::StringSliceAdditionalSpecFns;

use crate::formatter::plain::{hex_text, to_hex};
use crate::formatter::{write_str, Formatter};
use crate::types::{RdbValue, Record, Score};

verus! {

/// The line of a key: its bytes in hexadecimal.
pub open spec fn key_line(key: Seq<u8>) -> Seq<u8> {
    hex_text(key) + "\n".spec_bytes()
}

/// What the formatter prints for a record: the line of its key, if it
/// has one.
pub open spec fn hexkeys_text(record: Record) -> Seq<u8> {
    match record.key() {
        Some(key) => key_line(key),
        None => Seq::empty(),
    }
}

/// Prints one line for each key: the key in hexadecimal. The values are
/// not printed.
pub struct HexKeys {
    out: Vec<u8>,
}

impl HexKeys {
    /// The bytes printed and not yet taken.
    pub closed spec fn output(&self) -> Seq<u8> {
        self.out@
    }

    /// A formatter that has printed nothing.
    pub fn new() -> (r: HexKeys)
        ensures
            r.output() == Seq::<u8>::empty(),
    {
        HexKeys { out: Vec::new() }
    }

    /// Prints the line of a key.
    pub fn matched_key(&mut self, key: &[u8])
        ensures
            final(self).output() == old(self).output() + key_line(key@),
    {
        let mut hex: Vec<u8> = to_hex(key);
        self.out.append(&mut hex);
        write_str(&mut self.out, "\n");
        proof {
            assert(self.out@ =~= old(self).out@ + key_line(key@));
        }
    }
}

impl Formatter for HexKeys {
    /// A record with a key makes the formatter print the line of the key;
    /// any other record leaves it as it is.
    open spec fn becomes(&self, after: &Self, record: Record, scores: Seq<Vec<u8>>) -> bool {
        after.output() == self.output() + hexkeys_text(record)
    }

    fn checksum(&mut self, _checksum: &[u8]) {
        proof {
            assert(self.out@ =~= self.out@ + Seq::<u8>::empty());
        }
    }

    fn start_database(&mut self, _db_index: u32) {
        proof {
            assert(self.out@ =~= self.out@ + Seq::<u8>::empty());
        }
    }

    fn resizedb(&mut self, _db_size: u32, _expires_size: u32) {
        proof {
            assert(self.out@ =~= self.out@ + Seq::<u8>::empty());
        }
    }

    fn aux_field(&mut self, _key: &[u8], _value: &[u8]) {
        proof {
            assert(self.out@ =~= self.out@ + Seq::<u8>::empty());
        }
    }

    fn string(&mut self, key: &Vec<u8>, _value: &Vec<u8>, _expiry: &Option<u64>) {
        self.matched_key(key.as_slice());
    }

    fn hash(&mut self, key: &Vec<u8>, _values: &IndexMap<Vec<u8>, Vec<u8>>, _expiry: &Option<u64>) {
        self.matched_key(key.as_slice());
    }

    fn set(&mut self, key: &Vec<u8>, _values: &Vec<Vec<u8>>, _expiry: &Option<u64>) {
        self.matched_key(key.as_slice());
    }

    fn list(&mut self, key: &Vec<u8>, _values: &Vec<Vec<u8>>, _expiry: &Option<u64>) {
        self.matched_key(key.as_slice());
    }

    fn sorted_set(&mut self, key: &Vec<u8>, _values: &Vec<(Score, Vec<u8>)>, _scores: &Vec<Vec<u8>>, _expiry: &Option<u64>) {
        self.matched_key(key.as_slice());
    }

    /// Hands over the bytes printed since the last call.
    fn take_output(&mut self) -> (r: Vec<u8>)
        ensures
            r@ == old(self).output(),
            final(self).output() == Seq::<u8>::empty(),
    {
        let mut taken: Vec<u8> = Vec::new();
        taken.append(&mut self.out);
        taken
    }

    fn format(&mut self, value: &RdbValue, _scores: &Vec<Vec<u8>>)
        ensures
            final(self).output() == old(self).output() + hexkeys_text(value@),
    {
        match value {
            RdbValue::PlainSet { key, .. } => {
                self.matched_key(key.as_slice());
            },
            RdbValue::Hash { key, .. } => {
                self.matched_key(key.as_slice());
            },
            RdbValue::List { key, .. } => {
                self.matched_key(key.as_slice());
            },
            RdbValue::SortedSet { key, .. } => {
                self.matched_key(key.as_slice());
            },
            RdbValue::String { key, .. } => {
                self.matched_key(key.as_slice());
            },
            _ => {
                proof {
                    assert(self.out@ =~= old(self).out@ + Seq::<u8>::empty());
                }
            },
        }
    }
}

} // verus!
