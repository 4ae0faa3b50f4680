//! The formatter that prints nothing.

use indexmap::IndexMap;
use vstd::prelude::*;

use crate::formatter::Formatter;
use crate::types::{RdbValue, Record, Score};

verus! {

/// Suppresses all output.
pub struct Nil {}

impl Nil {
    /// A formatter that prints nothing.
    pub fn new() -> (r: Nil)
        ensures
            r.output() == Seq::<u8>::empty(),
    {
        Nil {  }
    }

    /// The bytes printed so far: none, ever.
    pub open spec fn output(&self) -> Seq<u8> {
        Seq::empty()
    }
}

impl Formatter for Nil {
    /// A record leaves this formatter as it is.
    open spec fn becomes(&self, after: &Self, record: Record, scores: Seq<Vec<u8>>) -> bool {
        after.output() == self.output()
    }

    fn checksum(&mut self, _checksum: &[u8]) {
    }

    fn start_database(&mut self, _db_index: u32) {
    }

    fn resizedb(&mut self, _db_size: u32, _expires_size: u32) {
    }

    fn aux_field(&mut self, _key: &[u8], _value: &[u8]) {
    }

    fn string(&mut self, _key: &Vec<u8>, _value: &Vec<u8>, _expiry: &Option<u64>) {
    }

    fn hash(&mut self, _key: &Vec<u8>, _values: &IndexMap<Vec<u8>, Vec<u8>>, _expiry: &Option<u64>) {
    }

    fn set(&mut self, _key: &Vec<u8>, _values: &Vec<Vec<u8>>, _expiry: &Option<u64>) {
    }

    fn list(&mut self, _key: &Vec<u8>, _values: &Vec<Vec<u8>>, _expiry: &Option<u64>) {
    }

    fn sorted_set(&mut self, _key: &Vec<u8>, _values: &Vec<(Score, Vec<u8>)>, _scores: &Vec<Vec<u8>>, _expiry: &Option<u64>) {
    }

    /// Hands over the bytes printed since the last call: none.
    fn take_output(&mut self) -> (r: Vec<u8>)
        ensures
            r@ == Seq::<u8>::empty(),
    {
        Vec::new()
    }

    fn format(&mut self, _value: &RdbValue, _scores: &Vec<Vec<u8>>)
        ensures
            final(self).output() == old(self).output(),
    {
    }
}

} // verus!
