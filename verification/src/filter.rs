//! Filters: which records the decoder materializes and which it passes
//! over at the byte level.

use regex::bytes::Regex;
use vstd::prelude::*;

use crate::types::{kind_of_tag, Type};

verus! {

/// A predicate on records with three independent facets. The decoder asks
/// it before it reads a key and before it reads a value; what the filter
/// rejects is skipped.
///
/// The answers are a function of the filter and the question: the
/// specification function of each facet says what the answer is, and the
/// method returns it.
pub trait Filter {
    /// Whether records of database `db` are wanted.
    spec fn accepts_db(&self, db: u32) -> bool;

    /// Whether values with the value-type tag `enc_type` are wanted.
    spec fn accepts_type(&self, enc_type: u8) -> bool;

    /// Whether the key `key` is wanted.
    spec fn accepts_key(&self, key: Seq<u8>) -> bool;

    fn matches_db(&self, db: u32) -> (r: bool)
        ensures
            r == self.accepts_db(db),
    ;

    fn matches_type(&self, enc_type: u8) -> (r: bool)
        ensures
            r == self.accepts_type(enc_type),
    ;

    fn matches_key(&self, key: &[u8]) -> (r: bool)
        ensures
            r == self.accepts_key(key@),
    ;
}

#[verifier::external_type_specification]
#[verifier::external_body]
pub struct ExRegex(Regex);

/// What a regular expression holds: the byte strings in which it has a
/// match somewhere.
pub uninterp spec fn matched_by(re: Regex) -> Set<Seq<u8>>;

/// `Regex::is_match` tells whether the expression has a match anywhere in
/// the haystack: whether the haystack is one of the byte strings that the
/// expression holds.
pub assume_specification[ Regex::is_match ](re: &Regex, haystack: &[u8]) -> (r: bool)
    ensures
        r == matched_by(*re).contains(haystack@),
;

/// The bundled filter: a list of databases, a list of logical kinds and an
/// optional regular expression for keys. An empty list, or no expression,
/// accepts everything.
pub struct Simple {
    databases: Vec<u32>,
    types: Vec<Type>,
    keys: Option<Regex>,
}

impl Simple {
    /// The databases that the filter lets pass; if there are none, all pass.
    pub closed spec fn databases(&self) -> Seq<u32> {
        self.databases@
    }

    /// The logical kinds that the filter lets pass; if there are none, all pass.
    pub closed spec fn types(&self) -> Seq<Type> {
        self.types@
    }

    /// The regular expression that a key has to match, if there is one.
    pub closed spec fn keys(&self) -> Option<Regex> {
        self.keys
    }

    /// A filter that accepts everything.
    pub fn new() -> (r: Simple)
        ensures
            r.databases() == Seq::<u32>::empty(),
            r.types() == Seq::<Type>::empty(),
            r.keys() is None,
    {
        Simple { databases: Vec::new(), types: Vec::new(), keys: None }
    }

    /// Lets database `db` pass, besides those that pass already.
    pub fn add_database(&mut self, db: u32)
        ensures
            final(self).databases() == old(self).databases().push(db),
            final(self).types() == old(self).types(),
            final(self).keys() == old(self).keys(),
    {
        self.databases.push(db);
    }

    /// Lets values of the logical kind `typ` pass, besides those that pass
    /// already.
    pub fn add_type(&mut self, typ: Type)
        ensures
            final(self).databases() == old(self).databases(),
            final(self).types() == old(self).types().push(typ),
            final(self).keys() == old(self).keys(),
    {
        self.types.push(typ);
    }

    /// Lets only keys pass that `re` matches; an expression set before is
    /// replaced.
    pub fn add_keys(&mut self, re: Regex)
        ensures
            final(self).databases() == old(self).databases(),
            final(self).types() == old(self).types(),
            final(self).keys() == Some(re),
    {
        self.keys = Some(re);
    }
}

impl Default for Simple {
    fn default() -> (r: Simple)
        ensures
            r.databases() == Seq::<u32>::empty(),
            r.types() == Seq::<Type>::empty(),
            r.keys() is None,
    {
        Simple::new()
    }
}

impl Filter for Simple {
    open spec fn accepts_db(&self, db: u32) -> bool {
        self.databases().len() == 0 || self.databases().contains(db)
    }

    open spec fn accepts_type(&self, enc_type: u8) -> bool {
        self.types().len() == 0 || match kind_of_tag(enc_type) {
            Some(typ) => self.types().contains(typ),
            None => false,
        }
    }

    open spec fn accepts_key(&self, key: Seq<u8>) -> bool {
        match self.keys() {
            None => true,
            Some(re) => matched_by(re).contains(key),
        }
    }

    fn matches_db(&self, db: u32) -> (r: bool) {
        if self.databases.len() == 0 {
            return true;
        }
        let mut i: usize = 0;
        while i < self.databases.len()
            invariant
                i <= self.databases@.len(),
                self.databases@.len() > 0,
                forall|j: int| 0 <= j < i ==> self.databases@[j] != db,
            decreases self.databases@.len() - i,
        {
            if self.databases[i] == db {
                return true;
            }
            i = i + 1;
        }
        false
    }

    fn matches_type(&self, enc_type: u8) -> (r: bool) {
        if self.types.len() == 0 {
            return true;
        }
        match Type::from_encoding(enc_type) {
            Err(_) => false,
            Ok(typ) => {
                let mut i: usize = 0;
                while i < self.types.len()
                    invariant
                        i <= self.types@.len(),
                        self.types@.len() > 0,
                        kind_of_tag(enc_type) == Some(typ),
                        forall|j: int| 0 <= j < i ==> self.types@[j] != typ,
                    decreases self.types@.len() - i,
                {
                    if self.types[i] == typ {
                        return true;
                    }
                    i = i + 1;
                }
                false
            },
        }
    }

    fn matches_key(&self, key: &[u8]) -> (r: bool) {
        match &self.keys {
            None => true,
            Some(re) => re.is_match(key),
        }
    }
}

} // verus!
