//! The formatter that prints the commands which rebuild the data, in the
//! wire protocol of the server.

use indexmap::IndexMap;
use vstd::prelude::*;
use vstd::string::StringSliceAdditionalSpecFns;

use crate::fields::{hash_entries, hash_get_index, hash_len};
use crate::formatter::{score_text, write_all, write_number, write_str, Formatter};
use crate::numbers::{decimal_u64, digits};
use crate::source::byte_strings;
use crate::types::{scored_view, RdbValue, Record, Score, ScoreView};

verus! {

/// One argument of a command: a dollar sign, the length of the argument
/// in decimal, a line end, the argument and a line end.
pub open spec fn argument(arg: Seq<u8>) -> Seq<u8> {
    "$".spec_bytes() + digits(arg.len()) + "\r\n".spec_bytes() + arg + "\r\n".spec_bytes()
}

/// The arguments of a command, one after the other.
pub open spec fn arguments(args: Seq<Seq<u8>>) -> Seq<u8>
    decreases args.len(),
{
    if args.len() == 0 {
        Seq::empty()
    } else {
        arguments(args.drop_last()) + argument(args.last())
    }
}

/// A command: an asterisk, the number of its arguments in decimal, a line
/// end, and the arguments.
pub open spec fn command(args: Seq<Seq<u8>>) -> Seq<u8> {
    "*".spec_bytes() + digits(args.len()) + "\r\n".spec_bytes() + arguments(args)
}

/// The command that sets the expiry `expiry` on `key`, in milliseconds;
/// nothing where there is no expiry.
pub open spec fn expire_command(key: Seq<u8>, expiry: Option<u64>) -> Seq<u8> {
    match expiry {
        Some(expire) => command(seq!["PEXPIREAT".spec_bytes(), key, digits(expire as nat)]),
        None => Seq::empty(),
    }
}

/// The commands that add the first `count` of `values` to the collection
/// at `key`, one command with the verb `verb` for each.
pub open spec fn member_commands(verb: Seq<u8>, key: Seq<u8>, values: Seq<Seq<u8>>, count: nat) -> Seq<
    u8,
>
    decreases count,
{
    if count == 0 || count > values.len() {
        Seq::empty()
    } else {
        member_commands(verb, key, values, (count - 1) as nat) + command(
            seq![verb, key, values[count - 1]],
        )
    }
}

/// The commands that set the first `count` of the fields `entries` in the
/// hash at `key`.
pub open spec fn field_commands(key: Seq<u8>, entries: Seq<(Seq<u8>, Seq<u8>)>, count: nat) -> Seq<
    u8,
>
    decreases count,
{
    if count == 0 || count > entries.len() {
        Seq::empty()
    } else {
        field_commands(key, entries, (count - 1) as nat) + command(
            seq!["HSET".spec_bytes(), key, entries[count - 1].0, entries[count - 1].1],
        )
    }
}

/// The commands that add the first `count` of the entries `values` to the
/// sorted set at `key`, each with the text of its score.
pub open spec fn scored_commands(
    key: Seq<u8>,
    values: Seq<(ScoreView, Seq<u8>)>,
    scores: Seq<Vec<u8>>,
    count: nat,
) -> Seq<u8>
    decreases count,
{
    if count == 0 || count > values.len() {
        Seq::empty()
    } else {
        scored_commands(key, values, scores, (count - 1) as nat) + command(
            seq!["ZADD".spec_bytes(), key, score_text(scores, count - 1), values[count - 1].1],
        )
    }
}

/// What the formatter prints for a record.
pub open spec fn protocol_text(record: Record, scores: Seq<Vec<u8>>) -> Seq<u8> {
    match record {
        Record::SelectDb(db) => command(seq!["SELECT".spec_bytes(), digits(db as nat)]),
        Record::ResizeDb { .. } => Seq::empty(),
        Record::AuxField { .. } => Seq::empty(),
        Record::Checksum(_) => Seq::empty(),
        Record::String { key, value, expiry } => command(seq!["SET".spec_bytes(), key, value])
            + expire_command(key, expiry),
        Record::Hash { key, values, expiry } => field_commands(key, values, values.len())
            + expire_command(key, expiry),
        Record::PlainSet { key, members, expiry } => member_commands(
            "SADD".spec_bytes(),
            key,
            members,
            members.len(),
        ) + expire_command(key, expiry),
        Record::List { key, values, expiry } => member_commands(
            "RPUSH".spec_bytes(),
            key,
            values,
            values.len(),
        ) + expire_command(key, expiry),
        Record::SortedSet { key, values, expiry } => scored_commands(
            key,
            values,
            scores,
            values.len(),
        ) + expire_command(key, expiry),
    }
}

/// The byte strings that the slices of a vector hold.
pub open spec fn slices(args: Seq<&[u8]>) -> Seq<Seq<u8>> {
    Seq::new(args.len(), |i: int| args[i]@)
}

/// Prints commands that rebuild the data when they are replayed.
pub struct Protocol {
    out: Vec<u8>,
    last_expiry: Option<u64>,
}

impl Protocol {
    /// The bytes printed and not yet taken.
    pub closed spec fn output(&self) -> Seq<u8> {
        self.out@
    }

    /// The expiry of the value that is being printed.
    pub closed spec fn pending(&self) -> Option<u64> {
        self.last_expiry
    }

    /// A formatter that has printed nothing.
    pub fn new() -> (r: Protocol)
        ensures
            r.output() == Seq::<u8>::empty(),
            r.pending() is None,
    {
        Protocol { out: Vec::new(), last_expiry: None }
    }

    /// Prints one command.
    pub fn emit(&mut self, args: Vec<&[u8]>)
        ensures
            final(self).output() == old(self).output() + command(slices(args@)),
            final(self).pending() == old(self).pending(),
    {
        write_str(&mut self.out, "*");
        write_number(&mut self.out, args.len() as u64);
        write_str(&mut self.out, "\r\n");
        let ghost head: Seq<u8> = self.out@;
        let ghost all: Seq<Seq<u8>> = slices(args@);
        let mut i: usize = 0;
        proof {
            assert(all.take(0) =~= Seq::<Seq<u8>>::empty());
            assert(self.out@ =~= head + arguments(all.take(0)));
        }
        while i < args.len()
            invariant
                i <= args@.len(),
                all == slices(args@),
                self.last_expiry == old(self).last_expiry,
                self.out@ == head + arguments(all.take(i as int)),
            decreases args@.len() - i,
        {
            let arg: &[u8] = args[i];
            let ghost before: Seq<u8> = self.out@;
            write_str(&mut self.out, "$");
            write_number(&mut self.out, arg.len() as u64);
            write_str(&mut self.out, "\r\n");
            write_all(&mut self.out, arg);
            write_str(&mut self.out, "\r\n");
            proof {
                let longer = all.take(i + 1);
                assert(longer.drop_last() =~= all.take(i as int));
                assert(longer.last() == arg@);
                assert(self.out@ =~= before + argument(arg@));
                assert(self.out@ =~= head + arguments(longer));
            }
            i = i + 1;
        }
        proof {
            assert(all.take(args@.len() as int) =~= all);
            assert(self.out@ =~= old(self).out@ + command(all));
        }
    }

    /// Remembers the expiry of the value that is about to be printed.
    pub fn pre_expire(&mut self, expiry: &Option<u64>)
        ensures
            final(self).output() == old(self).output(),
            final(self).pending() == *expiry,
    {
        self.last_expiry = *expiry;
    }

    /// Prints the command that sets the remembered expiry on `key`, if one
    /// is remembered, and forgets it.
    pub fn post_expire(&mut self, key: &[u8])
        ensures
            final(self).output() == old(self).output() + expire_command(key@, old(self).pending()),
            final(self).pending() is None,
    {
        match self.last_expiry {
            Some(expire) => {
                let expire: Vec<u8> = decimal_u64(expire);
                let mut args: Vec<&[u8]> = Vec::new();
                args.push("PEXPIREAT".as_bytes());
                args.push(key);
                args.push(expire.as_slice());
                proof {
                    assert(slices(args@) =~= seq!["PEXPIREAT".spec_bytes(), key@, expire@]);
                }
                self.emit(args);
                self.last_expiry = None;
            },
            None => {
                proof {
                    assert(self.out@ =~= self.out@ + Seq::<u8>::empty());
                }
            },
        }
    }

    /// Prints the command that stores the string `value` at `key`, and the
    /// one that sets its expiry if it has one.
    pub fn set(&mut self, key: &[u8], value: &[u8], expiry: &Option<u64>)
        ensures
            final(self).output() == old(self).output() + command(
                seq!["SET".spec_bytes(), key@, value@],
            ) + expire_command(key@, *expiry),
            final(self).pending() is None,
    {
        self.pre_expire(expiry);
        let mut args: Vec<&[u8]> = Vec::new();
        args.push("SET".as_bytes());
        args.push(key);
        args.push(value);
        proof {
            assert(slices(args@) =~= seq!["SET".spec_bytes(), key@, value@]);
        }
        self.emit(args);
        self.post_expire(key);
    }

    /// Starts a hash: remembers its expiry.
    pub fn start_hash(&mut self, expiry: &Option<u64>)
        ensures
            final(self).output() == old(self).output(),
            final(self).pending() == *expiry,
    {
        self.pre_expire(expiry);
    }

    /// Ends a hash: prints the command that sets its expiry, if it has one.
    pub fn end_hash(&mut self, key: &[u8])
        ensures
            final(self).output() == old(self).output() + expire_command(key@, old(self).pending()),
            final(self).pending() is None,
    {
        self.post_expire(key);
    }

    /// Prints the command that sets `field` to `value` in the hash at `key`.
    pub fn hash_element(&mut self, key: &[u8], field: &[u8], value: &[u8])
        ensures
            final(self).output() == old(self).output() + command(
                seq!["HSET".spec_bytes(), key@, field@, value@],
            ),
            final(self).pending() == old(self).pending(),
    {
        let mut args: Vec<&[u8]> = Vec::new();
        args.push("HSET".as_bytes());
        args.push(key);
        args.push(field);
        args.push(value);
        proof {
            assert(slices(args@) =~= seq!["HSET".spec_bytes(), key@, field@, value@]);
        }
        self.emit(args);
    }

    /// Starts a set: remembers its expiry.
    pub fn start_set(&mut self, expiry: &Option<u64>)
        ensures
            final(self).output() == old(self).output(),
            final(self).pending() == *expiry,
    {
        self.pre_expire(expiry);
    }

    /// Ends a set: prints the command that sets its expiry, if it has one.
    pub fn end_set(&mut self, key: &[u8])
        ensures
            final(self).output() == old(self).output() + expire_command(key@, old(self).pending()),
            final(self).pending() is None,
    {
        self.post_expire(key);
    }

    /// Prints the command that adds `member` to the set at `key`.
    pub fn set_element(&mut self, key: &[u8], member: &[u8])
        ensures
            final(self).output() == old(self).output() + command(
                seq!["SADD".spec_bytes(), key@, member@],
            ),
            final(self).pending() == old(self).pending(),
    {
        let mut args: Vec<&[u8]> = Vec::new();
        args.push("SADD".as_bytes());
        args.push(key);
        args.push(member);
        proof {
            assert(slices(args@) =~= seq!["SADD".spec_bytes(), key@, member@]);
        }
        self.emit(args);
    }

    /// Starts a list: remembers its expiry.
    pub fn start_list(&mut self, expiry: &Option<u64>)
        ensures
            final(self).output() == old(self).output(),
            final(self).pending() == *expiry,
    {
        self.pre_expire(expiry);
    }

    /// Ends a list: prints the command that sets its expiry, if it has one.
    pub fn end_list(&mut self, key: &[u8])
        ensures
            final(self).output() == old(self).output() + expire_command(key@, old(self).pending()),
            final(self).pending() is None,
    {
        self.post_expire(key);
    }

    /// Prints the command that appends `value` to the list at `key`.
    pub fn list_element(&mut self, key: &[u8], value: &[u8])
        ensures
            final(self).output() == old(self).output() + command(
                seq!["RPUSH".spec_bytes(), key@, value@],
            ),
            final(self).pending() == old(self).pending(),
    {
        let mut args: Vec<&[u8]> = Vec::new();
        args.push("RPUSH".as_bytes());
        args.push(key);
        args.push(value);
        proof {
            assert(slices(args@) =~= seq!["RPUSH".spec_bytes(), key@, value@]);
        }
        self.emit(args);
    }

    /// Starts a sorted set: remembers its expiry.
    pub fn start_sorted_set(&mut self, expiry: &Option<u64>)
        ensures
            final(self).output() == old(self).output(),
            final(self).pending() == *expiry,
    {
        self.pre_expire(expiry);
    }

    /// Ends a sorted set: prints the command that sets its expiry, if it has one.
    pub fn end_sorted_set(&mut self, key: &[u8])
        ensures
            final(self).output() == old(self).output() + expire_command(key@, old(self).pending()),
            final(self).pending() is None,
    {
        self.post_expire(key);
    }

    /// Prints the command that adds `member` with the score whose text is
    /// `score` to the sorted set at `key`.
    pub fn sorted_set_element(&mut self, key: &[u8], score: &[u8], member: &[u8])
        ensures
            final(self).output() == old(self).output() + command(
                seq!["ZADD".spec_bytes(), key@, score@, member@],
            ),
            final(self).pending() == old(self).pending(),
    {
        let mut args: Vec<&[u8]> = Vec::new();
        args.push("ZADD".as_bytes());
        args.push(key);
        args.push(score);
        args.push(member);
        proof {
            assert(slices(args@) =~= seq!["ZADD".spec_bytes(), key@, score@, member@]);
        }
        self.emit(args);
    }

    /// Prints one command with the verb `verb` for each of `values`.
    fn elements(&mut self, verb: &str, key: &[u8], values: &Vec<Vec<u8>>)
        ensures
            final(self).output() == old(self).output() + member_commands(
                verb.spec_bytes(),
                key@,
                byte_strings(values@),
                values@.len(),
            ),
            final(self).pending() == old(self).pending(),
    {
        let ghost all: Seq<Seq<u8>> = byte_strings(values@);
        let mut i: usize = 0;
        proof {
            assert(self.out@ =~= old(self).out@ + member_commands(verb.spec_bytes(), key@, all, 0));
        }
        while i < values.len()
            invariant
                i <= values@.len(),
                all == byte_strings(values@),
                self.last_expiry == old(self).last_expiry,
                self.out@ == old(self).out@ + member_commands(
                    verb.spec_bytes(),
                    key@,
                    all,
                    i as nat,
                ),
            decreases values@.len() - i,
        {
            let ghost before: Seq<u8> = self.out@;
            let mut args: Vec<&[u8]> = Vec::new();
            args.push(verb.as_bytes());
            args.push(key);
            args.push(values[i].as_slice());
            proof {
                assert(slices(args@) =~= seq![verb.spec_bytes(), key@, all[i as int]]);
            }
            self.emit(args);
            proof {
                assert(self.out@ =~= old(self).out@ + member_commands(
                    verb.spec_bytes(),
                    key@,
                    all,
                    (i + 1) as nat,
                ));
            }
            i = i + 1;
        }
    }
}

impl Formatter for Protocol {
    /// A record makes the formatter print its commands; after a key/value
    /// record no expiry is remembered.
    open spec fn becomes(&self, after: &Self, record: Record, scores: Seq<Vec<u8>>) -> bool {
        &&& after.output() == self.output() + protocol_text(record, scores)
        &&& after.pending() == (if record.key() is Some {
            None
        } else {
            self.pending()
        })
    }

    /// Hands over the bytes printed since the last call.
    fn take_output(&mut self) -> (r: Vec<u8>)
        ensures
            r@ == old(self).output(),
            final(self).output() == Seq::<u8>::empty(),
            final(self).pending() == old(self).pending(),
    {
        let mut taken: Vec<u8> = Vec::new();
        taken.append(&mut self.out);
        taken
    }

    fn start_rdb(&mut self)
        ensures
            final(self).output() == old(self).output(),
            final(self).pending() == old(self).pending(),
    {
    }

    fn end_rdb(&mut self)
        ensures
            final(self).output() == old(self).output(),
            final(self).pending() == old(self).pending(),
    {
    }

    fn checksum(&mut self, _checksum: &[u8])
        ensures
            final(self).output() == old(self).output(),
            final(self).pending() == old(self).pending(),
    {
    }

    fn end_database(&mut self, _db_index: u32)
        ensures
            final(self).output() == old(self).output(),
            final(self).pending() == old(self).pending(),
    {
    }

    fn resizedb(&mut self, _db_size: u32, _expires_size: u32)
        ensures
            final(self).output() == old(self).output(),
            final(self).pending() == old(self).pending(),
    {
    }

    fn aux_field(&mut self, _key: &[u8], _value: &[u8])
        ensures
            final(self).output() == old(self).output(),
            final(self).pending() == old(self).pending(),
    {
    }

    fn string(&mut self, key: &Vec<u8>, value: &Vec<u8>, expiry: &Option<u64>)
        ensures
            final(self).output() == old(self).output() + command(
                seq!["SET".spec_bytes(), key@, value@],
            ) + expire_command(key@, *expiry),
            final(self).pending() is None,
    {
        Protocol::set(self, key.as_slice(), value.as_slice(), expiry);
        proof {
            assert(self.out@ =~= old(self).out@ + protocol_text(
                (Record::String { key: key@, value: value@, expiry: *expiry }),
                Seq::empty(),
            ));
        }
    }

    fn hash(&mut self, key: &Vec<u8>, values: &IndexMap<Vec<u8>, Vec<u8>>, expiry: &Option<u64>)
        ensures
            final(self).output() == old(self).output() + field_commands(
                key@,
                hash_entries(*values),
                hash_entries(*values).len(),
            ) + expire_command(key@, *expiry),
            final(self).pending() is None,
    {
        self.start_hash(expiry);
        let ghost entries: Seq<(Seq<u8>, Seq<u8>)> = hash_entries(*values);
        let count: usize = hash_len(values);
        let mut i: usize = 0;
        proof {
            assert(self.out@ =~= old(self).out@ + field_commands(key@, entries, 0));
        }
        while i < count
            invariant
                i <= count,
                count == entries.len(),
                entries == hash_entries(*values),
                self.last_expiry == *expiry,
                self.out@ == old(self).out@ + field_commands(key@, entries, i as nat),
            decreases count - i,
        {
            match hash_get_index(values, i) {
                Some((field, value)) => {
                    self.hash_element(key.as_slice(), field.as_slice(), value.as_slice());
                },
                None => {},
            }
            proof {
                assert(self.out@ =~= old(self).out@ + field_commands(key@, entries, (i + 1) as nat));
            }
            i = i + 1;
        }
        self.end_hash(key.as_slice());
        proof {
            assert(self.out@ =~= old(self).out@ + protocol_text(
                (Record::Hash { key: key@, values: hash_entries(*values), expiry: *expiry }),
                Seq::empty(),
            ));
        }
    }

    fn set(&mut self, key: &Vec<u8>, values: &Vec<Vec<u8>>, expiry: &Option<u64>)
        ensures
            final(self).output() == old(self).output() + member_commands(
                "SADD".spec_bytes(),
                key@,
                byte_strings(values@),
                values@.len(),
            ) + expire_command(key@, *expiry),
            final(self).pending() is None,
    {
        self.start_set(expiry);
        self.elements("SADD", key.as_slice(), values);
        self.end_set(key.as_slice());
        proof {
            assert(self.out@ =~= old(self).out@ + protocol_text(
                (Record::PlainSet { key: key@, members: byte_strings(values@), expiry: *expiry }),
                Seq::empty(),
            ));
        }
    }

    fn list(&mut self, key: &Vec<u8>, values: &Vec<Vec<u8>>, expiry: &Option<u64>)
        ensures
            final(self).output() == old(self).output() + member_commands(
                "RPUSH".spec_bytes(),
                key@,
                byte_strings(values@),
                values@.len(),
            ) + expire_command(key@, *expiry),
            final(self).pending() is None,
    {
        self.start_list(expiry);
        self.elements("RPUSH", key.as_slice(), values);
        self.end_list(key.as_slice());
        proof {
            assert(self.out@ =~= old(self).out@ + protocol_text(
                (Record::List { key: key@, values: byte_strings(values@), expiry: *expiry }),
                Seq::empty(),
            ));
        }
    }

    fn sorted_set(
        &mut self,
        key: &Vec<u8>,
        values: &Vec<(Score, Vec<u8>)>,
        scores: &Vec<Vec<u8>>,
        expiry: &Option<u64>,
    )
        ensures
            final(self).output() == old(self).output() + scored_commands(
                key@,
                scored_view(values@),
                scores@,
                values@.len(),
            ) + expire_command(key@, *expiry),
            final(self).pending() is None,
    {
        self.start_sorted_set(expiry);
        let ghost entries: Seq<(ScoreView, Seq<u8>)> = scored_view(values@);
        let empty: Vec<u8> = Vec::new();
        let mut i: usize = 0;
        proof {
            assert(self.out@ =~= old(self).out@ + scored_commands(key@, entries, scores@, 0));
        }
        while i < values.len()
            invariant
                i <= values@.len(),
                entries == scored_view(values@),
                empty@ == Seq::<u8>::empty(),
                self.last_expiry == *expiry,
                self.out@ == old(self).out@ + scored_commands(key@, entries, scores@, i as nat),
            decreases values@.len() - i,
        {
            let score: &[u8] = if i < scores.len() {
                scores[i].as_slice()
            } else {
                empty.as_slice()
            };
            self.sorted_set_element(key.as_slice(), score, values[i].1.as_slice());
            proof {
                assert(self.out@ =~= old(self).out@ + scored_commands(
                    key@,
                    entries,
                    scores@,
                    (i + 1) as nat,
                ));
            }
            i = i + 1;
        }
        self.end_sorted_set(key.as_slice());
        proof {
            assert(self.out@ =~= old(self).out@ + protocol_text(
                (Record::SortedSet { key: key@, values: scored_view(values@), expiry: *expiry }),
                scores@,
            ));
        }
    }

    fn start_database(&mut self, db_number: u32)
        ensures
            final(self).output() == old(self).output() + command(
                seq!["SELECT".spec_bytes(), digits(db_number as nat)],
            ),
            final(self).pending() == old(self).pending(),
    {
        let db: Vec<u8> = decimal_u64(db_number as u64);
        let mut args: Vec<&[u8]> = Vec::new();
        args.push("SELECT".as_bytes());
        args.push(db.as_slice());
        proof {
            assert(slices(args@) =~= seq!["SELECT".spec_bytes(), db@]);
        }
        self.emit(args);
    }

    fn format(&mut self, value: &RdbValue, scores: &Vec<Vec<u8>>)
        ensures
            final(self).output() == old(self).output() + protocol_text(value@, scores@),
            final(self).pending() == (if value@.key() is Some {
                None
            } else {
                old(self).pending()
            }),
    {
        match value {
            RdbValue::PlainSet { key, members, expiry } => {
                Formatter::set(self, key, members, expiry);
            },
            RdbValue::Hash { key, values, expiry } => {
                self.hash(key, values, expiry);
            },
            RdbValue::List { key, values, expiry } => {
                self.list(key, values, expiry);
            },
            RdbValue::SortedSet { key, values, expiry } => {
                self.sorted_set(key, values, scores, expiry);
            },
            RdbValue::String { key, value, expiry } => {
                self.string(key, value, expiry);
            },
            RdbValue::SelectDb(db_number) => {
                self.start_database(*db_number);
            },
            RdbValue::ResizeDb { .. } => {
                proof {
                    assert(self.out@ =~= old(self).out@ + Seq::<u8>::empty());
                }
            },
            RdbValue::AuxField { .. } => {
                proof {
                    assert(self.out@ =~= old(self).out@ + Seq::<u8>::empty());
                }
            },
            RdbValue::Checksum(_) => {
                proof {
                    assert(self.out@ =~= old(self).out@ + Seq::<u8>::empty());
                }
            },
        }
    }
}

} // verus!
