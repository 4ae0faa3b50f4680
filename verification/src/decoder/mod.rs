//! The decoder: the readers of each container layout and the top-level
//! state machine.

pub mod common;
pub mod hash;
pub mod list;
pub mod rdb;
pub mod set;
pub mod sorted_set;
pub mod stream;

use vstd::prelude::*;

use crate::decoder::rdb::{
    advance_at, header_at, initial_state, process_next_operation, verify_header,
    DecoderState, Place,
};
use crate::decoder::stream::{
    failure_at, lemma_advance_moves_on, lemma_stream_unfolds, plain_records, records_at,
};
use crate::filter::Filter;
use crate::source::ByteSource;
use crate::types::{records_of, RdbError, RdbResult, RdbValue, Record};

verus! {

/// A pull-style decoder over the bytes of one snapshot: each call of
/// [`RdbDecoder::next`] yields one record, or reports an error, until the
/// checksum was yielded.
pub struct RdbDecoder<F: Filter> {
    reader: ByteSource,
    filter: F,
    state: DecoderState,
}

impl<F: Filter> RdbDecoder<F> {
    /// The bytes of the snapshot.
    pub closed spec fn bytes(&self) -> Seq<u8> {
        self.reader.bytes()
    }

    /// Where the decoder stands: its position in the bytes and its state.
    pub closed spec fn place(&self) -> Place {
        Place { offset: self.reader.offset(), state: self.state }
    }

    /// The filter that the decoder asks.
    pub closed spec fn filter(&self) -> F {
        self.filter
    }

    /// A decoder over `data`. The header is consumed here: the magic string
    /// and a supported version, or else the format is unsupported.
    pub fn new(data: Vec<u8>, filter: F) -> (r: RdbResult<Self>)
        ensures
            match header_at(data@, 0) {
                Ok((_, next)) => r is Ok && r->Ok_0.bytes() == data@ && r->Ok_0.place() == (Place {
                    offset: next,
                    state: initial_state(),
                }) && r->Ok_0.filter() == filter,
                Err(e) => r is Err && r->Err_0 == e,
            },
    {
        let mut reader: ByteSource = ByteSource::new(data);
        match verify_header(&mut reader) {
            Ok(_) => Ok(Self { reader, filter, state: DecoderState::default() }),
            Err(e) => Err(e),
        }
    }

    /// Whether the checksum was yielded, so that nothing follows.
    pub fn reached_eof(&self) -> (r: bool)
        ensures
            r == self.place().state.reached_eof,
    {
        self.state.reached_eof
    }

    /// The database that the last database marker selected.
    pub fn current_database(&self) -> (r: u32)
        ensures
            r == self.place().state.current_database,
    {
        self.state.current_database
    }

    /// The next record, or the error that decoding it met; nothing once the
    /// checksum was yielded. Neither the bytes nor the filter change.
    pub fn next(&mut self) -> (r: Option<RdbResult<RdbValue>>)
        ensures
            final(self).bytes() == old(self).bytes(),
            final(self).filter() == old(self).filter(),
            old(self).place().state.reached_eof ==> r is None && final(self).place() == old(
                self,
            ).place(),
            !old(self).place().state.reached_eof ==> r is Some && match advance_at(
                old(self).bytes(),
                old(self).place(),
                old(self).filter(),
            ) {
                rdb::Step::Yield { record, then } => r->Some_0 is Ok && r->Some_0->Ok_0@ == record
                    && final(self).place() == then,
                rdb::Step::Pass { .. } => false,
                rdb::Step::Fail { error } => r->Some_0 == Err::<RdbValue, RdbError>(error),
            },
    {
        if self.state.reached_eof {
            return None;
        }
        Some(process_next_operation(&mut self.reader, &self.filter, &mut self.state))
    }

    /// All the records that are left, in the order in which `next` yields
    /// them, and the error that ended decoding, if one did.
    pub fn read_all(&mut self) -> (r: (Vec<RdbValue>, Option<RdbError>))
        ensures
            final(self).bytes() == old(self).bytes(),
            final(self).filter() == old(self).filter(),
            records_of(r.0@) == plain_records(
                records_at(old(self).bytes(), old(self).place(), old(self).filter()),
            ),
            r.1 == failure_at(old(self).bytes(), old(self).place(), old(self).filter()),
            r.1 is None ==> final(self).place().state.reached_eof,
    {
        let mut values: Vec<RdbValue> = Vec::new();
        let ghost data: Seq<u8> = self.bytes();
        let ghost filter: F = self.filter();
        let ghost whole: Seq<Record> = plain_records(records_at(data, self.place(), filter));
        proof {
            assert(records_of(values@) =~= Seq::<Record>::empty());
            assert(whole =~= records_of(values@) + whole);
        }
        loop
            invariant
                self.bytes() == data,
                self.filter() == filter,
                data == old(self).bytes(),
                filter == old(self).filter(),
                whole == plain_records(records_at(data, old(self).place(), filter)),
                whole == records_of(values@) + plain_records(
                    records_at(data, self.place(), filter),
                ),
                failure_at(data, old(self).place(), filter) == failure_at(
                    data,
                    self.place(),
                    filter,
                ),
            decreases
                    data.len() - self.place().offset,
                    (if self.place().state.reached_eof {
                        0nat
                    } else {
                        1nat
                    }),
        {
            let ghost at = self.place();
            let ghost before: Seq<Record> = records_of(values@);
            proof {
                if !at.state.reached_eof {
                    lemma_stream_unfolds(data, at, filter);
                    lemma_advance_moves_on(data, at, filter);
                }
            }
            match self.next() {
                None => {
                    proof {
                        assert(plain_records(records_at(data, at, filter)) =~= Seq::<
                            Record,
                        >::empty());
                        assert(whole =~= records_of(values@));
                    }
                    return (values, None);
                },
                Some(Ok(value)) => {
                    let ghost rest: Seq<Record> = plain_records(
                        records_at(data, self.place(), filter),
                    );
                    values.push(value);
                    proof {
                        assert(records_of(values@) =~= before.push(value@));
                        assert(before + (seq![value@] + rest) =~= before.push(value@) + rest);
                    }
                },
                Some(Err(e)) => {
                    proof {
                        assert(plain_records(records_at(data, at, filter)) =~= Seq::<
                            Record,
                        >::empty());
                        assert(whole =~= records_of(values@));
                    }
                    return (values, Some(e));
                },
            }
        }
    }
}

} // verus!
