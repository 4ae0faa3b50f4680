//! The decoder as a whole: the stream of records that a snapshot stands
//! for, and what holds of every such stream.

use vstd::prelude::*;

use crate::constants::{encoding_type, op_code};
use crate::decoder::common::entries::{entries_at, EntryKind};
use crate::decoder::common::utils::{blob_at, plain_length_at};
use crate::decoder::list::{quicklist_node_at, quicklist_nodes_at};
use crate::decoder::rdb::{
    advance_at, key_value_at, lemma_blob_bounds, lemma_skip_object_bounds, operation_at, skip_blob_at, skip_blobs_at,
    skip_object_at, step_at, value_at, DecoderState, Place, Step,
};
use crate::decoder::sorted_set::{scored_entries_at, scored_entry_at};
use crate::filter::Filter;
use crate::source::{byte_at, u64_le_at};
use crate::types::{kind_of_tag, RdbError, Record};

verus! {

/// A record in the stream, with the circumstances of its decoding.
pub struct Emitted {
    /// The record.
    pub record: Record,
    /// The op-code, or value-type tag, that the record started with; that
    /// of the end marker for the checksum.
    pub op: u8,
    /// The database that was selected when the record was complete.
    pub database: u32,
    /// The position of the byte that the record started with.
    pub offset: int,
    /// The position behind the record.
    pub end: int,
}

/// The op-code, or value-type tag, at `pos`; that of the end marker where
/// the bytes end.
pub open spec fn op_at(data: Seq<u8>, pos: int) -> u8 {
    if 0 <= pos < data.len() {
        data[pos]
    } else {
        op_code::EOF
    }
}

/// The record that the step from `at` yields, with its circumstances.
pub open spec fn emitted(data: Seq<u8>, at: Place, record: Record, then: Place) -> Emitted {
    Emitted {
        record,
        op: op_at(data, at.offset),
        database: then.state.current_database,
        offset: at.offset,
        end: then.offset,
    }
}

/// The records that the decoder yields from `at` on, in the order in which
/// it yields them, until the checksum was yielded or decoding fails.
pub open spec fn records_at<F: Filter>(data: Seq<u8>, at: Place, filter: F) -> Seq<Emitted>
    decreases data.len() - at.offset, (if at.state.reached_eof {
        0nat
    } else {
        1nat
    }),
    via records_at_terminates::<F>
{
    if at.state.reached_eof {
        Seq::empty()
    } else {
        match step_at(data, at, filter) {
            Step::Fail { .. } => Seq::empty(),
            Step::Pass { then } => records_at(data, then, filter),
            Step::Yield { record, then } => seq![emitted(data, at, record, then)] + records_at(
                data,
                then,
                filter,
            ),
        }
    }
}

/// The error that ends the stream from `at` on, if one does.
pub open spec fn failure_at<F: Filter>(data: Seq<u8>, at: Place, filter: F) -> Option<RdbError>
    decreases data.len() - at.offset, (if at.state.reached_eof {
        0nat
    } else {
        1nat
    }),
    via failure_at_terminates::<F>
{
    if at.state.reached_eof {
        None
    } else {
        match step_at(data, at, filter) {
            Step::Fail { error } => Some(error),
            Step::Pass { then } => failure_at(data, then, filter),
            Step::Yield { record, then } => failure_at(data, then, filter),
        }
    }
}

#[via_fn]
proof fn records_at_terminates<F: Filter>(data: Seq<u8>, at: Place, filter: F) {
    lemma_step_moves_on(data, at, filter);
}

#[via_fn]
proof fn failure_at_terminates<F: Filter>(data: Seq<u8>, at: Place, filter: F) {
    lemma_step_moves_on(data, at, filter);
}

/// A run of byte strings that can be read ends at or behind the position
/// at which it starts, within the bytes.
pub proof fn lemma_blobs_bounds(data: Seq<u8>, pos: int, count: nat)
    requires
        0 <= pos <= data.len(),
        entries_at(EntryKind::Blob, data, pos, count) is Ok,
    ensures
        pos <= entries_at(EntryKind::Blob, data, pos, count)->Ok_0.1 <= data.len(),
    decreases count,
{
    if count > 0 {
        lemma_blobs_bounds(data, pos, (count - 1) as nat);
        let (_, next) = entries_at(EntryKind::Blob, data, pos, (count - 1) as nat)->Ok_0;
        lemma_blob_bounds(data, next);
    }
}

/// An entry of a plain sorted set that can be read ends behind the
/// position at which it starts, within the bytes.
pub proof fn lemma_scored_entry_bounds(binary: bool, data: Seq<u8>, pos: int)
    requires
        0 <= pos,
        scored_entry_at(binary, data, pos) is Ok,
    ensures
        pos < scored_entry_at(binary, data, pos)->Ok_0.1 <= data.len(),
{
    lemma_blob_bounds(data, pos);
}

/// A run of sorted-set entries that can be read ends at or behind the
/// position at which it starts, within the bytes.
pub proof fn lemma_scored_bounds(binary: bool, data: Seq<u8>, pos: int, count: nat)
    requires
        0 <= pos <= data.len(),
        scored_entries_at(binary, data, pos, count) is Ok,
    ensures
        pos <= scored_entries_at(binary, data, pos, count)->Ok_0.1 <= data.len(),
    decreases count,
{
    if count > 0 {
        lemma_scored_bounds(binary, data, pos, (count - 1) as nat);
        let (_, next) = scored_entries_at(binary, data, pos, (count - 1) as nat)->Ok_0;
        lemma_scored_entry_bounds(binary, data, next);
    }
}

/// A quicklist node that can be read ends behind the position at which it
/// starts, within the bytes.
pub proof fn lemma_quicklist_node_bounds(tagged: bool, data: Seq<u8>, pos: int)
    requires
        0 <= pos,
        quicklist_node_at(tagged, data, pos) is Ok,
    ensures
        pos < quicklist_node_at(tagged, data, pos)->Ok_0.1 <= data.len(),
{
    if tagged {
        let (_, next) = plain_length_at(data, pos)->Ok_0;
        lemma_blob_bounds(data, next);
    } else {
        lemma_blob_bounds(data, pos);
    }
}

/// A run of quicklist nodes that can be read ends at or behind the
/// position at which it starts, within the bytes.
pub proof fn lemma_quicklist_bounds(tagged: bool, data: Seq<u8>, pos: int, count: nat)
    requires
        0 <= pos <= data.len(),
        quicklist_nodes_at(tagged, data, pos, count) is Ok,
    ensures
        pos <= quicklist_nodes_at(tagged, data, pos, count)->Ok_0.1 <= data.len(),
    decreases count,
{
    if count > 0 {
        lemma_quicklist_bounds(tagged, data, pos, (count - 1) as nat);
        let (_, next) = quicklist_nodes_at(tagged, data, pos, (count - 1) as nat)->Ok_0;
        lemma_quicklist_node_bounds(tagged, data, next);
    }
}

/// A value that can be read ends at or behind the position at which it
/// starts, within the bytes.
pub proof fn lemma_value_bounds(
    data: Seq<u8>,
    pos: int,
    key: Seq<u8>,
    tag: u8,
    expiry: Option<u64>,
)
    requires
        0 <= pos <= data.len(),
    ensures
        match value_at(data, pos, key, tag, expiry) {
            Ok((_, next)) => pos <= next <= data.len(),
            Err(_) => true,
        },
{
    reveal(value_at);
    if value_at(data, pos, key, tag, expiry) is Ok {
        if tag == encoding_type::LIST || tag == encoding_type::SET || tag == encoding_type::HASH
            || tag == encoding_type::ZSET || tag == encoding_type::ZSET_2 || tag
            == encoding_type::LIST_QUICKLIST || tag == encoding_type::LIST_QUICKLIST_2 {
            let (count, next) = plain_length_at(data, pos)->Ok_0;
            if tag == encoding_type::LIST || tag == encoding_type::SET {
                lemma_blobs_bounds(data, next, count as nat);
            } else if tag == encoding_type::HASH {
                lemma_blobs_bounds(data, next, 2 * count as nat);
            } else if tag == encoding_type::ZSET {
                lemma_scored_bounds(false, data, next, count as nat);
            } else if tag == encoding_type::ZSET_2 {
                lemma_scored_bounds(true, data, next, count as nat);
            } else if tag == encoding_type::LIST_QUICKLIST {
                lemma_quicklist_bounds(false, data, next, count as nat);
            } else {
                lemma_quicklist_bounds(true, data, next, count as nat);
            }
        } else {
            lemma_blob_bounds(data, pos);
        }
    }
}

/// A key/value pair that is read or passed over ends behind the position
/// at which its key starts, within the bytes.
pub proof fn lemma_key_value_moves_on<F: Filter>(
    data: Seq<u8>,
    pos: int,
    tag: u8,
    state: DecoderState,
    filter: F,
)
    requires
        0 <= pos <= data.len(),
    ensures
        match key_value_at(data, pos, tag, state, filter) {
            Step::Pass { then } => pos < then.offset <= data.len(),
            Step::Yield { record, then } => pos < then.offset <= data.len(),
            Step::Fail { .. } => true,
        },
{
    reveal(key_value_at);
    if !filter.accepts_db(state.current_database) {
        match skip_blob_at(data, pos) {
            Ok((_, next)) => {
                lemma_skip_object_bounds(data, next, tag);
            },
            Err(_) => {},
        }
    } else {
        match blob_at(data, pos) {
            Ok((key, next)) => {
                lemma_blob_bounds(data, pos);
                lemma_skip_object_bounds(data, next, tag);
                lemma_value_bounds(data, next, key, tag, state.last_expiretime);
            },
            Err(_) => {},
        }
    }
}

/// Whether `op` is one of the op-codes of the top level; every other byte
/// there is a value-type tag.
pub open spec fn is_op_code(op: u8) -> bool {
    op == op_code::MODULE_AUX || op == op_code::IDLE || op == op_code::FREQ || op == op_code::AUX
        || op == op_code::RESIZEDB || op == op_code::EXPIRETIME_MS || op == op_code::EXPIRETIME
        || op == op_code::SELECTDB || op == op_code::EOF
}

/// Every step consumes at least the byte it starts with and stays within
/// the bytes; the one exception is the step that finds the bytes at an
/// end, which stays where it is and marks the end.
pub proof fn lemma_step_moves_on<F: Filter>(data: Seq<u8>, at: Place, filter: F)
    ensures
        match step_at(data, at, filter) {
            Step::Pass { then } => at.offset < then.offset <= data.len(),
            Step::Yield { record, then } => (at.offset < then.offset <= data.len()) || (then.offset
                == at.offset && then.state.reached_eof),
            Step::Fail { .. } => true,
        },
{
    reveal(operation_at);
    if 0 <= at.offset < data.len() {
        let op = data[at.offset];
        let pos = at.offset + 1;
        if is_op_code(op) {
            if op == op_code::AUX {
                if blob_at(data, pos) is Ok {
                    lemma_blob_bounds(data, pos);
                    let (_, next) = blob_at(data, pos)->Ok_0;
                    if blob_at(data, next) is Ok {
                        lemma_blob_bounds(data, next);
                    }
                }
            }
        } else {
            lemma_key_value_moves_on(data, pos, op, at.state, filter);
        }
    }
}

/// The records of a stream without their circumstances.
pub open spec fn plain_records(stream: Seq<Emitted>) -> Seq<Record> {
    Seq::new(stream.len(), |i: int| stream[i].record)
}

/// The stream from `at` on starts with the record that the decoder comes
/// to next, and goes on behind it; it is empty where the decoder comes to
/// an error.
pub proof fn lemma_stream_unfolds<F: Filter>(data: Seq<u8>, at: Place, filter: F)
    requires
        !at.state.reached_eof,
    ensures
        match advance_at(data, at, filter) {
            Step::Yield { record, then } => plain_records(records_at(data, at, filter)) == seq![
                record,
            ] + plain_records(records_at(data, then, filter)) && failure_at(data, at, filter)
                == failure_at(data, then, filter),
            Step::Pass { .. } => false,
            Step::Fail { error } => records_at(data, at, filter) == Seq::<Emitted>::empty()
                && failure_at(data, at, filter) == Some(error),
        },
    decreases data.len() - at.offset,
{
    lemma_step_moves_on(data, at, filter);
    match step_at(data, at, filter) {
        Step::Pass { then } => {
            lemma_pass_keeps_state(data, at, filter);
            lemma_stream_unfolds(data, then, filter);
        },
        Step::Yield { record, then } => {
            let rest = records_at(data, then, filter);
            let e = emitted(data, at, record, then);
            assert(plain_records(seq![e] + rest) =~= seq![record] + plain_records(rest));
        },
        Step::Fail { .. } => {},
    }
}

/// A step that passes silently changes neither the selected database nor
/// whether the end was reached.
pub proof fn lemma_pass_keeps_state<F: Filter>(data: Seq<u8>, at: Place, filter: F)
    ensures
        match step_at(data, at, filter) {
            Step::Pass { then } => then.state.current_database == at.state.current_database
                && then.state.reached_eof == at.state.reached_eof,
            _ => true,
        },
{
    reveal(operation_at);
    reveal(key_value_at);
}

/// The record of a value that can be read is a key/value record with the
/// key and the expiry that were given.
pub proof fn lemma_value_bears(data: Seq<u8>, pos: int, key: Seq<u8>, tag: u8, expiry: Option<u64>)
    ensures
        match value_at(data, pos, key, tag, expiry) {
            Ok((record, _)) => record.key() == Some(key) && record.expiry() == expiry
                && Some(record.kind()->Some_0) == kind_of_tag(tag) && record.kind() is Some,
            Err(_) => true,
        },
{
    reveal(value_at);
}

/// The pending expiry is used once. A key/value record bears the expiry
/// that was pending when its tag was read, and no other record bears one.
/// After a record was yielded, and after a key/value pair was passed over,
/// no expiry is pending: only an expiry op-code sets one, and only the two
/// hints that follow it (idle time and frequency) keep it.
pub proof fn lemma_expiry_one_shot<F: Filter>(data: Seq<u8>, at: Place, filter: F)
    ensures
        match step_at(data, at, filter) {
            Step::Yield { record, then } => then.state.last_expiretime is None && record.expiry()
                == (if record.key() is Some {
                at.state.last_expiretime
            } else {
                None
            }),
            Step::Pass { then } => then.state.last_expiretime is Some ==> ({
                let op = op_at(data, at.offset);
                op == op_code::EXPIRETIME_MS || op == op_code::EXPIRETIME || ((op == op_code::IDLE
                    || op == op_code::FREQ) && then.state.last_expiretime
                    == at.state.last_expiretime)
            }),
            Step::Fail { .. } => true,
        },
{
    reveal(operation_at);
    reveal(key_value_at);
    if 0 <= at.offset < data.len() && !is_op_code(data[at.offset]) {
        let pos = at.offset + 1;
        if filter.accepts_db(at.state.current_database) && blob_at(data, pos) is Ok {
            let (key, next) = blob_at(data, pos)->Ok_0;
            lemma_value_bears(data, next, key, data[at.offset], at.state.last_expiretime);
        }
    }
}

/// The expiry op-code in milliseconds makes the eight bytes behind it,
/// least significant byte first, the pending expiry, and yields nothing.
pub proof fn lemma_expiretime_ms_pends<F: Filter>(data: Seq<u8>, at: Place, filter: F)
    requires
        byte_at(data, at.offset) is Ok,
        data[at.offset] == op_code::EXPIRETIME_MS,
        u64_le_at(data, at.offset + 1) is Ok,
    ensures
        step_at(data, at, filter) == (Step::Pass {
            then: Place {
                offset: at.offset + 9,
                state: DecoderState {
                    last_expiretime: Some(u64_le_at(data, at.offset + 1)->Ok_0.0),
                    ..at.state
                },
            },
        }),
{
    reveal(operation_at);
}

/// The database that was selected before the record at `index` of
/// `stream`: that of the last database marker before it, or `initial` if
/// none precedes it.
pub open spec fn selected_before(stream: Seq<Emitted>, index: int, initial: u32) -> u32
    decreases index,
{
    if index <= 0 || index > stream.len() {
        initial
    } else {
        match stream[index - 1].record {
            Record::SelectDb(db) => db,
            _ => selected_before(stream, index - 1, initial),
        }
    }
}

/// What holds of the order of every stream.
pub open spec fn well_ordered(stream: Seq<Emitted>, from: int, initial: u32) -> bool {
    &&& forall|i: int| 0 <= i < stream.len() ==> from <= (#[trigger] stream[i]).offset
    &&& forall|i: int, j: int|
        0 <= i < j < stream.len() ==> (#[trigger] stream[i]).offset < (#[trigger] stream[j]).offset
    &&& forall|i: int|
        0 <= i < stream.len() && (#[trigger] stream[i]).record is Checksum ==> i == stream.len()
            - 1
    &&& forall|i: int|
        0 <= i < stream.len() ==> (#[trigger] stream[i]).database == (match stream[i].record {
            Record::SelectDb(db) => db,
            _ => selected_before(stream, i, initial),
        })
}

/// A record put before a stream does not change which database was
/// selected before the records of the stream, if the stream is taken to
/// start from the database that was selected behind that record.
pub proof fn lemma_selected_before_prepend(
    first: Emitted,
    rest: Seq<Emitted>,
    index: int,
    initial: u32,
)
    requires
        0 <= index <= rest.len(),
    ensures
        selected_before(seq![first] + rest, index + 1, initial) == selected_before(
            rest,
            index,
            match first.record {
                Record::SelectDb(db) => db,
                _ => initial,
            },
        ),
    decreases index,
{
    let whole = seq![first] + rest;
    let start = match first.record {
        Record::SelectDb(db) => db,
        _ => initial,
    };
    assert(whole.len() == rest.len() + 1);
    if index > 0 {
        assert(whole[index] == rest[index - 1]);
        lemma_selected_before_prepend(first, rest, index - 1, initial);
        assert(selected_before(whole, index, initial) == selected_before(rest, index - 1, start));
        assert(selected_before(whole, index + 1, initial) == match whole[index].record {
            Record::SelectDb(db) => db,
            _ => selected_before(whole, index, initial),
        });
        assert(selected_before(rest, index, start) == match rest[index - 1].record {
            Record::SelectDb(db) => db,
            _ => selected_before(rest, index - 1, start),
        });
    } else {
        assert(whole[0] == first);
        assert(selected_before(whole, 0, initial) == initial);
        assert(selected_before(whole, 1, initial) == match whole[0].record {
            Record::SelectDb(db) => db,
            _ => selected_before(whole, 0, initial),
        });
        assert(selected_before(rest, 0, start) == start);
    }
}

/// A step that yields a record keeps track of the database and of the
/// end: the selected database changes with a database marker, to the
/// database it names, and with no other record; the end is reached with
/// the checksum and with no other record.
pub proof fn lemma_yield_keeps_track<F: Filter>(data: Seq<u8>, at: Place, filter: F)
    requires
        !at.state.reached_eof,
    ensures
        match step_at(data, at, filter) {
            Step::Yield { record, then } => then.state.current_database == (match record {
                Record::SelectDb(db) => db,
                _ => at.state.current_database,
            }) && (record is Checksum <==> then.state.reached_eof),
            _ => true,
        },
{
    reveal(operation_at);
    reveal(key_value_at);
    if 0 <= at.offset < data.len() && !is_op_code(data[at.offset]) {
        let pos = at.offset + 1;
        if filter.accepts_db(at.state.current_database) && blob_at(data, pos) is Ok {
            let (key, next) = blob_at(data, pos)->Ok_0;
            lemma_value_bears(data, next, key, data[at.offset], at.state.last_expiretime);
        }
    }
}

/// The records of a stream come in the order of the bytes: each starts
/// behind the start of the one before it. The checksum is the last record
/// of a stream that has one. Every record was decoded with that database
/// selected which the last database marker before it names, or, if none
/// precedes it, the database that was selected at the start.
pub proof fn lemma_stream_order<F: Filter>(data: Seq<u8>, at: Place, filter: F)
    ensures
        well_ordered(records_at(data, at, filter), at.offset, at.state.current_database),
    decreases data.len() - at.offset, (if at.state.reached_eof {
        0nat
    } else {
        1nat
    }),
{
    let stream = records_at(data, at, filter);
    let initial = at.state.current_database;
    if !at.state.reached_eof {
        lemma_step_moves_on(data, at, filter);
        lemma_yield_keeps_track(data, at, filter);
        match step_at(data, at, filter) {
            Step::Fail { .. } => {},
            Step::Pass { then } => {
                lemma_pass_keeps_state(data, at, filter);
                lemma_stream_order(data, then, filter);
                let rest = records_at(data, then, filter);
                assert forall|i: int| 0 <= i < rest.len() implies selected_before(rest, i, initial)
                    == selected_before(rest, i, then.state.current_database) by {}
            },
            Step::Yield { record, then } => {
                lemma_stream_order(data, then, filter);
                let rest = records_at(data, then, filter);
                let first = emitted(data, at, record, then);
                assert(stream == seq![first] + rest);
                assert(then.state.current_database == (match record {
                    Record::SelectDb(db) => db,
                    _ => initial,
                }));
                assert(record is Checksum ==> then.state.reached_eof);
                assert forall|i: int| 0 <= i < stream.len() implies (#[trigger] stream[i]).database
                    == (match stream[i].record {
                    Record::SelectDb(db) => db,
                    _ => selected_before(stream, i, initial),
                }) by {
                    if i > 0 {
                        assert(stream[i] == rest[i - 1]);
                        lemma_selected_before_prepend(first, rest, i - 1, initial);
                    }
                }
                assert forall|i: int, j: int| 0 <= i < j < stream.len() implies (
                #[trigger] stream[i]).offset < (#[trigger] stream[j]).offset by {
                    assert(stream[j] == rest[j - 1]);
                    if i > 0 {
                        assert(stream[i] == rest[i - 1]);
                    }
                }
                assert forall|i: int|
                    0 <= i < stream.len() && (#[trigger] stream[i]).record is Checksum implies i
                    == stream.len() - 1 by {
                    if i > 0 {
                        assert(stream[i] == rest[i - 1]);
                    }
                }
                assert forall|i: int| 0 <= i < stream.len() implies at.offset <= (
                #[trigger] stream[i]).offset by {
                    if i > 0 {
                        assert(stream[i] == rest[i - 1]);
                    }
                }
            },
        }
    }
}

/// The decoder comes to its next record behind the position at which it
/// stands, within the bytes; the one exception is the empty checksum at
/// the end of the bytes, with which the end is reached.
pub proof fn lemma_advance_moves_on<F: Filter>(data: Seq<u8>, at: Place, filter: F)
    ensures
        match advance_at(data, at, filter) {
            Step::Yield { record, then } => (at.offset < then.offset <= data.len()) || (then.offset
                == at.offset && then.state.reached_eof),
            Step::Pass { .. } => false,
            Step::Fail { .. } => true,
        },
    decreases data.len() - at.offset,
{
    lemma_step_moves_on(data, at, filter);
    match step_at(data, at, filter) {
        Step::Pass { then } => {
            lemma_advance_moves_on(data, then, filter);
        },
        _ => {},
    }
}

/// Where a byte string can be read, it can be passed over, and passing
/// over it ends where reading it ends.
pub proof fn lemma_skip_blob_agrees(data: Seq<u8>, pos: int)
    requires
        blob_at(data, pos) is Ok,
    ensures
        skip_blob_at(data, pos) == Ok::<((), int), RdbError>(((), blob_at(data, pos)->Ok_0.1)),
{
    reveal(blob_at);
}

/// Where a run of byte strings can be read, it can be passed over, and
/// passing over it ends where reading it ends.
pub proof fn lemma_skip_blobs_agree(data: Seq<u8>, pos: int, count: nat)
    requires
        entries_at(EntryKind::Blob, data, pos, count) is Ok,
    ensures
        skip_blobs_at(data, pos, count) == Ok::<((), int), RdbError>(
            ((), entries_at(EntryKind::Blob, data, pos, count)->Ok_0.1),
        ),
    decreases count,
{
    if count > 0 {
        lemma_skip_blobs_agree(data, pos, (count - 1) as nat);
        let (_, next) = entries_at(EntryKind::Blob, data, pos, (count - 1) as nat)->Ok_0;
        lemma_skip_blob_agrees(data, next);
    }
}

/// Where a run of quicklist nodes of the first layout can be read, it can
/// be passed over as a run of byte strings, and passing over it ends where
/// reading it ends.
pub proof fn lemma_skip_nodes_agree(data: Seq<u8>, pos: int, count: nat)
    requires
        quicklist_nodes_at(false, data, pos, count) is Ok,
    ensures
        skip_blobs_at(data, pos, count) == Ok::<((), int), RdbError>(
            ((), quicklist_nodes_at(false, data, pos, count)->Ok_0.1),
        ),
    decreases count,
{
    if count > 0 {
        lemma_skip_nodes_agree(data, pos, (count - 1) as nat);
        let (_, next) = quicklist_nodes_at(false, data, pos, (count - 1) as nat)->Ok_0;
        lemma_skip_blob_agrees(data, next);
    }
}

/// Whether the values with tag `tag` are stored so that passing over one
/// goes the way of reading it: as byte strings and nothing else. It is so
/// for all layouts that can be read but three: the plain sorted set, whose
/// scores are no byte strings, and the two layouts that cannot be passed
/// over at all.
pub open spec fn passes_as_read(tag: u8) -> bool {
    tag != encoding_type::ZSET && tag != encoding_type::ZSET_2 && tag
        != encoding_type::LIST_QUICKLIST_2
}

/// Where a value of a layout of byte strings can be read, it can be passed
/// over, and passing over it ends where reading it ends.
pub proof fn lemma_skip_object_agrees(
    data: Seq<u8>,
    pos: int,
    key: Seq<u8>,
    tag: u8,
    expiry: Option<u64>,
)
    requires
        value_at(data, pos, key, tag, expiry) is Ok,
        passes_as_read(tag),
    ensures
        skip_object_at(data, pos, tag) == Ok::<((), int), RdbError>(
            ((), value_at(data, pos, key, tag, expiry)->Ok_0.1),
        ),
{
    reveal(value_at);
    if tag == encoding_type::LIST || tag == encoding_type::SET || tag == encoding_type::HASH || tag
        == encoding_type::LIST_QUICKLIST {
        let (count, next) = plain_length_at(data, pos)->Ok_0;
        if tag == encoding_type::HASH {
            lemma_skip_blobs_agree(data, next, 2 * count as nat);
        } else if tag == encoding_type::LIST_QUICKLIST {
            lemma_skip_nodes_agree(data, next, count as nat);
        } else {
            lemma_skip_blobs_agree(data, next, count as nat);
        }
    } else {
        lemma_skip_blob_agrees(data, pos);
        assert(skip_blobs_at(data, pos, 1) == skip_blob_at(data, pos)) by {
            assert(skip_blobs_at(data, pos, 0) == Ok::<((), int), RdbError>(((), pos)));
        }
    }
}

/// Whether each of the `count` entries of the plain sorted set at `pos`
/// has a score that is a text of fewer than 64 bytes: such a score is laid
/// out as a byte string is.
pub open spec fn short_scores_at(data: Seq<u8>, pos: int, count: nat) -> bool
    decreases count,
{
    if count == 0 {
        true
    } else {
        short_scores_at(data, pos, (count - 1) as nat) && match scored_entries_at(
            false,
            data,
            pos,
            (count - 1) as nat,
        ) {
            Ok((_, next)) => match blob_at(data, next) {
                Ok((_, score)) => 0 <= score < data.len() && data[score] < 64,
                Err(_) => true,
            },
            Err(_) => true,
        }
    }
}

/// Where a plain sorted set with short score texts can be read, it can be
/// passed over as twice as many byte strings, and passing over it ends
/// where reading it ends.
pub proof fn lemma_skip_scored_agrees(data: Seq<u8>, pos: int, count: nat)
    requires
        scored_entries_at(false, data, pos, count) is Ok,
        short_scores_at(data, pos, count),
    ensures
        skip_blobs_at(data, pos, 2 * count) == Ok::<((), int), RdbError>(
            ((), scored_entries_at(false, data, pos, count)->Ok_0.1),
        ),
    decreases count,
{
    if count > 0 {
        let shorter = (count - 1) as nat;
        lemma_skip_scored_agrees(data, pos, shorter);
        let (_, next) = scored_entries_at(false, data, pos, shorter)->Ok_0;
        lemma_skip_blob_agrees(data, next);
        let (_, score) = blob_at(data, next)->Ok_0;
        assert(skip_blobs_at(data, pos, (2 * shorter + 1) as nat) == Ok::<((), int), RdbError>(
            ((), score),
        ));
        assert(skip_blobs_at(data, pos, (2 * shorter + 2) as nat) == skip_blob_at(data, score));
    }
}

/// Whether the filter lets everything pass.
pub open spec fn accepts_everything<A: Filter>(filter: A) -> bool {
    &&& forall|db: u32| #[trigger] filter.accepts_db(db)
    &&& forall|tag: u8| #[trigger] filter.accepts_type(tag)
    &&& forall|key: Seq<u8>| #[trigger] filter.accepts_key(key)
}

/// Whether the filter wants the record: it is a key/value record, and the
/// filter accepts the database it was decoded in, its tag and its key.
pub open spec fn wanted<F: Filter>(filter: F, e: Emitted) -> bool {
    match e.record.key() {
        Some(key) => filter.accepts_db(e.database) && filter.accepts_type(e.op)
            && filter.accepts_key(key),
        None => false,
    }
}

/// The key/value records of a stream, in their order.
pub open spec fn key_records(stream: Seq<Emitted>) -> Seq<Emitted>
    decreases stream.len(),
{
    if stream.len() == 0 {
        Seq::empty()
    } else if stream.first().record.key() is Some {
        seq![stream.first()] + key_records(stream.drop_first())
    } else {
        key_records(stream.drop_first())
    }
}

/// The records of a stream that the filter wants, in their order.
pub open spec fn wanted_records<F: Filter>(stream: Seq<Emitted>, filter: F) -> Seq<Emitted>
    decreases stream.len(),
{
    if stream.len() == 0 {
        Seq::empty()
    } else if wanted(filter, stream.first()) {
        seq![stream.first()] + wanted_records(stream.drop_first(), filter)
    } else {
        wanted_records(stream.drop_first(), filter)
    }
}

/// Whether passing over the value of the key/value record `e` ends where
/// reading it ended.
pub open spec fn skip_lands(data: Seq<u8>, e: Emitted) -> bool {
    blob_at(data, e.offset + 1) is Ok && skip_object_at(
        data,
        blob_at(data, e.offset + 1)->Ok_0.1,
        e.op,
    ) == Ok::<((), int), RdbError>(((), e.end))
}

/// Whether passing over goes the way of reading for every key/value
/// record of the stream that the filter does not want.
pub open spec fn rejected_skip_lands<F: Filter>(
    data: Seq<u8>,
    stream: Seq<Emitted>,
    filter: F,
) -> bool {
    forall|i: int|
        0 <= i < stream.len() && (#[trigger] stream[i]).record.key() is Some && !wanted(
            filter,
            stream[i],
        ) ==> skip_lands(data, stream[i])
}

/// A key/value record of a layout of byte strings is passed over to where
/// reading it ended. So the condition of the filter equivalence holds of
/// every record of such a layout.
pub proof fn lemma_skip_lands<F: Filter>(data: Seq<u8>, at: Place, filter: F)
    requires
        !at.state.reached_eof,
    ensures
        match step_at(data, at, filter) {
            Step::Yield { record, then } => record.key() is Some && passes_as_read(
                op_at(data, at.offset),
            ) ==> skip_lands(data, emitted(data, at, record, then)),
            _ => true,
        },
{
    reveal(operation_at);
    reveal(key_value_at);
    if 0 <= at.offset < data.len() && !is_op_code(data[at.offset]) {
        let pos = at.offset + 1;
        let tag = data[at.offset];
        if filter.accepts_db(at.state.current_database) && blob_at(data, pos) is Ok {
            let (key, next) = blob_at(data, pos)->Ok_0;
            if passes_as_read(tag) && value_at(data, next, key, tag, at.state.last_expiretime)
                is Ok {
                lemma_skip_object_agrees(data, next, key, tag, at.state.last_expiretime);
            }
        }
    }
}

/// Filter equivalence. The key/value records that the decoder yields with
/// a filter are those among the records it yields without one that the
/// filter wants, in the same order. The records that the filter rejects
/// are passed over at the level of bytes.
///
/// This holds where decoding without a filter runs to the end, and where
/// passing over each rejected value ends where reading it ends. The second
/// holds of every layout of byte strings (`lemma_skip_lands`), and of a
/// plain sorted set whose scores are short texts
/// (`lemma_skip_scored_agrees`).
pub proof fn lemma_filter_equivalence<F: Filter, A: Filter>(
    data: Seq<u8>,
    at: Place,
    filter: F,
    all: A,
)
    requires
        accepts_everything(all),
        failure_at(data, at, all) is None,
        rejected_skip_lands(data, records_at(data, at, all), filter),
    ensures
        key_records(records_at(data, at, filter)) == wanted_records(
            records_at(data, at, all),
            filter,
        ),
        failure_at(data, at, filter) is None,
    decreases data.len() - at.offset, (if at.state.reached_eof {
        0nat
    } else {
        1nat
    }),
{
    if !at.state.reached_eof {
        lemma_step_moves_on(data, at, all);
        lemma_step_filtered(data, at, filter, all);
        let unfiltered = records_at(data, at, all);
        match step_at(data, at, all) {
            Step::Fail { .. } => {},
            Step::Pass { then } => {
                lemma_filter_equivalence(data, then, filter, all);
            },
            Step::Yield { record, then } => {
                let e = emitted(data, at, record, then);
                let rest = records_at(data, then, all);
                assert(unfiltered == seq![e] + rest);
                assert(unfiltered.first() == e);
                assert(unfiltered.drop_first() =~= rest);
                assert(unfiltered[0] == e);
                assert forall|i: int|
                    0 <= i < rest.len() && (#[trigger] rest[i]).record.key() is Some && !wanted(
                        filter,
                        rest[i],
                    ) implies skip_lands(data, rest[i]) by {
                    assert(unfiltered[i + 1] == rest[i]);
                }
                lemma_filter_equivalence(data, then, filter, all);
                if wanted(filter, e) {
                    let filtered = records_at(data, at, filter);
                    let filtered_rest = records_at(data, then, filter);
                    assert(filtered == seq![e] + filtered_rest);
                    assert(filtered.first() == e);
                    assert(filtered.drop_first() =~= filtered_rest);
                } else if record.key() is None {
                    let filtered = records_at(data, at, filter);
                    let filtered_rest = records_at(data, then, filter);
                    assert(filtered == seq![e] + filtered_rest);
                    assert(filtered.first() == e);
                    assert(filtered.drop_first() =~= filtered_rest);
                }
            },
        }
    }
}

/// What a step with a filter does where the same step without a filter
/// does not fail: the same, but that a key/value record that the filter
/// does not want is passed over to the same place instead of yielded, if
/// passing over it ends where reading it ended.
pub proof fn lemma_step_filtered<F: Filter, A: Filter>(
    data: Seq<u8>,
    at: Place,
    filter: F,
    all: A,
)
    requires
        accepts_everything(all),
        !at.state.reached_eof,
    ensures
        match step_at(data, at, all) {
            Step::Fail { .. } => true,
            Step::Pass { then } => step_at(data, at, filter) == (Step::Pass { then }),
            Step::Yield { record, then } => {
                let e = emitted(data, at, record, then);
                if record.key() is None || wanted(filter, e) {
                    step_at(data, at, filter) == (Step::Yield { record, then })
                } else {
                    skip_lands(data, e) ==> step_at(data, at, filter) == (Step::Pass { then })
                }
            },
        },
{
    reveal(operation_at);
    reveal(key_value_at);
    if 0 <= at.offset < data.len() && !is_op_code(data[at.offset]) {
        let pos = at.offset + 1;
        let tag = data[at.offset];
        assert(all.accepts_db(at.state.current_database));
        assert(all.accepts_type(tag));
        if blob_at(data, pos) is Ok {
            let (key, next) = blob_at(data, pos)->Ok_0;
            assert(all.accepts_key(key));
            lemma_skip_blob_agrees(data, pos);
            lemma_value_bears(data, next, key, tag, at.state.last_expiretime);
        }
    }
}

} // verus!
