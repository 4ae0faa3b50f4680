//! The top-level state machine: one op-code at a time, it yields a record,
//! passes silently, or fails.

use vstd::prelude::*;
use vstd::slice::slice_to_vec;

use crate::constants::{constant, encoding, encoding_type, op_code, version};
use crate::decoder::common::utils::{
    blob_at, is_ascii_digit, length_at, magic_at, plain_length_at, read_blob, read_length,
    read_length_with_encoding, sequence_at, verify_magic, verify_version, version_at,
    version_number,
};
use crate::decoder::hash::{
    hash_at, hash_of, hash_with, paired_listpack_blob_at, paired_ziplist_blob_at, read_hash,
    read_hash_list_pack, read_hash_ziplist, read_hash_zipmap, zipmap_blob_at,
};
use crate::decoder::list::{
    list_of, listpack_blob_at, quicklist_at, read_linked_list, read_list_ziplist, read_quicklist,
    read_quicklist_2, ziplist_blob_at,
};
use crate::decoder::set::{intset_blob_at, read_set, read_set_intset, read_set_list_pack, set_of};
use crate::decoder::sorted_set::{
    read_sorted_set, read_sorted_set_listpack, read_sorted_set_ziplist, sorted_set_at,
    sorted_set_of, sorted_set_with,
};
use crate::filter::Filter;
use crate::source::{byte_at, reads, skipped_at, u32_be_at, u64_le_at, ByteSource};
use crate::types::{RdbError, RdbResult, RdbValue, Record};

verus! {

/// What the decoder remembers between two op-codes.
#[derive(Debug, Clone, Copy, PartialEq, Eq, Structural)]
pub struct DecoderState {
    /// The expiry that the next value record will bear, in unix milliseconds.
    pub last_expiretime: Option<u64>,
    /// The database that the last database marker selected.
    pub current_database: u32,
    /// Whether the checksum was yielded: then nothing follows.
    pub reached_eof: bool,
}

impl Default for DecoderState {
    fn default() -> (r: DecoderState)
        ensures
            r == initial_state(),
    {
        DecoderState { last_expiretime: None, current_database: 0, reached_eof: false }
    }
}

/// The state of a decoder that has read the header and nothing else.
pub open spec fn initial_state() -> DecoderState {
    DecoderState { last_expiretime: None, current_database: 0, reached_eof: false }
}

/// `state` without a pending expiry.
pub open spec fn without_expiry(state: DecoderState) -> DecoderState {
    DecoderState { last_expiretime: None, ..state }
}

/// Where the decoder stands: a position in the bytes and its state.
pub struct Place {
    pub offset: int,
    pub state: DecoderState,
}

/// What one op-code makes of the decoder.
pub enum Step {
    /// A record is yielded and the decoder goes on at `then`.
    Yield { record: Record, then: Place },
    /// Nothing is yielded and the decoder goes on at `then`.
    Pass { then: Place },
    /// Decoding stops with an error.
    Fail { error: RdbError },
}

/// Whether the header stands at `pos`: the magic string, then the version.
pub open spec fn header_at(data: Seq<u8>, pos: int) -> Result<((), int), RdbError> {
    match magic_at(data, pos) {
        Err(e) => Err(e),
        Ok((_, next)) => version_at(data, next),
    }
}

/// The position behind the byte string at `pos`, found from its length
/// prefix alone: raw bytes are passed over, a packed integer takes 1, 2 or
/// 4 bytes, a compressed payload its compressed length.
pub open spec fn skip_blob_at(data: Seq<u8>, pos: int) -> Result<((), int), RdbError> {
    match length_at(data, pos) {
        Err(e) => Err(e),
        Ok(((len, is_encoded), next)) => if !is_encoded {
            skipped_at(data, next, len as int)
        } else if len == encoding::INT8 {
            skipped_at(data, next, 1)
        } else if len == encoding::INT16 {
            skipped_at(data, next, 2)
        } else if len == encoding::INT32 {
            skipped_at(data, next, 4)
        } else if len == encoding::LZF {
            match plain_length_at(data, next) {
                Err(e) => Err(e),
                Ok((compressed_length, pos1)) => match plain_length_at(data, pos1) {
                    Err(e) => Err(e),
                    Ok((_, pos2)) => skipped_at(data, pos2, compressed_length as int),
                },
            }
        } else {
            Err(RdbError::UnknownEncoding(len as u8))
        },
    }
}

/// The position behind `count` byte strings from `pos` on.
pub open spec fn skip_blobs_at(data: Seq<u8>, pos: int, count: nat) -> Result<((), int), RdbError>
    decreases count,
{
    if count == 0 {
        Ok(((), pos))
    } else {
        match skip_blobs_at(data, pos, (count - 1) as nat) {
            Err(e) => Err(e),
            Ok((_, next)) => skip_blob_at(data, next),
        }
    }
}

/// Once a byte string cannot be passed over, no longer run can be either:
/// it fails with the same error.
pub proof fn lemma_skip_fails_on(data: Seq<u8>, pos: int, failed: nat, count: nat)
    requires
        skip_blobs_at(data, pos, failed) is Err,
        failed <= count,
    ensures
        skip_blobs_at(data, pos, count) == skip_blobs_at(data, pos, failed),
    decreases count,
{
    if failed < count {
        lemma_skip_fails_on(data, pos, failed, (count - 1) as nat);
    }
}

/// Whether a value with this tag is stored as one byte string.
pub open spec fn is_single_blob(tag: u8) -> bool {
    tag == encoding_type::STRING || tag == encoding_type::HASH_ZIPMAP || tag
        == encoding_type::LIST_ZIPLIST || tag == encoding_type::SET_INTSET || tag
        == encoding_type::ZSET_ZIPLIST || tag == encoding_type::HASH_ZIPLIST || tag
        == encoding_type::HASH_LIST_PACK || tag == encoding_type::SET_LIST_PACK || tag
        == encoding_type::ZSET_LIST_PACK
}

/// The number of byte strings that the value with tag `tag` at `pos` is
/// made of, with the position of the first: one for the layouts of one
/// byte string; the stored length for a plain list, a plain set and a
/// quicklist of ziplists; twice the stored length for a plain sorted set
/// and a plain hash. A value of any other tag cannot be passed over.
pub open spec fn blob_count_at(data: Seq<u8>, pos: int, tag: u8) -> Result<(nat, int), RdbError> {
    if is_single_blob(tag) {
        Ok((1, pos))
    } else if tag == encoding_type::LIST || tag == encoding_type::SET || tag
        == encoding_type::LIST_QUICKLIST {
        match plain_length_at(data, pos) {
            Err(e) => Err(e),
            Ok((len, next)) => Ok((len as nat, next)),
        }
    } else if tag == encoding_type::ZSET || tag == encoding_type::HASH {
        match plain_length_at(data, pos) {
            Err(e) => Err(e),
            Ok((len, next)) => Ok((2 * len as nat, next)),
        }
    } else {
        Err(RdbError::UnknownEncoding(tag))
    }
}

/// The position behind the value with tag `tag` at `pos`, found without
/// decoding the value.
pub open spec fn skip_object_at(data: Seq<u8>, pos: int, tag: u8) -> Result<((), int), RdbError> {
    match blob_count_at(data, pos, tag) {
        Err(e) => Err(e),
        Ok((count, next)) => skip_blobs_at(data, next, count),
    }
}

/// The position behind the key at `pos` and the value with tag `tag` that
/// follows it, found without decoding either.
pub open spec fn skip_key_and_object_at(data: Seq<u8>, pos: int, tag: u8) -> Result<
    ((), int),
    RdbError,
> {
    match skip_blob_at(data, pos) {
        Err(e) => Err(e),
        Ok((_, next)) => skip_object_at(data, next, tag),
    }
}

/// The record of the value with tag `tag` that stands at `pos`, for the
/// key and the expiry that were read before it. A tag of a stream, of a
/// module or of no known layout is an unknown encoding.
#[verifier::opaque]
pub open spec fn value_at(
    data: Seq<u8>,
    pos: int,
    key: Seq<u8>,
    tag: u8,
    expiry: Option<u64>,
) -> Result<(Record, int), RdbError> {
    if tag == encoding_type::STRING {
        match blob_at(data, pos) {
            Err(e) => Err(e),
            Ok((value, next)) => Ok((Record::String { key, value, expiry }, next)),
        }
    } else if tag == encoding_type::LIST {
        list_of(key, expiry, sequence_at(data, pos))
    } else if tag == encoding_type::SET {
        set_of(key, expiry, sequence_at(data, pos))
    } else if tag == encoding_type::ZSET {
        sorted_set_with(key, expiry, sorted_set_at(false, data, pos))
    } else if tag == encoding_type::HASH {
        hash_of(key, expiry, hash_at(data, pos))
    } else if tag == encoding_type::HASH_ZIPMAP {
        hash_with(key, expiry, zipmap_blob_at(data, pos))
    } else if tag == encoding_type::LIST_ZIPLIST {
        list_of(key, expiry, ziplist_blob_at(data, pos))
    } else if tag == encoding_type::SET_INTSET {
        set_of(key, expiry, intset_blob_at(data, pos))
    } else if tag == encoding_type::ZSET_ZIPLIST {
        sorted_set_of(key, expiry, paired_ziplist_blob_at(data, pos))
    } else if tag == encoding_type::HASH_ZIPLIST {
        hash_of(key, expiry, paired_ziplist_blob_at(data, pos))
    } else if tag == encoding_type::LIST_QUICKLIST {
        list_of(key, expiry, quicklist_at(false, data, pos))
    } else if tag == encoding_type::HASH_LIST_PACK {
        hash_of(key, expiry, paired_listpack_blob_at(data, pos))
    } else if tag == encoding_type::ZSET_2 {
        sorted_set_with(key, expiry, sorted_set_at(true, data, pos))
    } else if tag == encoding_type::LIST_QUICKLIST_2 {
        list_of(key, expiry, quicklist_at(true, data, pos))
    } else if tag == encoding_type::ZSET_LIST_PACK {
        sorted_set_of(key, expiry, paired_listpack_blob_at(data, pos))
    } else if tag == encoding_type::SET_LIST_PACK {
        set_of(key, expiry, listpack_blob_at(data, pos))
    } else {
        Err(RdbError::UnknownEncoding(tag))
    }
}

/// What a key/value pair with tag `tag`, whose key stands at `pos`, makes
/// of the decoder.
///
/// If the filter rejects the current database, key and value are passed
/// over unread. Else the key is read; if the filter rejects the tag or the
/// key, the value is passed over; else the value is read and the record
/// bears the pending expiry. Read or not, the pair uses the pending expiry up.
#[verifier::opaque]
pub open spec fn key_value_at<F: Filter>(
    data: Seq<u8>,
    pos: int,
    tag: u8,
    state: DecoderState,
    filter: F,
) -> Step {
    if !filter.accepts_db(state.current_database) {
        match skip_key_and_object_at(data, pos, tag) {
            Err(error) => Step::Fail { error },
            Ok((_, next)) => Step::Pass {
                then: Place { offset: next, state: without_expiry(state) },
            },
        }
    } else {
        match blob_at(data, pos) {
            Err(error) => Step::Fail { error },
            Ok((key, next)) => if !filter.accepts_type(tag) || !filter.accepts_key(key) {
                match skip_object_at(data, next, tag) {
                    Err(error) => Step::Fail { error },
                    Ok((_, after)) => Step::Pass {
                        then: Place { offset: after, state: without_expiry(state) },
                    },
                }
            } else {
                match value_at(data, next, key, tag, state.last_expiretime) {
                    Err(error) => Step::Fail { error },
                    Ok((record, after)) => Step::Yield {
                        record,
                        then: Place { offset: after, state: without_expiry(state) },
                    },
                }
            },
        }
    }
}

/// What the op-code `op`, with the bytes behind it starting at `pos`,
/// makes of a decoder in state `state`.
#[verifier::opaque]
pub open spec fn operation_at<F: Filter>(
    data: Seq<u8>,
    pos: int,
    op: u8,
    state: DecoderState,
    filter: F,
) -> Step {
    if op == op_code::SELECTDB {
        match plain_length_at(data, pos) {
            Err(error) => Step::Fail { error },
            Ok((db, next)) => Step::Yield {
                record: Record::SelectDb(db),
                then: Place {
                    offset: next,
                    state: DecoderState {
                        current_database: db,
                        last_expiretime: None,
                        reached_eof: state.reached_eof,
                    },
                },
            },
        }
    } else if op == op_code::EOF {
        Step::Yield {
            record: Record::Checksum(data.subrange(pos, data.len() as int)),
            then: Place {
                offset: data.len() as int,
                state: DecoderState {
                    current_database: state.current_database,
                    last_expiretime: None,
                    reached_eof: true,
                },
            },
        }
    } else if op == op_code::EXPIRETIME_MS {
        match u64_le_at(data, pos) {
            Err(error) => Step::Fail { error },
            Ok((millis, next)) => Step::Pass {
                then: Place {
                    offset: next,
                    state: DecoderState { last_expiretime: Some(millis), ..state },
                },
            },
        }
    } else if op == op_code::EXPIRETIME {
        match u32_be_at(data, pos) {
            Err(error) => Step::Fail { error },
            Ok((seconds, next)) => Step::Pass {
                then: Place {
                    offset: next,
                    state: DecoderState {
                        last_expiretime: Some((seconds * 1000) as u64),
                        ..state
                    },
                },
            },
        }
    } else if op == op_code::RESIZEDB {
        match plain_length_at(data, pos) {
            Err(error) => Step::Fail { error },
            Ok((db_size, pos1)) => match plain_length_at(data, pos1) {
                Err(error) => Step::Fail { error },
                Ok((expires_size, pos2)) => Step::Yield {
                    record: Record::ResizeDb { db_size, expires_size },
                    then: Place { offset: pos2, state: without_expiry(state) },
                },
            },
        }
    } else if op == op_code::AUX {
        match blob_at(data, pos) {
            Err(error) => Step::Fail { error },
            Ok((key, pos1)) => match blob_at(data, pos1) {
                Err(error) => Step::Fail { error },
                Ok((value, pos2)) => Step::Yield {
                    record: Record::AuxField { key, value },
                    then: Place { offset: pos2, state: without_expiry(state) },
                },
            },
        }
    } else if op == op_code::MODULE_AUX {
        match skip_blob_at(data, pos) {
            Err(error) => Step::Fail { error },
            Ok((_, next)) => Step::Pass {
                then: Place { offset: next, state: without_expiry(state) },
            },
        }
    } else if op == op_code::IDLE {
        match plain_length_at(data, pos) {
            Err(error) => Step::Fail { error },
            Ok((_, next)) => Step::Pass { then: Place { offset: next, state } },
        }
    } else if op == op_code::FREQ {
        match byte_at(data, pos) {
            Err(error) => Step::Fail { error },
            Ok((_, next)) => Step::Pass { then: Place { offset: next, state } },
        }
    } else {
        key_value_at(data, pos, op, state, filter)
    }
}

/// What the op-code at `at.offset` makes of the decoder. Where the bytes
/// end in place of an op-code, the decoder yields an empty checksum and
/// has reached the end.
pub open spec fn step_at<F: Filter>(data: Seq<u8>, at: Place, filter: F) -> Step {
    match byte_at(data, at.offset) {
        Err(_) => Step::Yield {
            record: Record::Checksum(Seq::empty()),
            then: Place {
                offset: at.offset,
                state: DecoderState {
                    current_database: at.state.current_database,
                    last_expiretime: None,
                    reached_eof: true,
                },
            },
        },
        Ok((op, next)) => operation_at(data, next, op, at.state, filter),
    }
}

/// What the decoder makes of the bytes from `at.offset` on until it yields
/// a record or fails: the steps that pass silently are taken one after the
/// other.
pub open spec fn advance_at<F: Filter>(data: Seq<u8>, at: Place, filter: F) -> Step
    decreases data.len() - at.offset,
    via advance_at_terminates::<F>
{
    match step_at(data, at, filter) {
        Step::Pass { then } => advance_at(data, then, filter),
        other => other,
    }
}

#[via_fn]
proof fn advance_at_terminates<F: Filter>(data: Seq<u8>, at: Place, filter: F) {
    lemma_pass_moves_on(data, at, filter);
}

/// A run of byte strings that can be passed over ends at or behind the
/// position at which it starts, within the bytes.
pub proof fn lemma_skip_blobs_bounds(data: Seq<u8>, pos: int, count: nat)
    requires
        0 <= pos <= data.len(),
        skip_blobs_at(data, pos, count) is Ok,
    ensures
        pos <= skip_blobs_at(data, pos, count)->Ok_0.1 <= data.len(),
    decreases count,
{
    if count > 0 {
        lemma_skip_blobs_bounds(data, pos, (count - 1) as nat);
    }
}

/// A step that passes silently consumes at least its op-code and stays
/// within the bytes.
pub proof fn lemma_pass_moves_on<F: Filter>(data: Seq<u8>, at: Place, filter: F)
    ensures
        match step_at(data, at, filter) {
            Step::Pass { then } => at.offset < then.offset <= data.len(),
            _ => true,
        },
{
    reveal(operation_at);
    reveal(key_value_at);
    if 0 <= at.offset < data.len() {
        let op = data[at.offset];
        let pos = at.offset + 1;
        if op == op_code::MODULE_AUX || op == op_code::IDLE || op == op_code::FREQ || op
            == op_code::EXPIRETIME || op == op_code::EXPIRETIME_MS || op == op_code::SELECTDB
            || op == op_code::EOF || op == op_code::RESIZEDB || op == op_code::AUX {
        } else {
            if !filter.accepts_db(at.state.current_database) {
                match skip_blob_at(data, pos) {
                    Ok((_, next)) => {
                        lemma_skip_object_bounds(data, next, op);
                    },
                    Err(_) => {},
                }
            } else {
                match blob_at(data, pos) {
                    Ok((_, next)) => {
                        lemma_blob_bounds(data, pos);
                        lemma_skip_object_bounds(data, next, op);
                    },
                    Err(_) => {},
                }
            }
        }
    }
}

/// A byte string that can be read ends behind the position at which it
/// starts, within the bytes.
pub proof fn lemma_blob_bounds(data: Seq<u8>, pos: int)
    requires
        0 <= pos,
        blob_at(data, pos) is Ok,
    ensures
        pos < blob_at(data, pos)->Ok_0.1 <= data.len(),
{
    reveal(blob_at);
}

/// A value that can be passed over ends at or behind the position at which
/// it starts, within the bytes.
pub proof fn lemma_skip_object_bounds(data: Seq<u8>, pos: int, tag: u8)
    requires
        0 <= pos <= data.len(),
    ensures
        match skip_object_at(data, pos, tag) {
            Ok((_, next)) => pos <= next <= data.len(),
            Err(_) => true,
        },
{
    match blob_count_at(data, pos, tag) {
        Ok((count, next)) => {
            if skip_blobs_at(data, next, count) is Ok {
                lemma_skip_blobs_bounds(data, next, count);
            }
        },
        Err(_) => {},
    }
}

/// What a call that looks for the next record does and returns, given what
/// the format says follows (`expected`): the bytes stay; where a record
/// follows, the call returns it and leaves position and state behind it;
/// where decoding fails, the call returns the error.
pub open spec fn advances(
    before: ByteSource,
    after: ByteSource,
    state: DecoderState,
    result: RdbResult<RdbValue>,
    expected: Step,
) -> bool {
    &&& after.bytes() == before.bytes()
    &&& match expected {
        Step::Yield { record, then } => result is Ok && result->Ok_0@ == record && after.offset()
            == then.offset && state == then.state,
        Step::Pass { .. } => false,
        Step::Fail { error } => result == Err::<RdbValue, RdbError>(error),
    }
}

/// Consumes the header: the magic string and a supported version.
pub fn verify_header(input: &mut ByteSource) -> (r: RdbResult<()>)
    ensures
        reads(*old(input), *final(input), r, header_at(old(input).bytes(), old(input).offset())),
{
    verify_magic(input)?;
    verify_version(input)
}

/// Reads the value with tag `value_type` for the key and expiry that
/// stand before it.
pub fn read_type(input: &mut ByteSource, key: &[u8], value_type: u8, expiry: Option<u64>) -> (r:
    RdbResult<RdbValue>)
    ensures
        reads(
            *old(input),
            *final(input),
            r,
            value_at(old(input).bytes(), old(input).offset(), key@, value_type, expiry),
        ),
{
    reveal(value_at);
    reveal(blob_at);
    match value_type {
        encoding_type::STRING => {
            let value: Vec<u8> = read_blob(input)?;
            Ok(RdbValue::String { key: slice_to_vec(key), value, expiry })
        },
        encoding_type::LIST => read_linked_list(input, key, expiry),
        encoding_type::SET => read_set(input, key, expiry),
        encoding_type::ZSET => read_sorted_set(input, key, expiry, false),
        encoding_type::HASH => read_hash(input, key, expiry),
        encoding_type::HASH_ZIPMAP => read_hash_zipmap(input, key, expiry),
        encoding_type::LIST_ZIPLIST => read_list_ziplist(input, key, expiry),
        encoding_type::SET_INTSET => read_set_intset(input, key, expiry),
        encoding_type::ZSET_ZIPLIST => read_sorted_set_ziplist(input, key, expiry),
        encoding_type::HASH_ZIPLIST => read_hash_ziplist(input, key, expiry),
        encoding_type::LIST_QUICKLIST => read_quicklist(input, key, expiry),
        encoding_type::HASH_LIST_PACK => read_hash_list_pack(input, key, expiry),
        encoding_type::ZSET_2 => read_sorted_set(input, key, expiry, true),
        encoding_type::LIST_QUICKLIST_2 => read_quicklist_2(input, key, expiry),
        encoding_type::ZSET_LIST_PACK => read_sorted_set_listpack(input, key, expiry),
        encoding_type::SET_LIST_PACK => read_set_list_pack(input, key, expiry),
        unknown_type => Err(RdbError::UnknownEncoding(unknown_type)),
    }
}

/// Passes over `skip_bytes` bytes.
pub fn skip(input: &mut ByteSource, skip_bytes: usize) -> (r: RdbResult<()>)
    ensures
        reads(
            *old(input),
            *final(input),
            r,
            skipped_at(old(input).bytes(), old(input).offset(), skip_bytes as int),
        ),
{
    input.skip(skip_bytes)
}

/// Passes over one byte string without decoding it.
pub fn skip_blob(input: &mut ByteSource) -> (r: RdbResult<()>)
    ensures
        reads(*old(input), *final(input), r, skip_blob_at(old(input).bytes(), old(input).offset())),
{
    let (len, is_encoded) = read_length_with_encoding(input)?;
    let skip_bytes: u32;
    if is_encoded {
        if len == encoding::INT8 {
            skip_bytes = 1;
        } else if len == encoding::INT16 {
            skip_bytes = 2;
        } else if len == encoding::INT32 {
            skip_bytes = 4;
        } else if len == encoding::LZF {
            let compressed_length: u32 = read_length(input)?;
            let _real_length: u32 = read_length(input)?;
            skip_bytes = compressed_length;
        } else {
            return Err(RdbError::UnknownEncoding(len as u8));
        }
    } else {
        skip_bytes = len;
    }
    skip(input, skip_bytes as usize)
}

/// Passes over the value with tag `enc_type` without decoding it.
pub fn skip_object(input: &mut ByteSource, enc_type: u8) -> (r: RdbResult<()>)
    ensures
        reads(
            *old(input),
            *final(input),
            r,
            skip_object_at(old(input).bytes(), old(input).offset(), enc_type),
        ),
{
    let blobs_count: u64 = match enc_type {
        encoding_type::STRING
        | encoding_type::HASH_ZIPMAP
        | encoding_type::LIST_ZIPLIST
        | encoding_type::SET_INTSET
        | encoding_type::ZSET_ZIPLIST
        | encoding_type::HASH_ZIPLIST
        | encoding_type::HASH_LIST_PACK
        | encoding_type::SET_LIST_PACK
        | encoding_type::ZSET_LIST_PACK => 1,
        encoding_type::LIST | encoding_type::SET | encoding_type::LIST_QUICKLIST => {
            let len: u32 = read_length(input)?;
            len as u64
        },
        encoding_type::ZSET | encoding_type::HASH => {
            let len: u32 = read_length(input)?;
            len as u64 * 2
        },
        _ => {
            return Err(RdbError::UnknownEncoding(enc_type));
        },
    };
    let ghost start: int = input.offset();
    let mut done: u64 = 0;
    while done < blobs_count
        invariant
            input.bytes() == old(input).bytes(),
            blob_count_at(old(input).bytes(), old(input).offset(), enc_type) == Ok::<
                (nat, int),
                RdbError,
            >((blobs_count as nat, start)),
            done <= blobs_count,
            skip_blobs_at(input.bytes(), start, done as nat) == Ok::<((), int), RdbError>(
                ((), input.offset()),
            ),
        decreases blobs_count - done,
    {
        match skip_blob(input) {
            Ok(_) => {},
            Err(e) => {
                proof {
                    lemma_skip_fails_on(
                        input.bytes(),
                        start,
                        (done + 1) as nat,
                        blobs_count as nat,
                    );
                }
                return Err(e);
            },
        }
        done = done + 1;
    }
    Ok(())
}

/// Passes over a key and the value with tag `enc_type` behind it.
pub fn skip_key_and_object(input: &mut ByteSource, enc_type: u8) -> (r: RdbResult<()>)
    ensures
        reads(
            *old(input),
            *final(input),
            r,
            skip_key_and_object_at(old(input).bytes(), old(input).offset(), enc_type),
        ),
{
    skip_blob(input)?;
    skip_object(input, enc_type)
}

/// What one call that handles one op-code does and returns, given what
/// the format says the op-code makes of the decoder (`expected`).
pub open spec fn steps(
    before: ByteSource,
    after: ByteSource,
    state: DecoderState,
    result: RdbResult<Option<RdbValue>>,
    expected: Step,
) -> bool {
    &&& after.bytes() == before.bytes()
    &&& match expected {
        Step::Yield { record, then } => result is Ok && result->Ok_0 is Some
            && result->Ok_0->Some_0@ == record && after.offset() == then.offset && state
            == then.state,
        Step::Pass { then } => result is Ok && result->Ok_0 is None && after.offset()
            == then.offset && state == then.state,
        Step::Fail { error } => result == Err::<Option<RdbValue>, RdbError>(error),
    }
}

/// Handles a key/value pair with tag `value_type` whose key comes next:
/// reads it, or passes over it if the filter rejects it.
pub fn handle_value_type<F: Filter>(
    input: &mut ByteSource,
    filter: &F,
    state: &mut DecoderState,
    value_type: u8,
) -> (r: RdbResult<Option<RdbValue>>)
    ensures
        steps(
            *old(input),
            *final(input),
            *final(state),
            r,
            key_value_at(
                old(input).bytes(),
                old(input).offset(),
                value_type,
                *old(state),
                *filter,
            ),
        ),
{
    reveal(key_value_at);
    if !filter.matches_db(state.current_database) {
        skip_key_and_object(input, value_type)?;
        state.last_expiretime = None;
        return Ok(None);
    }
    let key: Vec<u8> = read_blob(input)?;
    if !filter.matches_type(value_type) || !filter.matches_key(key.as_slice()) {
        skip_object(input, value_type)?;
        state.last_expiretime = None;
        return Ok(None);
    }
    let value: RdbValue = read_type(input, key.as_slice(), value_type, state.last_expiretime)?;
    state.last_expiretime = None;
    Ok(Some(value))
}

/// Handles the op-code `next_op`, which was read already.
pub fn process_operation<F: Filter>(
    input: &mut ByteSource,
    filter: &F,
    state: &mut DecoderState,
    next_op: u8,
) -> (r: RdbResult<Option<RdbValue>>)
    ensures
        steps(
            *old(input),
            *final(input),
            *final(state),
            r,
            operation_at(old(input).bytes(), old(input).offset(), next_op, *old(state), *filter),
        ),
{
    reveal(operation_at);
    match next_op {
        op_code::SELECTDB => {
            let db: u32 = read_length(input)?;
            state.current_database = db;
            state.last_expiretime = None;
            Ok(Some(RdbValue::SelectDb(db)))
        },
        op_code::EOF => {
            let checksum: Vec<u8> = input.read_to_end();
            state.reached_eof = true;
            state.last_expiretime = None;
            Ok(Some(RdbValue::Checksum(checksum)))
        },
        op_code::EXPIRETIME_MS => {
            let millis: u64 = input.read_u64_le()?;
            state.last_expiretime = Some(millis);
            Ok(None)
        },
        op_code::EXPIRETIME => {
            let seconds: u32 = input.read_u32_be()?;
            state.last_expiretime = Some(seconds as u64 * 1000);
            Ok(None)
        },
        op_code::RESIZEDB => {
            let db_size: u32 = read_length(input)?;
            let expires_size: u32 = read_length(input)?;
            state.last_expiretime = None;
            Ok(Some(RdbValue::ResizeDb { db_size, expires_size }))
        },
        op_code::AUX => {
            let key: Vec<u8> = read_blob(input)?;
            let value: Vec<u8> = read_blob(input)?;
            state.last_expiretime = None;
            Ok(Some(RdbValue::AuxField { key, value }))
        },
        op_code::MODULE_AUX => {
            skip_blob(input)?;
            state.last_expiretime = None;
            Ok(None)
        },
        op_code::IDLE => {
            let _idle_time: u32 = read_length(input)?;
            Ok(None)
        },
        op_code::FREQ => {
            let _freq: u8 = input.read_u8()?;
            Ok(None)
        },
        value_type => handle_value_type(input, filter, state, value_type),
    }
}

/// Handles the op-code at the position of `input`; where the bytes end in
/// its place, yields an empty checksum and marks the end.
pub fn process_step<F: Filter>(input: &mut ByteSource, filter: &F, state: &mut DecoderState) -> (r:
    RdbResult<Option<RdbValue>>)
    ensures
        steps(
            *old(input),
            *final(input),
            *final(state),
            r,
            step_at(
                old(input).bytes(),
                Place { offset: old(input).offset(), state: *old(state) },
                *filter,
            ),
        ),
{
    match input.read_u8() {
        Ok(next_op) => process_operation(input, filter, state, next_op),
        Err(_) => {
            state.reached_eof = true;
            state.last_expiretime = None;
            Ok(Some(RdbValue::Checksum(Vec::new())))
        },
    }
}

/// Decodes until a record is complete and returns it: the op-codes that
/// yield nothing, and the key/value pairs that the filter rejects, are
/// handled on the way.
pub fn process_next_operation<F: Filter>(
    input: &mut ByteSource,
    filter: &F,
    state: &mut DecoderState,
) -> (r: RdbResult<RdbValue>)
    ensures
        advances(
            *old(input),
            *final(input),
            *final(state),
            r,
            advance_at(
                old(input).bytes(),
                Place { offset: old(input).offset(), state: *old(state) },
                *filter,
            ),
        ),
{
    loop
        invariant
            input.bytes() == old(input).bytes(),
            advance_at(
                old(input).bytes(),
                Place { offset: old(input).offset(), state: *old(state) },
                *filter,
            ) == advance_at(input.bytes(), Place { offset: input.offset(), state: *state }, *filter),
        decreases input.bytes().len() - input.offset(),
    {
        proof {
            lemma_pass_moves_on(
                input.bytes(),
                Place { offset: input.offset(), state: *state },
                *filter,
            );
        }
        match process_step(input, filter, state) {
            Ok(Some(value)) => {
                return Ok(value);
            },
            Ok(None) => {},
            Err(e) => {
                return Err(e);
            },
        }
    }
}

/// Header acceptance: bytes that start with the magic string and four
/// ASCII digits that give a supported version have a header, nine bytes
/// long, whatever follows them.
pub proof fn lemma_header_accepted(data: Seq<u8>)
    requires
        data.len() >= 9,
        data.subrange(0, 5) == constant::magic(),
        forall|i: int| 5 <= i < 9 ==> is_ascii_digit(#[trigger] data[i]),
        version::SUPPORTED_MINIMUM <= version_number(data.subrange(5, 9))
            <= version::SUPPORTED_MAXIMUM,
    ensures
        header_at(data, 0) == Ok::<((), int), RdbError>(((), 9)),
{
    let digits = data.subrange(5, 9);
    assert(digits[0] == data[5]);
    assert(digits[1] == data[6]);
    assert(digits[2] == data[7]);
    assert(digits[3] == data[8]);
}

} // verus!
