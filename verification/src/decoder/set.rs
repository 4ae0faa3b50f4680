//! Sets: a plain sequence of byte strings, an intset or a listpack.

use vstd::prelude::*;
use vstd::slice::slice_to_vec;

use crate::decoder::common::entries::{intset_items, read_intset, read_listpack};
use crate::decoder::common::utils::{blob_at, read_blob, read_sequence, sequence_at};
use crate::decoder::list::listpack_blob_at;
use crate::source::{reads, ByteSource};
use crate::types::{RdbError, RdbResult, RdbValue, Record};

verus! {

/// The set record with the given key and expiry whose members are `items`,
/// in the order in which the snapshot stores them.
pub open spec fn set_of(
    key: Seq<u8>,
    expiry: Option<u64>,
    items: Result<(Seq<Seq<u8>>, int), RdbError>,
) -> Result<(Record, int), RdbError> {
    match items {
        Err(e) => Err(e),
        Ok((members, next)) => Ok((Record::PlainSet { key, members, expiry }, next)),
    }
}

/// The members of the intset that is stored as one byte string at `pos`.
pub open spec fn intset_blob_at(data: Seq<u8>, pos: int) -> Result<(Seq<Seq<u8>>, int), RdbError> {
    match blob_at(data, pos) {
        Err(e) => Err(e),
        Ok((blob, next)) => match intset_items(blob) {
            Err(e) => Err(e),
            Ok(items) => Ok((items, next)),
        },
    }
}

/// Reads a set stored as a length and that many byte strings.
pub fn read_set(input: &mut ByteSource, key: &[u8], expiry: Option<u64>) -> (r: RdbResult<
    RdbValue,
>)
    ensures
        reads(
            *old(input),
            *final(input),
            r,
            set_of(key@, expiry, sequence_at(old(input).bytes(), old(input).offset())),
        ),
{
    let members: Vec<Vec<u8>> = read_sequence(input)?;
    Ok(RdbValue::PlainSet { key: slice_to_vec(key), members, expiry })
}

/// Reads a set of integers stored as one intset; the members come out as
/// decimal text, in the order of the intset.
pub fn read_set_intset(input: &mut ByteSource, key: &[u8], expiry: Option<u64>) -> (r: RdbResult<
    RdbValue,
>)
    ensures
        reads(
            *old(input),
            *final(input),
            r,
            set_of(key@, expiry, intset_blob_at(old(input).bytes(), old(input).offset())),
        ),
{
    let intset: Vec<u8> = read_blob(input)?;
    let members: Vec<Vec<u8>> = read_intset(intset)?;
    Ok(RdbValue::PlainSet { key: slice_to_vec(key), members, expiry })
}

/// Reads a set stored as one listpack.
pub fn read_set_list_pack(input: &mut ByteSource, key: &[u8], expiry: Option<u64>) -> (r:
    RdbResult<RdbValue>)
    ensures
        reads(
            *old(input),
            *final(input),
            r,
            set_of(key@, expiry, listpack_blob_at(old(input).bytes(), old(input).offset())),
        ),
{
    let listpack: Vec<u8> = read_blob(input)?;
    let members: Vec<Vec<u8>> = read_listpack(listpack)?;
    Ok(RdbValue::PlainSet { key: slice_to_vec(key), members, expiry })
}

} // verus!
