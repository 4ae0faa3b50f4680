//! Lists: a plain sequence of byte strings, one ziplist, or a quicklist of
//! packed nodes.

use vstd::prelude::*;
use vstd::slice::slice_to_vec;

use crate::decoder::common::entries::{
    listpack_items, read_listpack, read_ziplist, ziplist_items,
};
use crate::decoder::common::utils::{
    blob_at, plain_length_at, read_blob, read_length, read_sequence, sequence_at,
};
use crate::source::{byte_strings, reads, reads_list, ByteSource};
use crate::types::{Container, Defect, RdbError, RdbResult, RdbValue, Record};

verus! {

/// The list record with the given key and expiry whose values are `items`.
pub open spec fn list_of(
    key: Seq<u8>,
    expiry: Option<u64>,
    items: Result<(Seq<Seq<u8>>, int), RdbError>,
) -> Result<(Record, int), RdbError> {
    match items {
        Err(e) => Err(e),
        Ok((values, next)) => Ok((Record::List { key, values, expiry }, next)),
    }
}

/// The elements of the ziplist that is stored as one byte string at `pos`.
pub open spec fn ziplist_blob_at(data: Seq<u8>, pos: int) -> Result<(Seq<Seq<u8>>, int), RdbError> {
    match blob_at(data, pos) {
        Err(e) => Err(e),
        Ok((blob, next)) => match ziplist_items(blob, false) {
            Err(e) => Err(e),
            Ok(items) => Ok((items, next)),
        },
    }
}

/// The elements of the listpack that is stored as one byte string at `pos`.
pub open spec fn listpack_blob_at(data: Seq<u8>, pos: int) -> Result<
    (Seq<Seq<u8>>, int),
    RdbError,
> {
    match blob_at(data, pos) {
        Err(e) => Err(e),
        Ok((blob, next)) => match listpack_items(blob, false) {
            Err(e) => Err(e),
            Ok(items) => Ok((items, next)),
        },
    }
}

/// The elements of the quicklist node at `pos`. A node of the first layout
/// is a ziplist. A node of the second layout (`tagged`) starts with a
/// container tag: 1 for one plain byte string, 2 for a listpack.
pub open spec fn quicklist_node_at(tagged: bool, data: Seq<u8>, pos: int) -> Result<
    (Seq<Seq<u8>>, int),
    RdbError,
> {
    if !tagged {
        ziplist_blob_at(data, pos)
    } else {
        match plain_length_at(data, pos) {
            Err(e) => Err(e),
            Ok((container, next)) => if container == 1 {
                match blob_at(data, next) {
                    Err(e) => Err(e),
                    Ok((entry, after)) => Ok((seq![entry], after)),
                }
            } else if container == 2 {
                listpack_blob_at(data, next)
            } else {
                Err(
                    RdbError::CorruptPayload {
                        context: Container::Quicklist,
                        detail: Defect::UnknownNodeContainer(container),
                    },
                )
            },
        }
    }
}

/// The elements of `count` quicklist nodes from `pos` on, in the order of
/// the nodes and, in a node, of its elements.
pub open spec fn quicklist_nodes_at(tagged: bool, data: Seq<u8>, pos: int, count: nat) -> Result<
    (Seq<Seq<u8>>, int),
    RdbError,
>
    decreases count,
{
    if count == 0 {
        Ok((Seq::empty(), pos))
    } else {
        match quicklist_nodes_at(tagged, data, pos, (count - 1) as nat) {
            Err(e) => Err(e),
            Ok((items, next)) => match quicklist_node_at(tagged, data, next) {
                Err(e) => Err(e),
                Ok((node, after)) => Ok((items + node, after)),
            },
        }
    }
}

/// The elements of the quicklist at `pos`: a node count, then the nodes.
pub open spec fn quicklist_at(tagged: bool, data: Seq<u8>, pos: int) -> Result<
    (Seq<Seq<u8>>, int),
    RdbError,
> {
    match plain_length_at(data, pos) {
        Err(e) => Err(e),
        Ok((count, next)) => quicklist_nodes_at(tagged, data, next, count as nat),
    }
}

/// Once a node cannot be read, no longer run of nodes can be read either:
/// it fails with the same error.
pub proof fn lemma_quicklist_fails_on(tagged: bool, data: Seq<u8>, pos: int, failed: nat, count: nat)
    requires
        quicklist_nodes_at(tagged, data, pos, failed) is Err,
        failed <= count,
    ensures
        quicklist_nodes_at(tagged, data, pos, count) == quicklist_nodes_at(
            tagged,
            data,
            pos,
            failed,
        ),
    decreases count,
{
    if failed < count {
        lemma_quicklist_fails_on(tagged, data, pos, failed, (count - 1) as nat);
    }
}

/// Reads a list stored as a length and that many byte strings.
pub fn read_linked_list(input: &mut ByteSource, key: &[u8], expiry: Option<u64>) -> (r: RdbResult<
    RdbValue,
>)
    ensures
        reads(
            *old(input),
            *final(input),
            r,
            list_of(key@, expiry, sequence_at(old(input).bytes(), old(input).offset())),
        ),
{
    let values: Vec<Vec<u8>> = read_sequence(input)?;
    Ok(RdbValue::List { key: slice_to_vec(key), values, expiry })
}

/// Reads a list stored as one ziplist.
pub fn read_list_ziplist(input: &mut ByteSource, key: &[u8], expiry: Option<u64>) -> (r:
    RdbResult<RdbValue>)
    ensures
        reads(
            *old(input),
            *final(input),
            r,
            list_of(key@, expiry, ziplist_blob_at(old(input).bytes(), old(input).offset())),
        ),
{
    let values: Vec<Vec<u8>> = read_quicklist_ziplist(input, key)?;
    Ok(RdbValue::List { key: slice_to_vec(key), values, expiry })
}

/// Reads a list stored as a quicklist of ziplists.
pub fn read_quicklist(input: &mut ByteSource, key: &[u8], expiry: Option<u64>) -> (r: RdbResult<
    RdbValue,
>)
    ensures
        reads(
            *old(input),
            *final(input),
            r,
            list_of(key@, expiry, quicklist_at(false, old(input).bytes(), old(input).offset())),
        ),
{
    let len: u32 = read_length(input)?;
    let ghost start: int = input.offset();
    let mut values: Vec<Vec<u8>> = Vec::new();
    let mut done: u32 = 0;
    proof {
        assert(byte_strings(values@) =~= Seq::<Seq<u8>>::empty());
    }
    while done < len
        invariant
            input.bytes() == old(input).bytes(),
            plain_length_at(old(input).bytes(), old(input).offset()) == Ok::<(u32, int), RdbError>(
                (len, start),
            ),
            done <= len,
            quicklist_nodes_at(false, input.bytes(), start, done as nat) == Ok::<
                (Seq<Seq<u8>>, int),
                RdbError,
            >((byte_strings(values@), input.offset())),
        decreases len - done,
    {
        let ghost before: Seq<Seq<u8>> = byte_strings(values@);
        match read_quicklist_ziplist(input, key) {
            Ok(mut ziplist_values) => {
                let ghost node: Seq<Seq<u8>> = byte_strings(ziplist_values@);
                values.append(&mut ziplist_values);
                proof {
                    assert(byte_strings(values@) =~= before + node);
                }
            },
            Err(e) => {
                proof {
                    lemma_quicklist_fails_on(
                        false,
                        input.bytes(),
                        start,
                        (done + 1) as nat,
                        len as nat,
                    );
                }
                return Err(e);
            },
        }
        done = done + 1;
    }
    Ok(RdbValue::List { key: slice_to_vec(key), values, expiry })
}

/// Reads a list stored as a quicklist whose nodes carry a container tag.
pub fn read_quicklist_2(input: &mut ByteSource, key: &[u8], expiry: Option<u64>) -> (r: RdbResult<
    RdbValue,
>)
    ensures
        reads(
            *old(input),
            *final(input),
            r,
            list_of(key@, expiry, quicklist_at(true, old(input).bytes(), old(input).offset())),
        ),
{
    let len: u32 = read_length(input)?;
    let ghost start: int = input.offset();
    let mut values: Vec<Vec<u8>> = Vec::new();
    let mut done: u32 = 0;
    proof {
        assert(byte_strings(values@) =~= Seq::<Seq<u8>>::empty());
    }
    while done < len
        invariant
            input.bytes() == old(input).bytes(),
            plain_length_at(old(input).bytes(), old(input).offset()) == Ok::<(u32, int), RdbError>(
                (len, start),
            ),
            done <= len,
            quicklist_nodes_at(true, input.bytes(), start, done as nat) == Ok::<
                (Seq<Seq<u8>>, int),
                RdbError,
            >((byte_strings(values@), input.offset())),
        decreases len - done,
    {
        let ghost before: Seq<Seq<u8>> = byte_strings(values@);
        match read_quicklist_node(input) {
            Ok(mut node_values) => {
                let ghost node: Seq<Seq<u8>> = byte_strings(node_values@);
                values.append(&mut node_values);
                proof {
                    assert(byte_strings(values@) =~= before + node);
                }
            },
            Err(e) => {
                proof {
                    lemma_quicklist_fails_on(
                        true,
                        input.bytes(),
                        start,
                        (done + 1) as nat,
                        len as nat,
                    );
                }
                return Err(e);
            },
        }
        done = done + 1;
    }
    Ok(RdbValue::List { key: slice_to_vec(key), values, expiry })
}

/// Reads one node of a quicklist whose nodes carry a container tag.
fn read_quicklist_node(input: &mut ByteSource) -> (r: RdbResult<Vec<Vec<u8>>>)
    ensures
        reads_list(
            *old(input),
            *final(input),
            r,
            quicklist_node_at(true, old(input).bytes(), old(input).offset()),
        ),
{
    let container_type: u32 = read_length(input)?;
    if container_type == 1 {
        let entry: Vec<u8> = read_blob(input)?;
        let mut values: Vec<Vec<u8>> = Vec::new();
        values.push(entry);
        proof {
            assert(byte_strings(values@) =~= seq![entry@]);
        }
        Ok(values)
    } else if container_type == 2 {
        read_quicklist_listpack(input)
    } else {
        Err(
            RdbError::CorruptPayload {
                context: Container::Quicklist,
                detail: Defect::UnknownNodeContainer(container_type),
            },
        )
    }
}

/// Reads one ziplist, stored as a byte string, to the list of its elements.
fn read_quicklist_ziplist(input: &mut ByteSource, _key: &[u8]) -> (r: RdbResult<Vec<Vec<u8>>>)
    ensures
        reads_list(
            *old(input),
            *final(input),
            r,
            ziplist_blob_at(old(input).bytes(), old(input).offset()),
        ),
{
    let ziplist: Vec<u8> = read_blob(input)?;
    read_ziplist(ziplist)
}

/// Reads one listpack, stored as a byte string, to the list of its elements.
fn read_quicklist_listpack(input: &mut ByteSource) -> (r: RdbResult<Vec<Vec<u8>>>)
    ensures
        reads_list(
            *old(input),
            *final(input),
            r,
            listpack_blob_at(old(input).bytes(), old(input).offset()),
        ),
{
    let listpack: Vec<u8> = read_blob(input)?;
    read_listpack(listpack)
}

} // verus!
