//! Runs of entries: what the list-like layouts have in common.
//!
//! Every layout stores its elements one after the other; the layouts differ
//! in how one element is stored. `entries_at` is the run of `count` elements
//! of one kind, and the packed containers are a header, such a run and the
//! closing byte.

use vstd::prelude::*;

use crate::decoder::common::listpack::{
    list_pack_entry_at, list_pack_length_at, read_list_pack_entry_as_string,
    read_list_pack_length,
};
use crate::decoder::common::utils::{blob_at, integer_text_at, read_blob};
use crate::decoder::common::ziplist::{
    read_ziplist_entry_string, read_ziplist_metadata, ziplist_entry_string_at,
    ziplist_metadata_at,
};
use crate::fields::put_field;
use crate::numbers::{decimal_bytes, decimal_text, signed};
use crate::source::{byte_strings, reads, reads_list, u32_le_at, unsigned_le, ByteSource};
use crate::types::{Container, Defect, RdbError, RdbResult, ScoreView};

verus! {

/// How one element of a run is stored.
#[derive(Debug, Clone, Copy, PartialEq, Eq, Structural)]
pub enum EntryKind {
    /// A length-prefixed byte string.
    Blob,
    /// A ziplist entry.
    Ziplist,
    /// A listpack entry.
    Listpack,
    /// A signed integer of 2 bytes, least significant byte first.
    Int16,
    /// A signed integer of 4 bytes, least significant byte first.
    Int32,
    /// A signed integer of 8 bytes, least significant byte first.
    Int64,
}

/// The element that stands at `pos`, as a byte string.
pub open spec fn entry_at(kind: EntryKind, data: Seq<u8>, pos: int) -> Result<
    (Seq<u8>, int),
    RdbError,
> {
    match kind {
        EntryKind::Blob => blob_at(data, pos),
        EntryKind::Ziplist => ziplist_entry_string_at(data, pos),
        EntryKind::Listpack => list_pack_entry_at(data, pos),
        EntryKind::Int16 => integer_text_at(data, pos, 2),
        EntryKind::Int32 => integer_text_at(data, pos, 4),
        EntryKind::Int64 => integer_text_at(data, pos, 8),
    }
}

/// The `count` elements that stand one after the other from `pos` on, in
/// the order of the bytes. If one of them cannot be read, the run fails
/// with the error of the first that cannot.
pub open spec fn entries_at(kind: EntryKind, data: Seq<u8>, pos: int, count: nat) -> Result<
    (Seq<Seq<u8>>, int),
    RdbError,
>
    decreases count,
{
    if count == 0 {
        Ok((Seq::empty(), pos))
    } else {
        match entries_at(kind, data, pos, (count - 1) as nat) {
            Err(e) => Err(e),
            Ok((items, next)) => match entry_at(kind, data, next) {
                Err(e) => Err(e),
                Ok((item, after)) => Ok((items.push(item), after)),
            },
        }
    }
}

/// Once an element of the run cannot be read, no longer run can be read
/// either: it fails with the same error.
pub proof fn lemma_entries_fail_on(
    kind: EntryKind,
    data: Seq<u8>,
    pos: int,
    failed: nat,
    count: nat,
)
    requires
        entries_at(kind, data, pos, failed) is Err,
        failed <= count,
    ensures
        entries_at(kind, data, pos, count) == entries_at(kind, data, pos, failed),
    decreases count,
{
    if failed < count {
        lemma_entries_fail_on(kind, data, pos, failed, (count - 1) as nat);
    }
}

/// The fields of a hash whose field names and values alternate in `items`:
/// each pair is set in turn, so that of two pairs with one field name the
/// first keeps its place and the second gives the value.
pub open spec fn fields_of(items: Seq<Seq<u8>>) -> Seq<(Seq<u8>, Seq<u8>)>
    decreases items.len(),
{
    if items.len() < 2 {
        Seq::empty()
    } else {
        put_field(
            fields_of(items.subrange(0, items.len() - 2)),
            items[items.len() - 2],
            items[items.len() - 1],
        )
    }
}

/// The entries of a sorted set whose members and score texts alternate in
/// `items`, in the order of the pairs: each score is kept as its text.
pub open spec fn scored_of(items: Seq<Seq<u8>>) -> Seq<(ScoreView, Seq<u8>)>
    decreases items.len(),
{
    if items.len() < 2 {
        Seq::empty()
    } else {
        scored_of(items.subrange(0, items.len() - 2)).push(
            (ScoreView::Text(items[items.len() - 1]), items[items.len() - 2]),
        )
    }
}

/// What a function gives that decodes a whole container to a list of byte
/// strings: the list that the format defines, or its error.
pub open spec fn gives_list(
    result: RdbResult<Vec<Vec<u8>>>,
    expected: Result<Seq<Seq<u8>>, RdbError>,
) -> bool {
    match expected {
        Ok(items) => result is Ok && byte_strings(result->Ok_0@) == items,
        Err(e) => result == Err::<Vec<Vec<u8>>, RdbError>(e),
    }
}

/// The error of a container in which the closing byte is missing.
pub open spec fn missing_terminator(context: Container) -> RdbError {
    RdbError::CorruptPayload { context, detail: Defect::MissingTerminator }
}

/// The error of a container of pairs with an odd number of elements.
pub open spec fn odd_count(context: Container, count: u16) -> RdbError {
    RdbError::CorruptPayload { context, detail: Defect::OddElementCount(count) }
}

/// Whether the closing byte `0xFF` stands at `pos`.
pub open spec fn terminated_at(data: Seq<u8>, pos: int) -> bool {
    0 <= pos < data.len() && data[pos] == 0xFF
}

/// The elements of the ziplist that fills `blob`: the header, as many
/// entries as the header counts, and the closing byte. Where the ziplist
/// holds pairs (`paired`), an odd count is refused before any entry is read.
pub open spec fn ziplist_items(blob: Seq<u8>, paired: bool) -> Result<Seq<Seq<u8>>, RdbError> {
    match ziplist_metadata_at(blob, 0) {
        Err(e) => Err(e),
        Ok(((_, _, count), start)) => if paired && count % 2 == 1 {
            Err(odd_count(Container::Ziplist, count))
        } else {
            match entries_at(EntryKind::Ziplist, blob, start, count as nat) {
                Err(e) => Err(e),
                Ok((items, end)) => if terminated_at(blob, end) {
                    Ok(items)
                } else {
                    Err(missing_terminator(Container::Ziplist))
                },
            }
        },
    }
}

/// The elements of the listpack that fills `blob`: the header, as many
/// entries as the header counts, and the closing byte. Where the listpack
/// holds pairs (`paired`), an odd count is refused before any entry is read.
pub open spec fn listpack_items(blob: Seq<u8>, paired: bool) -> Result<Seq<Seq<u8>>, RdbError> {
    match list_pack_length_at(blob, 0) {
        Err(e) => Err(e),
        Ok((count, start)) => if paired && count % 2 == 1 {
            Err(odd_count(Container::Listpack, count))
        } else {
            match entries_at(EntryKind::Listpack, blob, start, count as nat) {
                Err(e) => Err(e),
                Ok((items, end)) => if terminated_at(blob, end) {
                    Ok(items)
                } else {
                    Err(missing_terminator(Container::Listpack))
                },
            }
        },
    }
}

/// The kind of the elements of an intset with elements of `size` bytes, if
/// that is one of the three sizes an intset can have.
pub open spec fn intset_kind(size: u32) -> Option<EntryKind> {
    if size == 2 {
        Some(EntryKind::Int16)
    } else if size == 4 {
        Some(EntryKind::Int32)
    } else if size == 8 {
        Some(EntryKind::Int64)
    } else {
        None
    }
}

/// The members of the intset that fills `blob`, each as decimal text, in
/// the order in which the intset stores them: the element size and the
/// element count (32 bits each, least significant byte first), then the
/// elements.
pub open spec fn intset_items(blob: Seq<u8>) -> Result<Seq<Seq<u8>>, RdbError> {
    match u32_le_at(blob, 0) {
        Err(e) => Err(e),
        Ok((size, pos1)) => match u32_le_at(blob, pos1) {
            Err(e) => Err(e),
            Ok((count, start)) => match intset_kind(size) {
                None => Err(
                    RdbError::CorruptPayload {
                        context: Container::Intset,
                        detail: Defect::InvalidElementSize(size),
                    },
                ),
                Some(kind) => match entries_at(kind, blob, start, count as nat) {
                    Err(e) => Err(e),
                    Ok((items, _)) => Ok(items),
                },
            },
        },
    }
}

/// Reads one element of the given kind.
pub fn read_entry(input: &mut ByteSource, kind: EntryKind) -> (r: RdbResult<Vec<u8>>)
    ensures
        reads(
            *old(input),
            *final(input),
            r,
            entry_at(kind, old(input).bytes(), old(input).offset()),
        ),
{
    match kind {
        EntryKind::Blob => read_blob(input),
        EntryKind::Ziplist => read_ziplist_entry_string(input),
        EntryKind::Listpack => read_list_pack_entry_as_string(input),
        EntryKind::Int16 => {
            let value: i64 = input.read_i16_le()?;
            Ok(decimal_bytes(value))
        },
        EntryKind::Int32 => {
            let value: i64 = input.read_i32_le()?;
            Ok(decimal_bytes(value))
        },
        EntryKind::Int64 => {
            let value: i64 = input.read_i64_le()?;
            Ok(decimal_bytes(value))
        },
    }
}

/// Reads `count` elements of the given kind, one after the other.
pub fn read_entries(input: &mut ByteSource, kind: EntryKind, count: u32) -> (r: RdbResult<
    Vec<Vec<u8>>,
>)
    ensures
        reads_list(
            *old(input),
            *final(input),
            r,
            entries_at(kind, old(input).bytes(), old(input).offset(), count as nat),
        ),
{
    let ghost start: int = input.offset();
    let mut values: Vec<Vec<u8>> = Vec::new();
    let mut done: u32 = 0;
    proof {
        assert(byte_strings(values@) =~= Seq::<Seq<u8>>::empty());
    }
    while done < count
        invariant
            input.bytes() == old(input).bytes(),
            start == old(input).offset(),
            done <= count,
            entries_at(kind, input.bytes(), start, done as nat) == Ok::<
                (Seq<Seq<u8>>, int),
                RdbError,
            >((byte_strings(values@), input.offset())),
        decreases count - done,
    {
        let ghost before: Seq<Seq<u8>> = byte_strings(values@);
        match read_entry(input, kind) {
            Ok(value) => {
                values.push(value);
                proof {
                    assert(byte_strings(values@) =~= before.push(value@));
                }
            },
            Err(e) => {
                proof {
                    lemma_entries_fail_on(kind, input.bytes(), start, (done + 1) as nat, count as nat);
                }
                return Err(e);
            },
        }
        done = done + 1;
    }
    Ok(values)
}

/// Tests that the closing byte `0xFF` stands at the position of `input`,
/// and consumes the byte that stands there, if one does.
pub fn expect_terminator(input: &mut ByteSource, context: Container) -> (r: RdbResult<()>)
    ensures
        final(input).bytes() == old(input).bytes(),
        final(input).offset() == (if 0 <= old(input).offset() < old(input).bytes().len() {
            old(input).offset() + 1
        } else {
            old(input).offset()
        }),
        r == (if terminated_at(old(input).bytes(), old(input).offset()) {
            Ok::<(), RdbError>(())
        } else {
            Err::<(), RdbError>(missing_terminator(context))
        }),
{
    match input.read_u8() {
        Ok(last_byte) => {
            if last_byte == 0xFF {
                Ok(())
            } else {
                Err(RdbError::CorruptPayload { context, detail: Defect::MissingTerminator })
            }
        },
        Err(_) => Err(RdbError::CorruptPayload { context, detail: Defect::MissingTerminator }),
    }
}

/// Decodes the ziplist that fills `blob` to the list of its elements.
pub fn read_ziplist(blob: Vec<u8>) -> (r: RdbResult<Vec<Vec<u8>>>)
    ensures
        gives_list(r, ziplist_items(blob@, false)),
{
    let mut reader: ByteSource = ByteSource::new(blob);
    let (_zlbytes, _zltail, zllen) = read_ziplist_metadata(&mut reader)?;
    let values: Vec<Vec<u8>> = read_entries(&mut reader, EntryKind::Ziplist, zllen as u32)?;
    expect_terminator(&mut reader, Container::Ziplist)?;
    Ok(values)
}

/// Decodes the listpack that fills `blob` to the list of its elements.
pub fn read_listpack(blob: Vec<u8>) -> (r: RdbResult<Vec<Vec<u8>>>)
    ensures
        gives_list(r, listpack_items(blob@, false)),
{
    let mut reader: ByteSource = ByteSource::new(blob);
    let size: u16 = read_list_pack_length(&mut reader)?;
    let values: Vec<Vec<u8>> = read_entries(&mut reader, EntryKind::Listpack, size as u32)?;
    expect_terminator(&mut reader, Container::Listpack)?;
    Ok(values)
}

/// Decodes the intset that fills `blob` to the list of its members.
pub fn read_intset(blob: Vec<u8>) -> (r: RdbResult<Vec<Vec<u8>>>)
    ensures
        gives_list(r, intset_items(blob@)),
{
    let mut reader: ByteSource = ByteSource::new(blob);
    let byte_size: u32 = reader.read_u32_le()?;
    let intset_length: u32 = reader.read_u32_le()?;
    let kind: EntryKind = if byte_size == 2 {
        EntryKind::Int16
    } else if byte_size == 4 {
        EntryKind::Int32
    } else if byte_size == 8 {
        EntryKind::Int64
    } else {
        return Err(
            RdbError::CorruptPayload {
                context: Container::Intset,
                detail: Defect::InvalidElementSize(byte_size),
            },
        );
    };
    read_entries(&mut reader, kind, intset_length)
}

/// The closing byte of a ziplist. Where the header and the entries that
/// it counts can be read, the ziplist decodes if and only if the closing
/// byte `0xFF` stands behind the last entry; where another byte stands
/// there, or none, the payload is corrupt.
pub proof fn lemma_ziplist_terminator(blob: Seq<u8>, paired: bool)
    requires
        ziplist_metadata_at(blob, 0) is Ok,
        !(paired && ziplist_metadata_at(blob, 0)->Ok_0.0.2 % 2 == 1),
        entries_at(
            EntryKind::Ziplist,
            blob,
            ziplist_metadata_at(blob, 0)->Ok_0.1,
            ziplist_metadata_at(blob, 0)->Ok_0.0.2 as nat,
        ) is Ok,
    ensures
        ({
            let ((_, _, count), start) = ziplist_metadata_at(blob, 0)->Ok_0;
            let (items, end) = entries_at(EntryKind::Ziplist, blob, start, count as nat)->Ok_0;
            ziplist_items(blob, paired) == (if terminated_at(blob, end) {
                Ok::<Seq<Seq<u8>>, RdbError>(items)
            } else {
                Err::<Seq<Seq<u8>>, RdbError>(
                    RdbError::CorruptPayload {
                        context: Container::Ziplist,
                        detail: Defect::MissingTerminator,
                    },
                )
            })
        }),
{
}

/// The closing byte of a listpack. Where the header and the entries that
/// it counts can be read, the listpack decodes if and only if the closing
/// byte `0xFF` stands behind the last entry; where another byte stands
/// there, or none, the payload is corrupt.
pub proof fn lemma_listpack_terminator(blob: Seq<u8>, paired: bool)
    requires
        list_pack_length_at(blob, 0) is Ok,
        !(paired && list_pack_length_at(blob, 0)->Ok_0.0 % 2 == 1),
        entries_at(
            EntryKind::Listpack,
            blob,
            list_pack_length_at(blob, 0)->Ok_0.1,
            list_pack_length_at(blob, 0)->Ok_0.0 as nat,
        ) is Ok,
    ensures
        ({
            let (count, start) = list_pack_length_at(blob, 0)->Ok_0;
            let (items, end) = entries_at(EntryKind::Listpack, blob, start, count as nat)->Ok_0;
            listpack_items(blob, paired) == (if terminated_at(blob, end) {
                Ok::<Seq<Seq<u8>>, RdbError>(items)
            } else {
                Err::<Seq<Seq<u8>>, RdbError>(
                    RdbError::CorruptPayload {
                        context: Container::Listpack,
                        detail: Defect::MissingTerminator,
                    },
                )
            })
        }),
{
}

/// The width in bytes of the integers of an integer kind.
pub open spec fn integer_width(kind: EntryKind) -> nat {
    match kind {
        EntryKind::Int16 => 2,
        EntryKind::Int32 => 4,
        _ => 8,
    }
}

/// The integer of `width` bytes that is stored at `pos`, in two's
/// complement with the least significant byte first.
pub open spec fn integer_at(data: Seq<u8>, pos: int, width: nat) -> int {
    signed(unsigned_le(data.subrange(pos, pos + width)), width)
}

/// A run of integers decodes in the order of the bytes: the element at
/// `index` of the output is the decimal text of the integer at `index` of
/// the run.
pub proof fn lemma_integers_in_order(
    kind: EntryKind,
    data: Seq<u8>,
    pos: int,
    count: nat,
    index: int,
)
    requires
        kind == EntryKind::Int16 || kind == EntryKind::Int32 || kind == EntryKind::Int64,
        0 <= pos,
        entries_at(kind, data, pos, count) is Ok,
        0 <= index < count,
    ensures
        entries_at(kind, data, pos, count)->Ok_0.0.len() == count,
        entries_at(kind, data, pos, count)->Ok_0.1 == pos + count * integer_width(kind),
        entries_at(kind, data, pos, count)->Ok_0.0[index] == decimal_text(
            integer_at(data, pos + index * integer_width(kind), integer_width(kind)),
        ),
    decreases count,
{
    let width = integer_width(kind);
    let shorter = (count - 1) as nat;
    let (items, next) = entries_at(kind, data, pos, shorter)->Ok_0;
    assert(shorter * width + width == count * width) by (nonlinear_arith)
        requires
            shorter + 1 == count,
    ;
    if shorter > 0 {
        lemma_integers_in_order(kind, data, pos, shorter, if index < shorter {
            index
        } else {
            0
        });
    }
    assert(next == pos + shorter * width);
    let value = integer_at(data, next, width);
    assert(-0x8000_0000_0000_0000 <= value < 0x8000_0000_0000_0000);
}

/// Intset ordering: the members of an intset come out in the order in
/// which the intset stores them. The member at `index` is the decimal
/// text of the integer at `index` behind the header of eight bytes.
pub proof fn lemma_intset_order(blob: Seq<u8>, index: int)
    requires
        intset_items(blob) is Ok,
        0 <= index < u32_le_at(blob, 4)->Ok_0.0,
    ensures
        ({
            let size = u32_le_at(blob, 0)->Ok_0.0;
            let count = u32_le_at(blob, 4)->Ok_0.0;
            let items = intset_items(blob)->Ok_0;
            items.len() == count && items[index] == decimal_text(
                integer_at(blob, 8 + index * size, size as nat),
            )
        }),
{
    let size = u32_le_at(blob, 0)->Ok_0.0;
    let count = u32_le_at(blob, 4)->Ok_0.0;
    let kind = intset_kind(size)->Some_0;
    lemma_integers_in_order(kind, blob, 8, count as nat, index);
}

} // verus!
