//! Hashes: a plain sequence of pairs, a zipmap, a ziplist or a listpack.

use indexmap::IndexMap;
use vstd::prelude::*;
use vstd::slice::slice_to_vec;

use crate::decoder::common::entries::{
    entries_at, expect_terminator, fields_of, lemma_entries_fail_on, listpack_items,
    missing_terminator, read_entry, terminated_at, ziplist_items, EntryKind,
};
use crate::decoder::common::listpack::read_list_pack_length;
use crate::decoder::common::utils::{blob_at, plain_length_at, read_blob, read_exact, read_length};
use crate::decoder::common::ziplist::read_ziplist_metadata;
use crate::fields::{hash_entries, hash_insert, new_hash, put_field};
use crate::source::{byte_at, bytes_at, reads, u32_le_at, ByteSource};
use crate::types::{Container, Defect, RdbError, RdbResult, RdbValue, Record};

verus! {

/// The hash record with the given key and expiry whose field names and
/// values alternate in `items`.
pub open spec fn hash_of(
    key: Seq<u8>,
    expiry: Option<u64>,
    items: Result<(Seq<Seq<u8>>, int), RdbError>,
) -> Result<(Record, int), RdbError> {
    match items {
        Err(e) => Err(e),
        Ok((items, next)) => Ok((Record::Hash { key, values: fields_of(items), expiry }, next)),
    }
}

/// The hash record with the given key and expiry and the given fields.
pub open spec fn hash_with(
    key: Seq<u8>,
    expiry: Option<u64>,
    fields: Result<(Seq<(Seq<u8>, Seq<u8>)>, int), RdbError>,
) -> Result<(Record, int), RdbError> {
    match fields {
        Err(e) => Err(e),
        Ok((values, next)) => Ok((Record::Hash { key, values, expiry }, next)),
    }
}

/// The field names and values of the plain hash at `pos`: a number of
/// pairs, then for each pair two byte strings.
pub open spec fn hash_at(data: Seq<u8>, pos: int) -> Result<(Seq<Seq<u8>>, int), RdbError> {
    match plain_length_at(data, pos) {
        Err(e) => Err(e),
        Ok((pairs, next)) => entries_at(EntryKind::Blob, data, next, 2 * pairs as nat),
    }
}

/// The field names and values of the ziplist of pairs that is stored as
/// one byte string at `pos`.
pub open spec fn paired_ziplist_blob_at(data: Seq<u8>, pos: int) -> Result<
    (Seq<Seq<u8>>, int),
    RdbError,
> {
    match blob_at(data, pos) {
        Err(e) => Err(e),
        Ok((blob, next)) => match ziplist_items(blob, true) {
            Err(e) => Err(e),
            Ok(items) => Ok((items, next)),
        },
    }
}

/// The field names and values of the listpack of pairs that is stored as
/// one byte string at `pos`.
pub open spec fn paired_listpack_blob_at(data: Seq<u8>, pos: int) -> Result<
    (Seq<Seq<u8>>, int),
    RdbError,
> {
    match blob_at(data, pos) {
        Err(e) => Err(e),
        Ok((blob, next)) => match listpack_items(blob, true) {
            Err(e) => Err(e),
            Ok(items) => Ok((items, next)),
        },
    }
}

/// The zipmap element that the length byte `first` announces, with the
/// bytes behind it starting at `pos`: a length byte below 253 is the
/// length; 253 says that the length follows in 32 bits, least significant
/// byte first; 254 and 255 are invalid.
pub open spec fn zipmap_entry_at(data: Seq<u8>, pos: int, first: u8) -> Result<
    (Seq<u8>, int),
    RdbError,
> {
    if first == 253 {
        match u32_le_at(data, pos) {
            Err(e) => Err(e),
            Ok((len, next)) => bytes_at(data, next, len as int),
        }
    } else if first == 254 || first == 255 {
        Err(
            RdbError::CorruptPayload {
                context: Container::Zipmap,
                detail: Defect::InvalidLength(first),
            },
        )
    } else {
        bytes_at(data, pos, first as int)
    }
}

/// The pair of a zipmap whose field length byte `first` stood just before
/// `pos`: the field, the length byte of the value, one byte of free space
/// that is passed over, and the value.
pub open spec fn zipmap_pair_at(data: Seq<u8>, pos: int, first: u8) -> Result<
    ((Seq<u8>, Seq<u8>), int),
    RdbError,
> {
    match zipmap_entry_at(data, pos, first) {
        Err(e) => Err(e),
        Ok((field, pos1)) => match byte_at(data, pos1) {
            Err(e) => Err(e),
            Ok((value_len, pos2)) => match byte_at(data, pos2) {
                Err(e) => Err(e),
                Ok((_, pos3)) => match zipmap_entry_at(data, pos3, value_len) {
                    Err(e) => Err(e),
                    Ok((value, pos4)) => Ok(((field, value), pos4)),
                },
            },
        },
    }
}

/// The fields of a zipmap from `pos` on, added to those read so far
/// (`fields`). `expected` is the number of pairs that the zipmap still
/// announces, or -1 if it announces none.
///
/// The pairs run until the closing byte `0xFF` stands where a pair would
/// start. After the last announced pair the closing byte must follow. Where
/// the bytes end before the closing byte, it is missing.
pub open spec fn zipmap_fields_at(
    data: Seq<u8>,
    pos: int,
    expected: int,
    fields: Seq<(Seq<u8>, Seq<u8>)>,
) -> Result<Seq<(Seq<u8>, Seq<u8>)>, RdbError>
    decreases data.len() - pos,
{
    if !(0 <= pos < data.len()) {
        Err(missing_terminator(Container::Zipmap))
    } else if data[pos] == 0xFF {
        Ok(fields)
    } else {
        match zipmap_pair_at(data, pos + 1, data[pos]) {
            Err(e) => Err(e),
            Ok(((field, value), next)) => {
                let fields = put_field(fields, field, value);
                let expected = if expected > 0 {
                    expected - 1
                } else {
                    expected
                };
                if expected == 0 {
                    if terminated_at(data, next) {
                        Ok(fields)
                    } else {
                        Err(missing_terminator(Container::Zipmap))
                    }
                } else {
                    zipmap_fields_at(data, next, expected, fields)
                }
            },
        }
    }
}

/// The fields of the zipmap that fills `blob`: a count byte, where a count
/// above 254 announces no number of pairs, then the pairs.
pub open spec fn zipmap_fields(blob: Seq<u8>) -> Result<Seq<(Seq<u8>, Seq<u8>)>, RdbError> {
    match byte_at(blob, 0) {
        Err(e) => Err(e),
        Ok((zmlen, next)) => zipmap_fields_at(
            blob,
            next,
            if zmlen <= 254 {
                zmlen as int
            } else {
                -1
            },
            Seq::empty(),
        ),
    }
}

/// The fields of the zipmap that is stored as one byte string at `pos`.
pub open spec fn zipmap_blob_at(data: Seq<u8>, pos: int) -> Result<
    (Seq<(Seq<u8>, Seq<u8>)>, int),
    RdbError,
> {
    match blob_at(data, pos) {
        Err(e) => Err(e),
        Ok((blob, next)) => match zipmap_fields(blob) {
            Err(e) => Err(e),
            Ok(fields) => Ok((fields, next)),
        },
    }
}

/// A pair of a zipmap ends behind the position at which it starts.
pub proof fn lemma_zipmap_pair_advances(data: Seq<u8>, pos: int, first: u8)
    requires
        0 <= pos,
        zipmap_pair_at(data, pos, first) is Ok,
    ensures
        zipmap_pair_at(data, pos, first)->Ok_0.1 >= pos + 2,
{
}

/// What reading `pairs` pairs of elements into a hash does to the source
/// and what it returns: the hash of the elements that the format defines.
pub open spec fn reads_fields(
    before: ByteSource,
    after: ByteSource,
    result: RdbResult<IndexMap<Vec<u8>, Vec<u8>>>,
    expected: Result<(Seq<Seq<u8>>, int), RdbError>,
) -> bool {
    &&& after.bytes() == before.bytes()
    &&& match expected {
        Ok((items, next)) => result is Ok && hash_entries(result->Ok_0) == fields_of(items)
            && after.offset() == next,
        Err(e) => result == Err::<IndexMap<Vec<u8>, Vec<u8>>, RdbError>(e),
    }
}

/// Reads `pairs` pairs of a field name and a value, each an element of the
/// given kind, into a hash.
pub fn read_fields(input: &mut ByteSource, kind: EntryKind, pairs: u32) -> (r: RdbResult<
    IndexMap<Vec<u8>, Vec<u8>>,
>)
    ensures
        reads_fields(
            *old(input),
            *final(input),
            r,
            entries_at(kind, old(input).bytes(), old(input).offset(), 2 * pairs as nat),
        ),
{
    let ghost start: int = input.offset();
    let ghost mut items: Seq<Seq<u8>> = Seq::empty();
    let mut values: IndexMap<Vec<u8>, Vec<u8>> = new_hash();
    let mut done: u32 = 0;
    while done < pairs
        invariant
            input.bytes() == old(input).bytes(),
            start == old(input).offset(),
            done <= pairs,
            entries_at(kind, input.bytes(), start, 2 * done as nat) == Ok::<
                (Seq<Seq<u8>>, int),
                RdbError,
            >((items, input.offset())),
            hash_entries(values) == fields_of(items),
        decreases pairs - done,
    {
        let field: Vec<u8> = match read_entry(input, kind) {
            Ok(field) => field,
            Err(e) => {
                proof {
                    lemma_entries_fail_on(
                        kind,
                        input.bytes(),
                        start,
                        (2 * done + 1) as nat,
                        2 * pairs as nat,
                    );
                }
                return Err(e);
            },
        };
        let val: Vec<u8> = match read_entry(input, kind) {
            Ok(val) => val,
            Err(e) => {
                proof {
                    assert(entries_at(kind, input.bytes(), start, (2 * done + 1) as nat) is Ok);
                    lemma_entries_fail_on(
                        kind,
                        input.bytes(),
                        start,
                        (2 * done + 2) as nat,
                        2 * pairs as nat,
                    );
                }
                return Err(e);
            },
        };
        proof {
            let longer = items.push(field@).push(val@);
            assert(longer.subrange(0, longer.len() - 2) =~= items);
            assert(entries_at(kind, input.bytes(), start, (2 * done + 1) as nat) is Ok);
            items = longer;
        }
        hash_insert(&mut values, field, val);
        done = done + 1;
    }
    Ok(values)
}

/// Reads a hash stored as a number of pairs and, for each pair, two byte
/// strings.
pub fn read_hash(input: &mut ByteSource, key: &[u8], expiry: Option<u64>) -> (r: RdbResult<
    RdbValue,
>)
    ensures
        reads(
            *old(input),
            *final(input),
            r,
            hash_of(key@, expiry, hash_at(old(input).bytes(), old(input).offset())),
        ),
{
    let hash_items: u32 = read_length(input)?;
    let values: IndexMap<Vec<u8>, Vec<u8>> = read_fields(input, EntryKind::Blob, hash_items)?;
    Ok(RdbValue::Hash { key: slice_to_vec(key), values, expiry })
}

/// Reads a hash stored as one ziplist in which field names and values
/// alternate.
pub fn read_hash_ziplist(input: &mut ByteSource, key: &[u8], expiry: Option<u64>) -> (r:
    RdbResult<RdbValue>)
    ensures
        reads(
            *old(input),
            *final(input),
            r,
            hash_of(key@, expiry, paired_ziplist_blob_at(old(input).bytes(), old(input).offset())),
        ),
{
    let ziplist: Vec<u8> = read_blob(input)?;
    let mut reader: ByteSource = ByteSource::new(ziplist);
    let (_zlbytes, _zltail, zllen) = read_ziplist_metadata(&mut reader)?;
    if zllen % 2 == 1 {
        return Err(
            RdbError::CorruptPayload {
                context: Container::Ziplist,
                detail: Defect::OddElementCount(zllen),
            },
        );
    }
    let pairs: u16 = zllen / 2;
    let values: IndexMap<Vec<u8>, Vec<u8>> = read_fields(
        &mut reader,
        EntryKind::Ziplist,
        pairs as u32,
    )?;
    expect_terminator(&mut reader, Container::Ziplist)?;
    Ok(RdbValue::Hash { key: slice_to_vec(key), values, expiry })
}

/// Reads a hash stored as one zipmap.
pub fn read_hash_zipmap(input: &mut ByteSource, key: &[u8], expiry: Option<u64>) -> (r: RdbResult<
    RdbValue,
>)
    ensures
        reads(
            *old(input),
            *final(input),
            r,
            hash_with(key@, expiry, zipmap_blob_at(old(input).bytes(), old(input).offset())),
        ),
{
    let zipmap: Vec<u8> = read_blob(input)?;
    let values: IndexMap<Vec<u8>, Vec<u8>> = read_zipmap(zipmap)?;
    Ok(RdbValue::Hash { key: slice_to_vec(key), values, expiry })
}

/// What a function gives that decodes a whole container to a hash: the
/// fields that the format defines, or its error.
pub open spec fn gives_fields(
    result: RdbResult<IndexMap<Vec<u8>, Vec<u8>>>,
    expected: Result<Seq<(Seq<u8>, Seq<u8>)>, RdbError>,
) -> bool {
    match expected {
        Ok(fields) => result is Ok && hash_entries(result->Ok_0) == fields,
        Err(e) => result == Err::<IndexMap<Vec<u8>, Vec<u8>>, RdbError>(e),
    }
}

/// Decodes the zipmap that fills `blob` to a hash.
pub fn read_zipmap(blob: Vec<u8>) -> (r: RdbResult<IndexMap<Vec<u8>, Vec<u8>>>)
    ensures
        gives_fields(r, zipmap_fields(blob@)),
{
    let mut reader: ByteSource = ByteSource::new(blob);
    let zmlen: u8 = reader.read_u8()?;
    let mut length: i32 = if zmlen <= 254 {
        zmlen as i32
    } else {
        -1
    };
    let mut values: IndexMap<Vec<u8>, Vec<u8>> = new_hash();
    loop
        invariant_except_break
            -1 <= length <= 254,
            0 <= reader.offset(),
            zipmap_fields(blob@) == zipmap_fields_at(
                blob@,
                reader.offset(),
                length as int,
                hash_entries(values),
            ),
        invariant
            reader.bytes() == blob@,
        ensures
            zipmap_fields(blob@) == Ok::<Seq<(Seq<u8>, Seq<u8>)>, RdbError>(hash_entries(values)),
        decreases blob@.len() - reader.offset(),
    {
        let ghost at: int = reader.offset();
        let next_byte: u8 = match reader.read_u8() {
            Ok(b) => b,
            Err(_) => {
                return Err(
                    RdbError::CorruptPayload {
                        context: Container::Zipmap,
                        detail: Defect::MissingTerminator,
                    },
                );
            },
        };
        if next_byte == 0xFF {
            break ;
        }
        let (field, value) = match read_zipmap_pair(next_byte, &mut reader) {
            Ok(pair) => pair,
            Err(e) => {
                return Err(e);
            },
        };
        proof {
            lemma_zipmap_pair_advances(blob@, at + 1, next_byte);
        }
        hash_insert(&mut values, field, value);
        if length > 0 {
            length = length - 1;
        }
        if length == 0 {
            match expect_terminator(&mut reader, Container::Zipmap) {
                Ok(_) => {},
                Err(e) => {
                    return Err(e);
                },
            }
            break ;
        }
    }
    Ok(values)
}

/// Reads one pair of a zipmap whose field length byte, `first`, was read
/// already.
fn read_zipmap_pair(first: u8, zipmap: &mut ByteSource) -> (r: RdbResult<(Vec<u8>, Vec<u8>)>)
    ensures
        reads(
            *old(zipmap),
            *final(zipmap),
            r,
            zipmap_pair_at(old(zipmap).bytes(), old(zipmap).offset(), first),
        ),
{
    let field: Vec<u8> = read_zipmap_entry(first, zipmap)?;
    let next_byte: u8 = zipmap.read_u8()?;
    let _free: u8 = zipmap.read_u8()?;
    let value: Vec<u8> = read_zipmap_entry(next_byte, zipmap)?;
    Ok((field, value))
}

/// Reads one element of a zipmap whose length byte, `next_byte`, was read
/// already.
pub fn read_zipmap_entry(next_byte: u8, zipmap: &mut ByteSource) -> (r: RdbResult<Vec<u8>>)
    ensures
        reads(
            *old(zipmap),
            *final(zipmap),
            r,
            zipmap_entry_at(old(zipmap).bytes(), old(zipmap).offset(), next_byte),
        ),
{
    if next_byte == 253 {
        let elem_len: u32 = zipmap.read_u32_le()?;
        read_exact(zipmap, elem_len as usize)
    } else if next_byte == 254 || next_byte == 255 {
        Err(
            RdbError::CorruptPayload {
                context: Container::Zipmap,
                detail: Defect::InvalidLength(next_byte),
            },
        )
    } else {
        read_exact(zipmap, next_byte as usize)
    }
}

/// Reads a hash stored as one listpack in which field names and values
/// alternate.
pub fn read_hash_list_pack(input: &mut ByteSource, key: &[u8], expiry: Option<u64>) -> (r:
    RdbResult<RdbValue>)
    ensures
        reads(
            *old(input),
            *final(input),
            r,
            hash_of(key@, expiry, paired_listpack_blob_at(old(input).bytes(), old(input).offset())),
        ),
{
    let listpack: Vec<u8> = read_blob(input)?;
    let mut reader: ByteSource = ByteSource::new(listpack);
    let size: u16 = read_list_pack_length(&mut reader)?;
    if size % 2 == 1 {
        return Err(
            RdbError::CorruptPayload {
                context: Container::Listpack,
                detail: Defect::OddElementCount(size),
            },
        );
    }
    let pairs: u16 = size / 2;
    let values: IndexMap<Vec<u8>, Vec<u8>> = read_fields(
        &mut reader,
        EntryKind::Listpack,
        pairs as u32,
    )?;
    expect_terminator(&mut reader, Container::Listpack)?;
    Ok(RdbValue::Hash { key: slice_to_vec(key), values, expiry })
}

/// The closing byte of a zipmap. A zipmap decodes only if the closing
/// byte `0xFF` stands in it, at or behind the position from which its
/// pairs are read.
pub proof fn lemma_zipmap_terminator(
    data: Seq<u8>,
    pos: int,
    expected: int,
    fields: Seq<(Seq<u8>, Seq<u8>)>,
)
    requires
        zipmap_fields_at(data, pos, expected, fields) is Ok,
    ensures
        exists|p: int| pos <= p < data.len() && data[p] == 0xFF,
    decreases data.len() - pos,
{
    if data[pos] == 0xFF {
        assert(pos <= pos < data.len() && data[pos] == 0xFF);
    } else {
        let ((field, value), next) = zipmap_pair_at(data, pos + 1, data[pos])->Ok_0;
        lemma_zipmap_pair_advances(data, pos + 1, data[pos]);
        let left = if expected > 0 {
            expected - 1
        } else {
            expected
        };
        if left == 0 {
            assert(pos <= next < data.len() && data[next] == 0xFF);
        } else {
            lemma_zipmap_terminator(data, next, left, put_field(fields, field, value));
            let p = choose|p: int| next <= p < data.len() && data[p] == 0xFF;
            assert(pos <= p < data.len() && data[p] == 0xFF);
        }
    }
}

/// Where the bytes of a zipmap end in place of a pair or of the closing
/// byte, the payload is corrupt: the closing byte is missing.
pub proof fn lemma_zipmap_cut_short(
    data: Seq<u8>,
    pos: int,
    expected: int,
    fields: Seq<(Seq<u8>, Seq<u8>)>,
)
    requires
        pos >= data.len(),
    ensures
        zipmap_fields_at(data, pos, expected, fields) == Err::<
            Seq<(Seq<u8>, Seq<u8>)>,
            RdbError,
        >(RdbError::CorruptPayload { context: Container::Zipmap, detail: Defect::MissingTerminator }),
{
}

} // verus!
