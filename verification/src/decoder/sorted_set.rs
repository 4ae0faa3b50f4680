//! Sorted sets: a plain sequence of members with their scores, a ziplist
//! or a listpack.
//!
//! A score is a binary64 number. The readers carry it as the snapshot
//! stores it and compute nothing on it: see [`Score`].

use vstd::prelude::*;
use vstd::slice::slice_to_vec;

use crate::decoder::common::entries::{
    entries_at, expect_terminator, lemma_entries_fail_on, read_entry, scored_of, EntryKind,
};
use crate::decoder::common::listpack::read_list_pack_length;
use crate::decoder::common::utils::{blob_at, plain_length_at, read_blob, read_exact, read_length};
use crate::decoder::common::ziplist::read_ziplist_metadata;
use crate::decoder::hash::{paired_listpack_blob_at, paired_ziplist_blob_at};
use crate::source::{byte_at, bytes_at, reads, u64_le_at, ByteSource};
use crate::types::{
    lemma_scored_view_push, scored_view, Container, Defect, RdbError, RdbResult, RdbValue, Record, Score, ScoreView,
};

verus! {

/// The sorted-set record with the given key and expiry and the given
/// entries, each a score and a member.
pub open spec fn sorted_set_with(
    key: Seq<u8>,
    expiry: Option<u64>,
    entries: Result<(Seq<(ScoreView, Seq<u8>)>, int), RdbError>,
) -> Result<(Record, int), RdbError> {
    match entries {
        Err(e) => Err(e),
        Ok((values, next)) => Ok((Record::SortedSet { key, values, expiry }, next)),
    }
}

/// The sorted-set record with the given key and expiry whose members and
/// score texts alternate in `items`.
pub open spec fn sorted_set_of(
    key: Seq<u8>,
    expiry: Option<u64>,
    items: Result<(Seq<Seq<u8>>, int), RdbError>,
) -> Result<(Record, int), RdbError> {
    match items {
        Err(e) => Err(e),
        Ok((items, next)) => Ok(
            (Record::SortedSet { key, values: scored_of(items), expiry }, next),
        ),
    }
}

/// The score that stands at `pos`.
///
/// In the newer layout (`binary`) a score is the eight bytes of its bit
/// pattern, least significant byte first. In the older one it is a length
/// byte and that many bytes of decimal text, where the length bytes 253,
/// 254 and 255 stand for not-a-number, positive infinity and negative
/// infinity and no text follows them.
pub open spec fn score_at(binary: bool, data: Seq<u8>, pos: int) -> Result<
    (ScoreView, int),
    RdbError,
> {
    if binary {
        match u64_le_at(data, pos) {
            Err(e) => Err(e),
            Ok((bits, next)) => Ok((ScoreView::Bits(bits), next)),
        }
    } else {
        match byte_at(data, pos) {
            Err(e) => Err(e),
            Ok((score_length, next)) => if score_length == 253 {
                Ok((ScoreView::NotANumber, next))
            } else if score_length == 254 {
                Ok((ScoreView::PositiveInfinity, next))
            } else if score_length == 255 {
                Ok((ScoreView::NegativeInfinity, next))
            } else {
                match bytes_at(data, next, score_length as int) {
                    Err(e) => Err(e),
                    Ok((text, after)) => Ok((ScoreView::Text(text), after)),
                }
            },
        }
    }
}

/// The entry of a plain sorted set at `pos`: the member, a byte string,
/// then its score.
pub open spec fn scored_entry_at(binary: bool, data: Seq<u8>, pos: int) -> Result<
    ((ScoreView, Seq<u8>), int),
    RdbError,
> {
    match blob_at(data, pos) {
        Err(e) => Err(e),
        Ok((member, next)) => match score_at(binary, data, next) {
            Err(e) => Err(e),
            Ok((score, after)) => Ok(((score, member), after)),
        },
    }
}

/// The `count` entries of a plain sorted set from `pos` on, in the order
/// of the bytes.
pub open spec fn scored_entries_at(binary: bool, data: Seq<u8>, pos: int, count: nat) -> Result<
    (Seq<(ScoreView, Seq<u8>)>, int),
    RdbError,
>
    decreases count,
{
    if count == 0 {
        Ok((Seq::empty(), pos))
    } else {
        match scored_entries_at(binary, data, pos, (count - 1) as nat) {
            Err(e) => Err(e),
            Ok((entries, next)) => match scored_entry_at(binary, data, next) {
                Err(e) => Err(e),
                Ok((entry, after)) => Ok((entries.push(entry), after)),
            },
        }
    }
}

/// The entries of the plain sorted set at `pos`: a count, then the entries.
pub open spec fn sorted_set_at(binary: bool, data: Seq<u8>, pos: int) -> Result<
    (Seq<(ScoreView, Seq<u8>)>, int),
    RdbError,
> {
    match plain_length_at(data, pos) {
        Err(e) => Err(e),
        Ok((count, next)) => scored_entries_at(binary, data, next, count as nat),
    }
}

/// Once an entry cannot be read, no longer run of entries can be read
/// either: it fails with the same error.
pub proof fn lemma_scored_fails_on(binary: bool, data: Seq<u8>, pos: int, failed: nat, count: nat)
    requires
        scored_entries_at(binary, data, pos, failed) is Err,
        failed <= count,
    ensures
        scored_entries_at(binary, data, pos, count) == scored_entries_at(
            binary,
            data,
            pos,
            failed,
        ),
    decreases count,
{
    if failed < count {
        lemma_scored_fails_on(binary, data, pos, failed, (count - 1) as nat);
    }
}

/// Reads one score of a plain sorted set.
pub fn read_score(input: &mut ByteSource, is_zset2: bool) -> (r: RdbResult<Score>)
    ensures
        reads(
            *old(input),
            *final(input),
            r,
            score_at(is_zset2, old(input).bytes(), old(input).offset()),
        ),
{
    if is_zset2 {
        let bits: u64 = input.read_u64_le()?;
        Ok(Score::Bits(bits))
    } else {
        let score_length: u8 = input.read_u8()?;
        if score_length == 253 {
            Ok(Score::NotANumber)
        } else if score_length == 254 {
            Ok(Score::PositiveInfinity)
        } else if score_length == 255 {
            Ok(Score::NegativeInfinity)
        } else {
            let tmp: Vec<u8> = read_exact(input, score_length as usize)?;
            Ok(Score::Text(tmp))
        }
    }
}

/// Reads one entry of a plain sorted set: the member, then its score.
fn read_scored_entry(input: &mut ByteSource, is_zset2: bool) -> (r: RdbResult<(Score, Vec<u8>)>)
    ensures
        reads(
            *old(input),
            *final(input),
            r,
            scored_entry_at(is_zset2, old(input).bytes(), old(input).offset()),
        ),
{
    let val: Vec<u8> = read_blob(input)?;
    let score: Score = read_score(input, is_zset2)?;
    Ok((score, val))
}

/// Reads a sorted set stored as a count and that many members, each
/// followed by its score.
pub fn read_sorted_set(
    input: &mut ByteSource,
    key: &[u8],
    expiry: Option<u64>,
    is_zset2: bool,
) -> (r: RdbResult<RdbValue>)
    ensures
        reads(
            *old(input),
            *final(input),
            r,
            sorted_set_with(
                key@,
                expiry,
                sorted_set_at(is_zset2, old(input).bytes(), old(input).offset()),
            ),
        ),
{
    let set_items: u32 = read_length(input)?;
    let ghost start: int = input.offset();
    let mut values: Vec<(Score, Vec<u8>)> = Vec::new();
    let mut done: u32 = 0;
    proof {
        assert(scored_view(values@) =~= Seq::<(ScoreView, Seq<u8>)>::empty());
    }
    while done < set_items
        invariant
            input.bytes() == old(input).bytes(),
            plain_length_at(old(input).bytes(), old(input).offset()) == Ok::<(u32, int), RdbError>(
                (set_items, start),
            ),
            done <= set_items,
            scored_entries_at(is_zset2, input.bytes(), start, done as nat) == Ok::<
                (Seq<(ScoreView, Seq<u8>)>, int),
                RdbError,
            >((scored_view(values@), input.offset())),
        decreases set_items - done,
    {
        match read_scored_entry(input, is_zset2) {
            Ok(entry) => {
                proof {
                    lemma_scored_view_push(values@, entry);
                }
                values.push(entry);
            },
            Err(e) => {
                proof {
                    lemma_scored_fails_on(
                        is_zset2,
                        input.bytes(),
                        start,
                        (done + 1) as nat,
                        set_items as nat,
                    );
                }
                return Err(e);
            },
        }
        done = done + 1;
    }
    Ok(RdbValue::SortedSet { key: slice_to_vec(key), values, expiry })
}

/// What reading `pairs` pairs of a member and a score text does to the
/// source and what it returns: the entries that the format defines.
pub open spec fn reads_scored(
    before: ByteSource,
    after: ByteSource,
    result: RdbResult<Vec<(Score, Vec<u8>)>>,
    expected: Result<(Seq<Seq<u8>>, int), RdbError>,
) -> bool {
    &&& after.bytes() == before.bytes()
    &&& match expected {
        Ok((items, next)) => result is Ok && scored_view(result->Ok_0@) == scored_of(items)
            && after.offset() == next,
        Err(e) => result == Err::<Vec<(Score, Vec<u8>)>, RdbError>(e),
    }
}

/// Reads `pairs` pairs of a member and the text of its score, each an
/// element of the given kind.
pub fn read_scored(input: &mut ByteSource, kind: EntryKind, pairs: u32) -> (r: RdbResult<
    Vec<(Score, Vec<u8>)>,
>)
    ensures
        reads_scored(
            *old(input),
            *final(input),
            r,
            entries_at(kind, old(input).bytes(), old(input).offset(), 2 * pairs as nat),
        ),
{
    let ghost start: int = input.offset();
    let ghost mut items: Seq<Seq<u8>> = Seq::empty();
    let mut values: Vec<(Score, Vec<u8>)> = Vec::new();
    let mut done: u32 = 0;
    proof {
        assert(scored_view(values@) =~= scored_of(items));
    }
    while done < pairs
        invariant
            input.bytes() == old(input).bytes(),
            start == old(input).offset(),
            done <= pairs,
            entries_at(kind, input.bytes(), start, 2 * done as nat) == Ok::<
                (Seq<Seq<u8>>, int),
                RdbError,
            >((items, input.offset())),
            scored_view(values@) == scored_of(items),
        decreases pairs - done,
    {
        let member: Vec<u8> = match read_entry(input, kind) {
            Ok(member) => member,
            Err(e) => {
                proof {
                    lemma_entries_fail_on(
                        kind,
                        input.bytes(),
                        start,
                        (2 * done + 1) as nat,
                        2 * pairs as nat,
                    );
                }
                return Err(e);
            },
        };
        let score: Vec<u8> = match read_entry(input, kind) {
            Ok(score) => score,
            Err(e) => {
                proof {
                    assert(entries_at(kind, input.bytes(), start, (2 * done + 1) as nat) is Ok);
                    lemma_entries_fail_on(
                        kind,
                        input.bytes(),
                        start,
                        (2 * done + 2) as nat,
                        2 * pairs as nat,
                    );
                }
                return Err(e);
            },
        };
        proof {
            assert(entries_at(kind, input.bytes(), start, (2 * done + 1) as nat) is Ok);
            lemma_scored_view_push(values@, (Score::Text(score), member));
            let longer = items.push(member@).push(score@);
            assert(longer.subrange(0, longer.len() - 2) =~= items);
            items = longer;
        }
        values.push((Score::Text(score), member));
        done = done + 1;
    }
    Ok(values)
}

/// Reads a sorted set stored as one ziplist in which members and score
/// texts alternate.
pub fn read_sorted_set_ziplist(input: &mut ByteSource, key: &[u8], expiry: Option<u64>) -> (r:
    RdbResult<RdbValue>)
    ensures
        reads(
            *old(input),
            *final(input),
            r,
            sorted_set_of(
                key@,
                expiry,
                paired_ziplist_blob_at(old(input).bytes(), old(input).offset()),
            ),
        ),
{
    let ziplist: Vec<u8> = read_blob(input)?;
    let mut reader: ByteSource = ByteSource::new(ziplist);
    let (_zlbytes, _zltail, zllen) = read_ziplist_metadata(&mut reader)?;
    if zllen % 2 == 1 {
        return Err(
            RdbError::CorruptPayload {
                context: Container::Ziplist,
                detail: Defect::OddElementCount(zllen),
            },
        );
    }
    let pairs: u16 = zllen / 2;
    let values: Vec<(Score, Vec<u8>)> = read_scored(&mut reader, EntryKind::Ziplist, pairs as u32)?;
    expect_terminator(&mut reader, Container::Ziplist)?;
    Ok(RdbValue::SortedSet { key: slice_to_vec(key), values, expiry })
}

/// Reads a sorted set stored as one listpack in which members and score
/// texts alternate.
pub fn read_sorted_set_listpack(input: &mut ByteSource, key: &[u8], expiry: Option<u64>) -> (r:
    RdbResult<RdbValue>)
    ensures
        reads(
            *old(input),
            *final(input),
            r,
            sorted_set_of(
                key@,
                expiry,
                paired_listpack_blob_at(old(input).bytes(), old(input).offset()),
            ),
        ),
{
    let listpack: Vec<u8> = read_blob(input)?;
    let mut reader: ByteSource = ByteSource::new(listpack);
    let size: u16 = read_list_pack_length(&mut reader)?;
    if size % 2 == 1 {
        return Err(
            RdbError::CorruptPayload {
                context: Container::Listpack,
                detail: Defect::OddElementCount(size),
            },
        );
    }
    let num_entries: u16 = size / 2;
    let values: Vec<(Score, Vec<u8>)> = read_scored(
        &mut reader,
        EntryKind::Listpack,
        num_entries as u32,
    )?;
    expect_terminator(&mut reader, Container::Listpack)?;
    Ok(RdbValue::SortedSet { key: slice_to_vec(key), values, expiry })
}

/// Score sentinels: in the older layout the length bytes 253, 254 and 255
/// stand for not-a-number, positive infinity and negative infinity, and
/// the score takes that one byte.
pub proof fn lemma_score_sentinels(data: Seq<u8>, pos: int)
    requires
        0 <= pos < data.len(),
        data[pos] >= 253,
    ensures
        score_at(false, data, pos) == Ok::<(ScoreView, int), RdbError>(
            (
                if data[pos] == 253 {
                    ScoreView::NotANumber
                } else if data[pos] == 254 {
                    ScoreView::PositiveInfinity
                } else {
                    ScoreView::NegativeInfinity
                },
                pos + 1,
            ),
        ),
{
}

} // verus!
