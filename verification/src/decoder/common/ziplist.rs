//! The ziplist: a packed sequence of entries, each a previous-entry length,
//! a flag byte and a value, closed by the byte `0xFF`.

use vstd::prelude::*;

use crate::numbers::{decimal_bytes, decimal_text};
use crate::source::{
    byte_at, bytes_at, reads, signed_le_at, skipped_at, u16_le_at, u32_be_at, u32_le_at,
    ByteSource,
};
use crate::types::{Container, Defect, RdbError, RdbResult};

verus! {

/// The value of one ziplist entry: a byte string or an integer.
#[derive(Debug, Clone, PartialEq, Eq)]
pub enum ZiplistEntry {
    String(Vec<u8>),
    Number(i64),
}

/// A ziplist entry with its byte string as a sequence.
pub enum ZiplistEntryView {
    String(Seq<u8>),
    Number(i64),
}

impl View for ZiplistEntry {
    type V = ZiplistEntryView;

    open spec fn view(&self) -> ZiplistEntryView {
        match *self {
            ZiplistEntry::String(s) => ZiplistEntryView::String(s@),
            ZiplistEntry::Number(n) => ZiplistEntryView::Number(n),
        }
    }
}

/// The three header fields of a ziplist, each least significant byte
/// first: total bytes, tail offset (32 bits each) and entry count (16 bits).
pub open spec fn ziplist_metadata_at(data: Seq<u8>, pos: int) -> Result<
    ((u32, u32, u16), int),
    RdbError,
> {
    match u32_le_at(data, pos) {
        Err(e) => Err(e),
        Ok((zlbytes, pos1)) => match u32_le_at(data, pos1) {
            Err(e) => Err(e),
            Ok((zltail, pos2)) => match u16_le_at(data, pos2) {
                Err(e) => Err(e),
                Ok((zllen, pos3)) => Ok(((zlbytes, zltail, zllen), pos3)),
            },
        },
    }
}

/// The flag of a ziplist entry does not select any encoding.
pub open spec fn impossible_flag(flag: u8) -> RdbError {
    RdbError::CorruptPayload { context: Container::Ziplist, detail: Defect::ImpossibleFlag(flag) }
}

/// The byte string of `len` bytes at `pos`, as the value of an entry.
pub open spec fn ziplist_string_at(data: Seq<u8>, pos: int, len: int) -> Result<
    (ZiplistEntryView, int),
    RdbError,
> {
    match bytes_at(data, pos, len) {
        Err(e) => Err(e),
        Ok((raw, next)) => Ok((ZiplistEntryView::String(raw), next)),
    }
}

/// The signed integer of `width` bytes at `pos`, as the value of an entry.
pub open spec fn ziplist_number_at(data: Seq<u8>, pos: int, width: nat) -> Result<
    (ZiplistEntryView, int),
    RdbError,
> {
    match signed_le_at(data, pos, width) {
        Err(e) => Err(e),
        Ok((value, next)) => Ok((ZiplistEntryView::Number(value), next)),
    }
}

/// The value that the flag byte `flag` announces, with the bytes after the
/// flag starting at `pos`.
///
/// The top two bits `00`, `01` and `10` announce a string whose length is
/// the low six bits, the low six bits and the next byte, or the next four
/// bytes (most significant first). Of the flags that start with `11`,
/// `0xC0`, `0xD0`, `0xE0`, `0xF0` and `0xFE` announce a signed integer of
/// 2, 4, 8, 3 and 1 bytes, and `0xF1` to `0xFD` hold the integers 0 to 12
/// in their low four bits, plus one. Every other flag is impossible.
pub open spec fn ziplist_value_at(data: Seq<u8>, pos: int, flag: u8) -> Result<
    (ZiplistEntryView, int),
    RdbError,
> {
    let class = flag / 64;
    if class == 0 {
        ziplist_string_at(data, pos, (flag % 64) as int)
    } else if class == 1 {
        match byte_at(data, pos) {
            Err(e) => Err(e),
            Ok((low, next)) => ziplist_string_at(data, next, (flag % 64) * 256 + low),
        }
    } else if class == 2 {
        match u32_be_at(data, pos) {
            Err(e) => Err(e),
            Ok((len, next)) => ziplist_string_at(data, next, len as int),
        }
    } else if flag == 0xC0 {
        ziplist_number_at(data, pos, 2)
    } else if flag == 0xD0 {
        ziplist_number_at(data, pos, 4)
    } else if flag == 0xE0 {
        ziplist_number_at(data, pos, 8)
    } else if flag == 0xF0 {
        ziplist_number_at(data, pos, 3)
    } else if flag == 0xFE {
        ziplist_number_at(data, pos, 1)
    } else if 0xF1 <= flag <= 0xFD {
        Ok((ZiplistEntryView::Number((flag % 16 - 1) as i64), pos))
    } else {
        Err(impossible_flag(flag))
    }
}

/// The ziplist entry that stands at `pos`: one byte of previous-entry
/// length, followed by four more bytes if it is 254; then the flag byte and
/// the value it announces.
pub open spec fn ziplist_entry_at(data: Seq<u8>, pos: int) -> Result<
    (ZiplistEntryView, int),
    RdbError,
> {
    match byte_at(data, pos) {
        Err(e) => Err(e),
        Ok((prev, pos1)) => match (if prev == 254 {
            skipped_at(data, pos1, 4)
        } else {
            Ok(((), pos1))
        }) {
            Err(e) => Err(e),
            Ok((_, pos2)) => match byte_at(data, pos2) {
                Err(e) => Err(e),
                Ok((flag, pos3)) => ziplist_value_at(data, pos3, flag),
            },
        },
    }
}

/// The value of an entry as a byte string: an integer is rendered to its
/// decimal text.
pub open spec fn ziplist_entry_text(entry: ZiplistEntryView) -> Seq<u8> {
    match entry {
        ZiplistEntryView::String(s) => s,
        ZiplistEntryView::Number(n) => decimal_text(n as int),
    }
}

/// The ziplist entry at `pos`, as a byte string.
pub open spec fn ziplist_entry_string_at(data: Seq<u8>, pos: int) -> Result<
    (Seq<u8>, int),
    RdbError,
> {
    match ziplist_entry_at(data, pos) {
        Err(e) => Err(e),
        Ok((entry, next)) => Ok((ziplist_entry_text(entry), next)),
    }
}

/// Reads the header of a ziplist: total bytes, tail offset and entry count.
pub fn read_ziplist_metadata(input: &mut ByteSource) -> (r: RdbResult<(u32, u32, u16)>)
    ensures
        reads(
            *old(input),
            *final(input),
            r,
            ziplist_metadata_at(old(input).bytes(), old(input).offset()),
        ),
{
    let zlbytes: u32 = input.read_u32_le()?;
    let zltail: u32 = input.read_u32_le()?;
    let zllen: u16 = input.read_u16_le()?;
    Ok((zlbytes, zltail, zllen))
}

/// Reads one ziplist entry and returns its value as a byte string.
pub fn read_ziplist_entry_string(input: &mut ByteSource) -> (r: RdbResult<Vec<u8>>)
    ensures
        reads(
            *old(input),
            *final(input),
            r,
            ziplist_entry_string_at(old(input).bytes(), old(input).offset()),
        ),
{
    let entry: ZiplistEntry = read_ziplist_entry(input)?;
    match entry {
        ZiplistEntry::String(val) => Ok(val),
        ZiplistEntry::Number(val) => Ok(decimal_bytes(val)),
    }
}

/// Reads one ziplist entry.
pub fn read_ziplist_entry(input: &mut ByteSource) -> (r: RdbResult<ZiplistEntry>)
    ensures
        reads(
            *old(input),
            *final(input),
            r,
            ziplist_entry_at(old(input).bytes(), old(input).offset()),
        ),
{
    let byte: u8 = input.read_u8()?;
    if byte == 254 {
        input.skip(4)?;
    }
    let flag: u8 = input.read_u8()?;
    let class: u8 = flag / 64;
    if class == 0 {
        let rawval: Vec<u8> = input.read_exact((flag % 64) as usize)?;
        Ok(ZiplistEntry::String(rawval))
    } else if class == 1 {
        let next_byte: u8 = input.read_u8()?;
        let length: usize = (flag % 64) as usize * 256 + next_byte as usize;
        let rawval: Vec<u8> = input.read_exact(length)?;
        Ok(ZiplistEntry::String(rawval))
    } else if class == 2 {
        let length: u32 = input.read_u32_be()?;
        let rawval: Vec<u8> = input.read_exact(length as usize)?;
        Ok(ZiplistEntry::String(rawval))
    } else if flag == 0xC0 {
        let value: i64 = input.read_i16_le()?;
        Ok(ZiplistEntry::Number(value))
    } else if flag == 0xD0 {
        let value: i64 = input.read_i32_le()?;
        Ok(ZiplistEntry::Number(value))
    } else if flag == 0xE0 {
        let value: i64 = input.read_i64_le()?;
        Ok(ZiplistEntry::Number(value))
    } else if flag == 0xF0 {
        let value: i64 = input.read_i24_le()?;
        Ok(ZiplistEntry::Number(value))
    } else if flag == 0xFE {
        let value: i64 = input.read_i8()?;
        Ok(ZiplistEntry::Number(value))
    } else if 0xF1 <= flag && flag <= 0xFD {
        Ok(ZiplistEntry::Number((flag % 16) as i64 - 1))
    } else {
        Err(RdbError::CorruptPayload {
            context: Container::Ziplist,
            detail: Defect::ImpossibleFlag(flag),
        })
    }
}

} // verus!
