//! The listpack: a packed sequence of entries, each a header byte, a body
//! and a back-length field, closed by the byte `0xFF`.

use vstd::prelude::*;

use crate::numbers::{decimal_bytes, decimal_text};
use crate::source::{
    byte_at, bytes_at, reads, signed_le_at, skipped_at, u16_le_at, u32_le_at, ByteSource,
};
use crate::types::{Container, Defect, RdbError, RdbResult};

verus! {

/// The width in bytes of the back-length field that follows an entry whose
/// header and body take `element_len` bytes.
pub open spec fn backlen_width(element_len: int) -> int {
    if element_len <= 127 {
        1
    } else if element_len < 16383 {
        2
    } else if element_len < 2097151 {
        3
    } else if element_len < 268435455 {
        4
    } else {
        5
    }
}

/// The position after the back-length field at `pos` of an entry of
/// `element_len` bytes.
pub open spec fn backlen_at(data: Seq<u8>, pos: int, element_len: int) -> Result<
    ((), int),
    RdbError,
> {
    skipped_at(data, pos, backlen_width(element_len))
}

/// The element count of the listpack whose header stands at `pos`: the
/// total bytes (32 bits) and the element count (16 bits), each least
/// significant byte first.
pub open spec fn list_pack_length_at(data: Seq<u8>, pos: int) -> Result<(u16, int), RdbError> {
    match u32_le_at(data, pos) {
        Err(e) => Err(e),
        Ok((_, pos1)) => u16_le_at(data, pos1),
    }
}

/// `text` as the value of an entry of `element_len` bytes whose body ends
/// at `pos`: the back-length field is passed over.
pub open spec fn list_pack_closed_at(
    data: Seq<u8>,
    pos: int,
    element_len: int,
    text: Seq<u8>,
) -> Result<(Seq<u8>, int), RdbError> {
    match backlen_at(data, pos, element_len) {
        Err(e) => Err(e),
        Ok((_, next)) => Ok((text, next)),
    }
}

/// The string entry whose `len` bytes stand at `pos`, after a header of
/// `header_len` bytes.
pub open spec fn list_pack_string_at(data: Seq<u8>, pos: int, header_len: int, len: int) -> Result<
    (Seq<u8>, int),
    RdbError,
> {
    match bytes_at(data, pos, len) {
        Err(e) => Err(e),
        Ok((raw, next)) => list_pack_closed_at(data, next, header_len + len, raw),
    }
}

/// The integer entry whose `width` bytes stand at `pos`, after a header of
/// one byte, as decimal text.
pub open spec fn list_pack_number_at(data: Seq<u8>, pos: int, width: nat) -> Result<
    (Seq<u8>, int),
    RdbError,
> {
    match signed_le_at(data, pos, width) {
        Err(e) => Err(e),
        Ok((value, next)) => list_pack_closed_at(data, next, 1 + width as int, decimal_text(value as int)),
    }
}

/// The listpack entry that stands at `pos`, as a byte string; integers are
/// rendered to their decimal text.
///
/// The header byte selects the encoding by its top bits: `0` a 7-bit
/// unsigned integer; `10` a string with a 6-bit length; `110` a 13-bit
/// signed integer whose low byte follows; `1110` a string with a 12-bit
/// length whose low byte follows; `0xF0` a string with a 32-bit length;
/// `0xF1` to `0xF4` a signed integer of 2, 3, 4 or 8 bytes. Any other header
/// byte, the end marker `0xFF` among them, starts no entry.
pub open spec fn list_pack_entry_at(data: Seq<u8>, pos: int) -> Result<(Seq<u8>, int), RdbError> {
    match byte_at(data, pos) {
        Err(e) => Err(e),
        Ok((header, pos1)) => if header < 128 {
            list_pack_closed_at(data, pos1, 1, decimal_text(header as int))
        } else if header < 192 {
            list_pack_string_at(data, pos1, 1, (header % 64) as int)
        } else if header < 224 {
            match byte_at(data, pos1) {
                Err(e) => Err(e),
                Ok((low, pos2)) => {
                    let raw = (header % 32) * 256 + low;
                    let value = if raw >= 4096 {
                        raw - 8192
                    } else {
                        raw
                    };
                    list_pack_closed_at(data, pos2, 2, decimal_text(value))
                },
            }
        } else if header < 240 {
            match byte_at(data, pos1) {
                Err(e) => Err(e),
                Ok((low, pos2)) => list_pack_string_at(data, pos2, 2, (header % 16) * 256 + low),
            }
        } else if header == 0xF0 {
            match u32_le_at(data, pos1) {
                Err(e) => Err(e),
                Ok((len, pos2)) => list_pack_string_at(data, pos2, 5, len as int),
            }
        } else if header == 0xF1 {
            list_pack_number_at(data, pos1, 2)
        } else if header == 0xF2 {
            list_pack_number_at(data, pos1, 3)
        } else if header == 0xF3 {
            list_pack_number_at(data, pos1, 4)
        } else if header == 0xF4 {
            list_pack_number_at(data, pos1, 8)
        } else {
            Err(
                RdbError::CorruptPayload {
                    context: Container::Listpack,
                    detail: Defect::ImpossibleFlag(header),
                },
            )
        },
    }
}

/// Passes over the back-length field of an entry of `element_len` bytes.
pub fn skip_backlen(reader: &mut ByteSource, element_len: u64) -> (r: RdbResult<()>)
    ensures
        reads(
            *old(reader),
            *final(reader),
            r,
            backlen_at(old(reader).bytes(), old(reader).offset(), element_len as int),
        ),
{
    let backlen: usize = if element_len <= 127 {
        1
    } else if element_len < 16383 {
        2
    } else if element_len < 2097151 {
        3
    } else if element_len < 268435455 {
        4
    } else {
        5
    };
    reader.skip(backlen)
}

/// Reads the header of a listpack and returns its element count.
pub fn read_list_pack_length(input: &mut ByteSource) -> (r: RdbResult<u16>)
    ensures
        reads(
            *old(input),
            *final(input),
            r,
            list_pack_length_at(old(input).bytes(), old(input).offset()),
        ),
{
    let _total_bytes: u32 = input.read_u32_le()?;
    let num_elements: u16 = input.read_u16_le()?;
    Ok(num_elements)
}

/// Reads one listpack entry, back-length field and all, and returns its
/// value as a byte string.
pub fn read_list_pack_entry_as_string(reader: &mut ByteSource) -> (r: RdbResult<Vec<u8>>)
    ensures
        reads(
            *old(reader),
            *final(reader),
            r,
            list_pack_entry_at(old(reader).bytes(), old(reader).offset()),
        ),
{
    let header: u8 = reader.read_u8()?;
    if header < 128 {
        skip_backlen(reader, 1)?;
        Ok(decimal_bytes(header as i64))
    } else if header < 192 {
        let str_len: usize = (header % 64) as usize;
        let result: Vec<u8> = reader.read_exact(str_len)?;
        skip_backlen(reader, 1 + str_len as u64)?;
        Ok(result)
    } else if header < 224 {
        let next: u8 = reader.read_u8()?;
        let raw: i64 = (header % 32) as i64 * 256 + next as i64;
        let val: i64 = if raw >= 4096 {
            raw - 8192
        } else {
            raw
        };
        skip_backlen(reader, 2)?;
        Ok(decimal_bytes(val))
    } else if header < 240 {
        let len_low: u8 = reader.read_u8()?;
        let str_len: usize = (header % 16) as usize * 256 + len_low as usize;
        let result: Vec<u8> = reader.read_exact(str_len)?;
        skip_backlen(reader, 2 + str_len as u64)?;
        Ok(result)
    } else if header == 0xF0 {
        let str_len: u32 = reader.read_u32_le()?;
        let result: Vec<u8> = reader.read_exact(str_len as usize)?;
        skip_backlen(reader, 5 + str_len as u64)?;
        Ok(result)
    } else if header == 0xF1 {
        let val: i64 = reader.read_i16_le()?;
        skip_backlen(reader, 3)?;
        Ok(decimal_bytes(val))
    } else if header == 0xF2 {
        let val: i64 = reader.read_i24_le()?;
        skip_backlen(reader, 4)?;
        Ok(decimal_bytes(val))
    } else if header == 0xF3 {
        let val: i64 = reader.read_i32_le()?;
        skip_backlen(reader, 5)?;
        Ok(decimal_bytes(val))
    } else if header == 0xF4 {
        let val: i64 = reader.read_i64_le()?;
        skip_backlen(reader, 9)?;
        Ok(decimal_bytes(val))
    } else {
        Err(
            RdbError::CorruptPayload {
                context: Container::Listpack,
                detail: Defect::ImpossibleFlag(header),
            },
        )
    }
}

} // verus!
