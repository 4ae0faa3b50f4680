//! The length codec, the blob reader and the header check.

use vstd::prelude::*;

use crate::constants::{constant, encoding, version};
use crate::decoder::common::entries::{entries_at, read_entries, EntryKind};
use crate::numbers::{decimal_bytes, decimal_text, signed, u32_be};
use crate::source::{
    byte_at, bytes_at, reads, reads_list, signed_le_at, u32_be_at, unsigned_le, ByteSource,
};
use crate::types::{RdbError, RdbOk, RdbResult};

verus! {

/// The length prefix that stands at `pos`: a pair of a number and whether
/// that number is a special encoding tag instead of a length.
///
/// The top two bits of the first byte select the size class: the low six
/// bits alone; the low six bits and the next byte; the next four bytes, most
/// significant first; or, in the fourth class, the low six bits as a tag.
pub open spec fn length_at(data: Seq<u8>, pos: int) -> Result<((u32, bool), int), RdbError> {
    match byte_at(data, pos) {
        Err(e) => Err(e),
        Ok((first, next)) => {
            let class = first / 64;
            let low = (first % 64) as u32;
            if class == constant::RDB_ENCVAL {
                Ok(((low, true), next))
            } else if class == constant::RDB_6BITLEN {
                Ok(((low, false), next))
            } else if class == constant::RDB_14BITLEN {
                match byte_at(data, next) {
                    Err(e) => Err(e),
                    Ok((second, after)) => Ok((((low * 256 + second) as u32, false), after)),
                }
            } else {
                match u32_be_at(data, next) {
                    Err(e) => Err(e),
                    Ok((length, after)) => Ok(((length, false), after)),
                }
            }
        },
    }
}

/// The number of the length prefix at `pos`, whether it is a length or a tag.
pub open spec fn plain_length_at(data: Seq<u8>, pos: int) -> Result<(u32, int), RdbError> {
    match length_at(data, pos) {
        Err(e) => Err(e),
        Ok(((length, _), next)) => Ok((length, next)),
    }
}

/// The shortest length prefix that stands for the length `n`.
pub open spec fn encode_length(n: u32) -> Seq<u8> {
    if n < 64 {
        seq![n as u8]
    } else if n < 16384 {
        seq![(64 + n / 256) as u8, (n % 256) as u8]
    } else {
        seq![
            128u8,
            (n / 0x100_0000) as u8,
            ((n / 0x1_0000) % 256) as u8,
            ((n / 0x100) % 256) as u8,
            (n % 256) as u8,
        ]
    }
}

/// What the LZF decompressor gives for the compressed bytes `data` when it
/// is allowed an output of at most `capacity` bytes: the decompressed bytes,
/// or nothing where it reports an error.
pub uninterp spec fn lzf_output(data: Seq<u8>, capacity: nat) -> Option<Seq<u8>>;

#[verifier::external_type_specification]
#[verifier::external_body]
pub struct ExLzfError(lzf::LzfError);

/// `lzf::decompress` computes its result from the compressed bytes and the
/// size of the output buffer alone; `lzf_output` is the name of that result.
pub assume_specification[ lzf::decompress ](data: &[u8], out_len_should: usize) -> (r:
    lzf::LzfResult<Vec<u8>>)
    ensures
        lzf_output(data@, out_len_should as nat) == match r {
            Ok(out) => Some(out@),
            Err(_) => None::<Seq<u8>>,
        },
;

/// The bytes that an LZF-compressed payload stands for: the output of the
/// decompressor, if it is exactly `real_length` bytes long.
pub open spec fn inflated(payload: Seq<u8>, real_length: u32) -> Result<Seq<u8>, RdbError> {
    match lzf_output(payload, real_length as nat) {
        Some(out) => if out.len() == real_length {
            Ok(out)
        } else {
            Err(RdbError::DecompressionFailed)
        },
        None => Err(RdbError::DecompressionFailed),
    }
}

/// The byte string that stands at `pos`.
///
/// A plain length prefix is followed by that many raw bytes. A special tag
/// stands for an integer of 1, 2 or 4 bytes, which is rendered to its
/// decimal text, or for an LZF-compressed payload: the compressed length,
/// the real length, then the compressed bytes. Any other tag is no encoding.
#[verifier::opaque]
pub open spec fn blob_at(data: Seq<u8>, pos: int) -> Result<(Seq<u8>, int), RdbError> {
    match length_at(data, pos) {
        Err(e) => Err(e),
        Ok(((length, is_encoded), next)) => if !is_encoded {
            bytes_at(data, next, length as int)
        } else if length == encoding::INT8 {
            integer_text_at(data, next, 1)
        } else if length == encoding::INT16 {
            integer_text_at(data, next, 2)
        } else if length == encoding::INT32 {
            integer_text_at(data, next, 4)
        } else if length == encoding::LZF {
            match plain_length_at(data, next) {
                Err(e) => Err(e),
                Ok((compressed_length, pos1)) => match plain_length_at(data, pos1) {
                    Err(e) => Err(e),
                    Ok((real_length, pos2)) => match bytes_at(data, pos2, compressed_length as int) {
                        Err(e) => Err(e),
                        Ok((payload, pos3)) => match inflated(payload, real_length) {
                            Err(e) => Err(e),
                            Ok(out) => Ok((out, pos3)),
                        },
                    },
                },
            }
        } else {
            Err(RdbError::UnknownEncoding(length as u8))
        },
    }
}

/// The decimal text of the signed integer of `width` bytes stored at `pos`,
/// least significant byte first.
pub open spec fn integer_text_at(data: Seq<u8>, pos: int, width: nat) -> Result<
    (Seq<u8>, int),
    RdbError,
> {
    match signed_le_at(data, pos, width) {
        Err(e) => Err(e),
        Ok((value, next)) => Ok((decimal_text(value as int), next)),
    }
}

/// Whether the five bytes of the magic string stand at `pos`.
pub open spec fn magic_at(data: Seq<u8>, pos: int) -> Result<((), int), RdbError> {
    match bytes_at(data, pos, 5) {
        Ok((found, next)) => if found == constant::magic() {
            Ok(((), next))
        } else {
            Err(RdbError::UnsupportedFormat)
        },
        Err(_) => Err(RdbError::UnsupportedFormat),
    }
}

/// Whether `b` is an ASCII digit.
pub open spec fn is_ascii_digit(b: u8) -> bool {
    48 <= b <= 57
}

/// The number that four ASCII digits stand for.
pub open spec fn version_number(digits: Seq<u8>) -> int {
    (digits[0] - 48) * 1000 + (digits[1] - 48) * 100 + (digits[2] - 48) * 10 + (digits[3] - 48)
}

/// Whether four ASCII digits that give a supported version stand at `pos`.
pub open spec fn version_at(data: Seq<u8>, pos: int) -> Result<((), int), RdbError> {
    match bytes_at(data, pos, 4) {
        Ok((found, next)) => if is_ascii_digit(found[0]) && is_ascii_digit(found[1])
            && is_ascii_digit(found[2]) && is_ascii_digit(found[3]) && version::SUPPORTED_MINIMUM
            <= version_number(found) <= version::SUPPORTED_MAXIMUM {
            Ok(((), next))
        } else {
            Err(RdbError::UnsupportedFormat)
        },
        Err(_) => Err(RdbError::UnsupportedFormat),
    }
}

/// The sequence of byte strings at `pos`: a length, then that many byte strings.
pub open spec fn sequence_at(data: Seq<u8>, pos: int) -> Result<(Seq<Seq<u8>>, int), RdbError> {
    match plain_length_at(data, pos) {
        Err(e) => Err(e),
        Ok((count, next)) => entries_at(EntryKind::Blob, data, next, count as nat),
    }
}

/// Reads a length prefix: its number, and whether the number is a special
/// encoding tag.
pub fn read_length_with_encoding(input: &mut ByteSource) -> (r: RdbResult<(u32, bool)>)
    ensures
        reads(*old(input), *final(input), r, length_at(old(input).bytes(), old(input).offset())),
{
    let enc_type: u8 = input.read_u8()?;
    let class: u8 = enc_type / 64;
    let low: u32 = (enc_type % 64) as u32;
    if class == constant::RDB_ENCVAL {
        Ok((low, true))
    } else if class == constant::RDB_6BITLEN {
        Ok((low, false))
    } else if class == constant::RDB_14BITLEN {
        let next_byte: u8 = input.read_u8()?;
        Ok((low * 256 + next_byte as u32, false))
    } else {
        let length: u32 = input.read_u32_be()?;
        Ok((length, false))
    }
}

/// Reads a length prefix and returns its number, whether it is a length or
/// a tag.
pub fn read_length(input: &mut ByteSource) -> (r: RdbResult<u32>)
    ensures
        reads(
            *old(input),
            *final(input),
            r,
            plain_length_at(old(input).bytes(), old(input).offset()),
        ),
{
    let (length, _) = read_length_with_encoding(input)?;
    Ok(length)
}

/// Consumes the magic string; anything else is an unsupported format.
pub fn verify_magic(input: &mut ByteSource) -> (r: RdbOk)
    ensures
        reads(*old(input), *final(input), r, magic_at(old(input).bytes(), old(input).offset())),
{
    match input.read_exact(5) {
        Ok(magic) => {
            if magic[0] == 0x52 && magic[1] == 0x45 && magic[2] == 0x44 && magic[3] == 0x49
                && magic[4] == 0x53 {
                proof {
                    assert(magic@ =~= constant::magic());
                }
                Ok(())
            } else {
                Err(RdbError::UnsupportedFormat)
            }
        },
        Err(_) => Err(RdbError::UnsupportedFormat),
    }
}

/// Consumes the four digits of the version and accepts a version in the
/// supported range; anything else is an unsupported format.
pub fn verify_version(input: &mut ByteSource) -> (r: RdbOk)
    ensures
        reads(*old(input), *final(input), r, version_at(old(input).bytes(), old(input).offset())),
{
    match input.read_exact(4) {
        Ok(buf) => {
            let d0: u8 = buf[0];
            let d1: u8 = buf[1];
            let d2: u8 = buf[2];
            let d3: u8 = buf[3];
            if d0 < 48 || d0 > 57 || d1 < 48 || d1 > 57 || d2 < 48 || d2 > 57 || d3 < 48 || d3
                > 57 {
                return Err(RdbError::UnsupportedFormat);
            }
            let number: u32 = (d0 - 48) as u32 * 1000 + (d1 - 48) as u32 * 100 + (d2 - 48) as u32
                * 10 + (d3 - 48) as u32;
            if number >= version::SUPPORTED_MINIMUM && number <= version::SUPPORTED_MAXIMUM {
                Ok(())
            } else {
                Err(RdbError::UnsupportedFormat)
            }
        },
        Err(_) => Err(RdbError::UnsupportedFormat),
    }
}

/// Reads one byte string: raw bytes, the decimal text of a packed integer,
/// or the decompressed bytes of an LZF payload.
pub fn read_blob(input: &mut ByteSource) -> (r: RdbResult<Vec<u8>>)
    ensures
        reads(*old(input), *final(input), r, blob_at(old(input).bytes(), old(input).offset())),
{
    reveal(blob_at);
    let (length, is_encoded) = read_length_with_encoding(input)?;
    if is_encoded {
        if length == encoding::INT8 {
            let value: i64 = input.read_i8()?;
            Ok(decimal_bytes(value))
        } else if length == encoding::INT16 {
            let value: i64 = input.read_i16_le()?;
            Ok(decimal_bytes(value))
        } else if length == encoding::INT32 {
            let value: i64 = input.read_i32_le()?;
            Ok(decimal_bytes(value))
        } else if length == encoding::LZF {
            let compressed_length: u32 = read_length(input)?;
            let real_length: u32 = read_length(input)?;
            let data: Vec<u8> = read_exact(input, compressed_length as usize)?;
            match lzf::decompress(data.as_slice(), real_length as usize) {
                Ok(out) => {
                    if out.len() == real_length as usize {
                        Ok(out)
                    } else {
                        Err(RdbError::DecompressionFailed)
                    }
                },
                Err(_) => Err(RdbError::DecompressionFailed),
            }
        } else {
            Err(RdbError::UnknownEncoding(length as u8))
        }
    } else {
        read_exact(input, length as usize)
    }
}

/// Reads exactly `len` bytes.
pub fn read_exact(reader: &mut ByteSource, len: usize) -> (r: RdbResult<Vec<u8>>)
    ensures
        reads(
            *old(reader),
            *final(reader),
            r,
            bytes_at(old(reader).bytes(), old(reader).offset(), len as int),
        ),
{
    reader.read_exact(len)
}

/// Reads a length and then that many byte strings.
pub fn read_sequence(input: &mut ByteSource) -> (r: RdbResult<Vec<Vec<u8>>>)
    ensures
        reads_list(
            *old(input),
            *final(input),
            r,
            sequence_at(old(input).bytes(), old(input).offset()),
        ),
{
    let len: u32 = read_length(input)?;
    read_entries(input, EntryKind::Blob, len)
}

/// Encoding a length and decoding the prefix gives the length back, as a
/// plain length, and consumes the prefix exactly, whatever follows it.
pub proof fn lemma_length_round_trip(n: u32, rest: Seq<u8>)
    ensures
        length_at(encode_length(n) + rest, 0) == Ok::<((u32, bool), int), RdbError>(
            ((n, false), encode_length(n).len() as int),
        ),
{
    let data = encode_length(n) + rest;
    if n < 64 {
        assert(data[0] == n);
    } else if n < 16384 {
        assert(data[0] == 64 + n / 256);
        assert(data[1] == n % 256);
    } else {
        assert(data[0] == 128);
        let field = data.subrange(1, 5);
        assert(field[0] == n / 0x100_0000);
        assert(field[1] == (n / 0x1_0000) % 256);
        assert(field[2] == (n / 0x100) % 256);
        assert(field[3] == n % 256);
        assert(u32_be(field) == n);
    }
}

/// A payload behind a plain length prefix decodes to the same bytes, and
/// the read consumes prefix and payload exactly.
pub proof fn lemma_blob_round_trip(payload: Seq<u8>, rest: Seq<u8>)
    requires
        payload.len() <= u32::MAX,
    ensures
        blob_at(encode_length(payload.len() as u32) + payload + rest, 0) == Ok::<
            (Seq<u8>, int),
            RdbError,
        >((payload, (encode_length(payload.len() as u32).len() + payload.len()) as int)),
{
    let n = payload.len() as u32;
    let prefix = encode_length(n);
    let data = prefix + payload + rest;
    lemma_length_round_trip(n, payload + rest);
    assert(data =~= prefix + (payload + rest));
    assert(length_at(data, 0) == Ok::<((u32, bool), int), RdbError>(
        ((n, false), prefix.len() as int),
    ));
    assert(blob_at(data, 0) == bytes_at(data, prefix.len() as int, n as int)) by {
        reveal(blob_at);
    }
    assert(data.subrange(prefix.len() as int, (prefix.len() + payload.len()) as int) =~= payload);
}

/// Integer-blob rendering: a byte string whose length prefix is the tag
/// of a packed integer of 1, 2 or 4 bytes is the decimal text of that
/// integer, read in two's complement with the least significant byte
/// first.
pub proof fn lemma_integer_blob(data: Seq<u8>, pos: int, width: nat)
    requires
        0 <= pos,
        width == 1 || width == 2 || width == 4,
        pos + 1 + width <= data.len(),
        data[pos] == 0xC0 + (if width == 1 {
            0int
        } else if width == 2 {
            1int
        } else {
            2int
        }),
    ensures
        blob_at(data, pos) == Ok::<(Seq<u8>, int), RdbError>(
            (
                decimal_text(
                    signed(
                        unsigned_le(data.subrange(pos + 1, pos + 1 + width)),
                        width,
                    ),
                ),
                pos + 1 + width,
            ),
        ),
{
    reveal(blob_at);
    let value = signed(unsigned_le(data.subrange(pos + 1, pos + 1 + width)), width);
    assert(-0x8000_0000 <= value < 0x8000_0000);
}

} // verus!
