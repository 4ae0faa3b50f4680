//! The byte source that the readers consume: the bytes of a snapshot, or of
//! one packed container, with a read position.

use vstd::prelude::*;
use vstd::slice::{slice_subrange, slice_to_vec};

use crate::numbers::{
    load_i16_le, load_i32_le, load_i64_le, load_u16_le, load_u32_be, load_u32_le, load_u64_le,
    signed, u16_le, u24_le, u32_be, u32_le, u64_le,
};
use crate::types::{RdbError, RdbResult};

verus! {

/// An owned byte buffer with a read position. The position never passes the
/// end of the buffer, and no read changes the bytes.
pub struct ByteSource {
    data: Vec<u8>,
    pos: usize,
}

/// The byte at `pos` with the position after it; past the end there is none.
pub open spec fn byte_at(data: Seq<u8>, pos: int) -> Result<(u8, int), RdbError> {
    if 0 <= pos < data.len() {
        Ok((data[pos], pos + 1))
    } else {
        Err(RdbError::IoFailure)
    }
}

/// The `n` bytes from `pos` on with the position after them; if fewer are
/// left there are none.
pub open spec fn bytes_at(data: Seq<u8>, pos: int, n: int) -> Result<(Seq<u8>, int), RdbError> {
    if 0 <= pos && 0 <= n && pos + n <= data.len() {
        Ok((data.subrange(pos, pos + n), pos + n))
    } else {
        Err(RdbError::IoFailure)
    }
}

/// The position after `n` bytes from `pos` on, if that many are left.
pub open spec fn skipped_at(data: Seq<u8>, pos: int, n: int) -> Result<((), int), RdbError> {
    if 0 <= pos && 0 <= n && pos + n <= data.len() {
        Ok(((), pos + n))
    } else {
        Err(RdbError::IoFailure)
    }
}

/// The unsigned 16-bit integer stored at `pos`, least significant byte first.
pub open spec fn u16_le_at(data: Seq<u8>, pos: int) -> Result<(u16, int), RdbError> {
    match bytes_at(data, pos, 2) {
        Ok((b, next)) => Ok((u16_le(b) as u16, next)),
        Err(e) => Err(e),
    }
}

/// The unsigned 32-bit integer stored at `pos`, least significant byte first.
pub open spec fn u32_le_at(data: Seq<u8>, pos: int) -> Result<(u32, int), RdbError> {
    match bytes_at(data, pos, 4) {
        Ok((b, next)) => Ok((u32_le(b) as u32, next)),
        Err(e) => Err(e),
    }
}

/// The unsigned 32-bit integer stored at `pos`, most significant byte first.
pub open spec fn u32_be_at(data: Seq<u8>, pos: int) -> Result<(u32, int), RdbError> {
    match bytes_at(data, pos, 4) {
        Ok((b, next)) => Ok((u32_be(b) as u32, next)),
        Err(e) => Err(e),
    }
}

/// The unsigned 64-bit integer stored at `pos`, least significant byte first.
pub open spec fn u64_le_at(data: Seq<u8>, pos: int) -> Result<(u64, int), RdbError> {
    match bytes_at(data, pos, 8) {
        Ok((b, next)) => Ok((u64_le(b) as u64, next)),
        Err(e) => Err(e),
    }
}

/// The number stored in `s`, least significant byte first; `s` holds 1, 2,
/// 3, 4 or 8 bytes.
pub open spec fn unsigned_le(s: Seq<u8>) -> int {
    if s.len() == 1 {
        s[0] as int
    } else if s.len() == 2 {
        u16_le(s)
    } else if s.len() == 3 {
        u24_le(s)
    } else if s.len() == 4 {
        u32_le(s)
    } else {
        u64_le(s)
    }
}

/// The signed integer of `width` bytes stored at `pos` in two's complement,
/// least significant byte first; `width` is 1, 2, 3, 4 or 8.
pub open spec fn signed_le_at(data: Seq<u8>, pos: int, width: nat) -> Result<(i64, int), RdbError> {
    match bytes_at(data, pos, width as int) {
        Ok((b, next)) => Ok((signed(unsigned_le(b), width) as i64, next)),
        Err(e) => Err(e),
    }
}

/// What a read does to its source and what it returns, given what the
/// format says stands at the position of the source (`expected`): the bytes
/// stay; where a value stands the read returns it and leaves the position
/// behind it; where none stands the read fails with the error that says why.
pub open spec fn reads<T: View>(
    before: ByteSource,
    after: ByteSource,
    result: RdbResult<T>,
    expected: Result<(T::V, int), RdbError>,
) -> bool {
    &&& after.bytes() == before.bytes()
    &&& match expected {
        Ok((value, next)) => result is Ok && result->Ok_0@ == value && after.offset() == next,
        Err(e) => result == Err::<T, RdbError>(e),
    }
}

/// The byte strings that a vector holds, each as a sequence.
pub open spec fn byte_strings(items: Seq<Vec<u8>>) -> Seq<Seq<u8>> {
    Seq::new(items.len(), |i: int| items[i]@)
}

/// What a read of a list of byte strings does to its source and what it
/// returns: as `reads`, with each byte string of the list as a sequence.
pub open spec fn reads_list(
    before: ByteSource,
    after: ByteSource,
    result: RdbResult<Vec<Vec<u8>>>,
    expected: Result<(Seq<Seq<u8>>, int), RdbError>,
) -> bool {
    &&& after.bytes() == before.bytes()
    &&& match expected {
        Ok((value, next)) => result is Ok && byte_strings(result->Ok_0@) == value
            && after.offset() == next,
        Err(e) => result == Err::<Vec<Vec<u8>>, RdbError>(e),
    }
}

impl ByteSource {
    /// The bytes of the source, read or not.
    pub closed spec fn bytes(&self) -> Seq<u8> {
        self.data@
    }

    /// The read position: the number of bytes consumed so far.
    pub closed spec fn offset(&self) -> int {
        self.pos as int
    }

    #[verifier::type_invariant]
    spec fn within_bounds(&self) -> bool {
        self.pos <= self.data@.len()
    }

    /// A source over `data`, positioned at its first byte.
    pub fn new(data: Vec<u8>) -> (r: ByteSource)
        ensures
            r.bytes() == data@,
            r.offset() == 0,
    {
        ByteSource { data, pos: 0 }
    }

    /// The number of bytes consumed so far.
    pub fn position(&self) -> (r: usize)
        ensures
            r == self.offset(),
            r <= self.bytes().len(),
    {
        proof {
            use_type_invariant(self);
        }
        self.pos
    }

    /// The number of bytes not yet consumed.
    pub fn remaining(&self) -> (r: usize)
        ensures
            r == self.bytes().len() - self.offset(),
    {
        proof {
            use_type_invariant(self);
        }
        self.data.len() - self.pos
    }

    /// Reads one byte. Where none is left, the position stays.
    pub fn read_u8(&mut self) -> (r: RdbResult<u8>)
        ensures
            reads(*old(self), *final(self), r, byte_at(old(self).bytes(), old(self).offset())),
            r is Err ==> final(self).offset() == old(self).offset(),
    {
        proof {
            use_type_invariant(&*self);
        }
        if self.pos < self.data.len() {
            let b: u8 = self.data[self.pos];
            self.pos = self.pos + 1;
            Ok(b)
        } else {
            Err(RdbError::IoFailure)
        }
    }

    /// Reads exactly `len` bytes. Where fewer are left, the position stays,
    /// as it does when any other read of this source fails.
    pub fn read_exact(&mut self, len: usize) -> (r: RdbResult<Vec<u8>>)
        ensures
            reads(
                *old(self),
                *final(self),
                r,
                bytes_at(old(self).bytes(), old(self).offset(), len as int),
            ),
            r is Err ==> final(self).offset() == old(self).offset(),
    {
        proof {
            use_type_invariant(&*self);
        }
        if len <= self.data.len() - self.pos {
            let end: usize = self.pos + len;
            let out: Vec<u8> = slice_to_vec(slice_subrange(self.data.as_slice(), self.pos, end));
            self.pos = end;
            Ok(out)
        } else {
            Err(RdbError::IoFailure)
        }
    }

    /// Reads an unsigned 16-bit integer, least significant byte first.
    pub fn read_u16_le(&mut self) -> (r: RdbResult<u16>)
        ensures
            reads(*old(self), *final(self), r, u16_le_at(old(self).bytes(), old(self).offset())),
            r is Err ==> final(self).offset() == old(self).offset(),
    {
        proof {
            use_type_invariant(&*self);
        }
        if 2 <= self.data.len() - self.pos {
            let end: usize = self.pos + 2;
            let v: u16 = load_u16_le(slice_subrange(self.data.as_slice(), self.pos, end));
            self.pos = end;
            Ok(v)
        } else {
            Err(RdbError::IoFailure)
        }
    }

    /// Reads an unsigned 32-bit integer, least significant byte first.
    pub fn read_u32_le(&mut self) -> (r: RdbResult<u32>)
        ensures
            reads(*old(self), *final(self), r, u32_le_at(old(self).bytes(), old(self).offset())),
            r is Err ==> final(self).offset() == old(self).offset(),
    {
        proof {
            use_type_invariant(&*self);
        }
        if 4 <= self.data.len() - self.pos {
            let end: usize = self.pos + 4;
            let v: u32 = load_u32_le(slice_subrange(self.data.as_slice(), self.pos, end));
            self.pos = end;
            Ok(v)
        } else {
            Err(RdbError::IoFailure)
        }
    }

    /// Reads an unsigned 32-bit integer, most significant byte first.
    pub fn read_u32_be(&mut self) -> (r: RdbResult<u32>)
        ensures
            reads(*old(self), *final(self), r, u32_be_at(old(self).bytes(), old(self).offset())),
            r is Err ==> final(self).offset() == old(self).offset(),
    {
        proof {
            use_type_invariant(&*self);
        }
        if 4 <= self.data.len() - self.pos {
            let end: usize = self.pos + 4;
            let v: u32 = load_u32_be(slice_subrange(self.data.as_slice(), self.pos, end));
            self.pos = end;
            Ok(v)
        } else {
            Err(RdbError::IoFailure)
        }
    }

    /// Reads an unsigned 64-bit integer, least significant byte first.
    pub fn read_u64_le(&mut self) -> (r: RdbResult<u64>)
        ensures
            reads(*old(self), *final(self), r, u64_le_at(old(self).bytes(), old(self).offset())),
            r is Err ==> final(self).offset() == old(self).offset(),
    {
        proof {
            use_type_invariant(&*self);
        }
        if 8 <= self.data.len() - self.pos {
            let end: usize = self.pos + 8;
            let v: u64 = load_u64_le(slice_subrange(self.data.as_slice(), self.pos, end));
            self.pos = end;
            Ok(v)
        } else {
            Err(RdbError::IoFailure)
        }
    }

    /// Reads a signed 8-bit integer.
    pub fn read_i8(&mut self) -> (r: RdbResult<i64>)
        ensures
            reads(
                *old(self),
                *final(self),
                r,
                signed_le_at(old(self).bytes(), old(self).offset(), 1),
            ),
            r is Err ==> final(self).offset() == old(self).offset(),
    {
        proof {
            use_type_invariant(&*self);
        }
        if self.pos < self.data.len() {
            let b: u8 = self.data[self.pos];
            self.pos = self.pos + 1;
            if b >= 128 {
                Ok(b as i64 - 256)
            } else {
                Ok(b as i64)
            }
        } else {
            Err(RdbError::IoFailure)
        }
    }

    /// Reads a signed 16-bit integer, least significant byte first.
    pub fn read_i16_le(&mut self) -> (r: RdbResult<i64>)
        ensures
            reads(
                *old(self),
                *final(self),
                r,
                signed_le_at(old(self).bytes(), old(self).offset(), 2),
            ),
            r is Err ==> final(self).offset() == old(self).offset(),
    {
        proof {
            use_type_invariant(&*self);
        }
        if 2 <= self.data.len() - self.pos {
            let end: usize = self.pos + 2;
            let v: i16 = load_i16_le(slice_subrange(self.data.as_slice(), self.pos, end));
            self.pos = end;
            Ok(v as i64)
        } else {
            Err(RdbError::IoFailure)
        }
    }

    /// Reads a signed 24-bit integer, least significant byte first.
    pub fn read_i24_le(&mut self) -> (r: RdbResult<i64>)
        ensures
            reads(
                *old(self),
                *final(self),
                r,
                signed_le_at(old(self).bytes(), old(self).offset(), 3),
            ),
            r is Err ==> final(self).offset() == old(self).offset(),
    {
        proof {
            use_type_invariant(&*self);
        }
        if 3 <= self.data.len() - self.pos {
            let b0: i64 = self.data[self.pos] as i64;
            let b1: i64 = self.data[self.pos + 1] as i64;
            let b2: i64 = self.data[self.pos + 2] as i64;
            self.pos = self.pos + 3;
            let v: i64 = b0 + 0x100 * b1 + 0x1_0000 * b2;
            if v >= 0x80_0000 {
                Ok(v - 0x100_0000)
            } else {
                Ok(v)
            }
        } else {
            Err(RdbError::IoFailure)
        }
    }

    /// Reads a signed 32-bit integer, least significant byte first.
    pub fn read_i32_le(&mut self) -> (r: RdbResult<i64>)
        ensures
            reads(
                *old(self),
                *final(self),
                r,
                signed_le_at(old(self).bytes(), old(self).offset(), 4),
            ),
            r is Err ==> final(self).offset() == old(self).offset(),
    {
        proof {
            use_type_invariant(&*self);
        }
        if 4 <= self.data.len() - self.pos {
            let end: usize = self.pos + 4;
            let v: i32 = load_i32_le(slice_subrange(self.data.as_slice(), self.pos, end));
            self.pos = end;
            Ok(v as i64)
        } else {
            Err(RdbError::IoFailure)
        }
    }

    /// Reads a signed 64-bit integer, least significant byte first.
    pub fn read_i64_le(&mut self) -> (r: RdbResult<i64>)
        ensures
            reads(
                *old(self),
                *final(self),
                r,
                signed_le_at(old(self).bytes(), old(self).offset(), 8),
            ),
            r is Err ==> final(self).offset() == old(self).offset(),
    {
        proof {
            use_type_invariant(&*self);
        }
        if 8 <= self.data.len() - self.pos {
            let end: usize = self.pos + 8;
            let v: i64 = load_i64_le(slice_subrange(self.data.as_slice(), self.pos, end));
            self.pos = end;
            Ok(v)
        } else {
            Err(RdbError::IoFailure)
        }
    }

    /// Passes over exactly `len` bytes without copying them.
    pub fn skip(&mut self, len: usize) -> (r: RdbResult<()>)
        ensures
            reads(
                *old(self),
                *final(self),
                r,
                skipped_at(old(self).bytes(), old(self).offset(), len as int),
            ),
            r is Err ==> final(self).offset() == old(self).offset(),
    {
        proof {
            use_type_invariant(&*self);
        }
        if len <= self.data.len() - self.pos {
            self.pos = self.pos + len;
            Ok(())
        } else {
            Err(RdbError::IoFailure)
        }
    }

    /// Reads all the bytes that are left.
    pub fn read_to_end(&mut self) -> (r: Vec<u8>)
        ensures
            final(self).bytes() == old(self).bytes(),
            final(self).offset() == old(self).bytes().len(),
            r@ == old(self).bytes().subrange(old(self).offset(), old(self).bytes().len() as int),
    {
        proof {
            use_type_invariant(&*self);
        }
        let end: usize = self.data.len();
        let out: Vec<u8> = slice_to_vec(slice_subrange(self.data.as_slice(), self.pos, end));
        self.pos = end;
        out
    }
}

} // verus!
