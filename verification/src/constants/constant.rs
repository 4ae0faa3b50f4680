//! Size classes of a length prefix (the top two bits of its first byte) and
//! the magic string.

use vstd::prelude::*;

verus! {

pub const RDB_6BITLEN: u8 = 0;

pub const RDB_14BITLEN: u8 = 1;

pub const RDB_32BITLEN: u8 = 2;

pub const RDB_ENCVAL: u8 = 3;

/// The five bytes every snapshot starts with: ASCII `REDIS`.
pub open spec fn magic() -> Seq<u8> {
    seq![0x52u8, 0x45u8, 0x44u8, 0x49u8, 0x53u8]
}

} // verus!
