//! Special encoding tags carried by a length prefix of the fourth size class.

use vstd::prelude::*;

verus! {

pub const INT8: u32 = 0;

pub const INT16: u32 = 1;

pub const INT32: u32 = 2;

pub const LZF: u32 = 3;

} // verus!
