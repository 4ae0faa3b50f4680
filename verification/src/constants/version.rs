//! Range of snapshot format versions that the decoder accepts.

use vstd::prelude::*;

verus! {

pub const SUPPORTED_MINIMUM: u32 = 1;

pub const SUPPORTED_MAXIMUM: u32 = 12;

} // verus!
