//! Top-level op-codes: one leading byte per record.

use vstd::prelude::*;

verus! {

pub const MODULE_AUX: u8 = 247;

pub const IDLE: u8 = 248;

pub const FREQ: u8 = 249;

pub const AUX: u8 = 250;

pub const RESIZEDB: u8 = 251;

pub const EXPIRETIME_MS: u8 = 252;

pub const EXPIRETIME: u8 = 253;

pub const SELECTDB: u8 = 254;

pub const EOF: u8 = 255;

} // verus!
