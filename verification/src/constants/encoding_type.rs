//! Value-type tags: the byte that selects the on-disk layout of a value.

use vstd::prelude::*;

verus! {

pub const STRING: u8 = 0;

pub const LIST: u8 = 1;

pub const SET: u8 = 2;

pub const ZSET: u8 = 3;

pub const HASH: u8 = 4;

pub const ZSET_2: u8 = 5;

pub const MODULE: u8 = 6;

pub const MODULE_2: u8 = 7;

pub const HASH_ZIPMAP: u8 = 9;

pub const LIST_ZIPLIST: u8 = 10;

pub const SET_INTSET: u8 = 11;

pub const ZSET_ZIPLIST: u8 = 12;

pub const HASH_ZIPLIST: u8 = 13;

pub const LIST_QUICKLIST: u8 = 14;

pub const STREAM_LIST_PACKS: u8 = 15;

pub const HASH_LIST_PACK: u8 = 16;

pub const ZSET_LIST_PACK: u8 = 17;

pub const LIST_QUICKLIST_2: u8 = 18;

pub const STREAM_LIST_PACKS_2: u8 = 19;

pub const SET_LIST_PACK: u8 = 20;

pub const STREAM_LIST_PACKS_3: u8 = 21;

} // verus!
