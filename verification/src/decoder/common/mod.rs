//! Readers shared by the value kinds: the length codec and blob reader, and
//! the packed containers.

pub mod entries;
pub mod listpack;
pub mod utils;
pub mod ziplist;
