//! The numbers that the snapshot format assigns to its markers, tags and
//! size classes.

pub mod constant;
pub mod encoding;
pub mod encoding_type;
pub mod op_code;
pub mod version;
