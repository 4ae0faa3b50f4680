//! Streaming decoder for the on-disk snapshot format of an in-memory
//! key/value server.
//!
//! Given the bytes of a complete snapshot, [`RdbDecoder`] yields one semantic
//! record at a time: database markers, auxiliary metadata, key/value pairs of
//! five logical kinds and the trailing checksum. A [`Filter`] decides which
//! key/value pairs are decoded and which are passed over at the level of
//! bytes. A [`Formatter`] turns the records into JSON, line-oriented plain
//! text or replayable protocol commands.
//!
//! # What is proved
//!
//! The format has a mathematical model: for each structure of the format a
//! specification function over the byte sequence and a position says what
//! stands there and where it ends, or why nothing does. Each reader is
//! proved to return exactly what that function gives, without panic and
//! without arithmetic overflow. The module [`decoder::stream`] holds what
//! follows for whole streams: the order of the records, the one-shot
//! expiry and the equivalence of filtering and selecting.
//!
//! # What is believed
//!
//! Five crates do work that is not proved here, each behind a contract that
//! states what the crate computes: `byteorder` loads the multi-byte integers,
//! `lzf` decompresses, `indexmap` holds the fields of a hash in insertion
//! order, `regex` matches keys, and `rustc-serialize` writes JSON strings
//! and hexadecimal text.
//!
//! # Scores
//!
//! The score of a sorted-set member is a binary64 number. This library does
//! no floating-point arithmetic: it carries a score as the snapshot stores
//! it ([`Score`]), and a formatter prints the text that its caller renders.

pub mod constants;
pub mod types;
pub mod source;
pub mod fields;
pub mod numbers;
pub mod decoder;
pub mod filter;
pub mod formatter;

pub use decoder::RdbDecoder;
pub use filter::{Filter, Simple};
pub use formatter::{Formatter, FormatterType};
pub use source::ByteSource;
pub use types::{RdbError, RdbOk, RdbResult, RdbValue, Score, Type};
