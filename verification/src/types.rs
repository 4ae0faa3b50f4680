//! Records, logical kinds and errors.

use indexmap::IndexMap;
use vstd::prelude::*;
use vstd::string::StringSliceAdditionalSpecFns;

use crate::constants::encoding_type;
use crate::fields::hash_entries;
use crate::source::byte_strings;

verus! {

/// The packed container, or other structure, in which a structural check failed.
#[derive(Debug, Clone, Copy, PartialEq, Eq, Structural)]
pub enum Container {
    Ziplist,
    Zipmap,
    Listpack,
    Intset,
    Quicklist,
}

/// What was wrong inside a container.
#[derive(Debug, Clone, Copy, PartialEq, Eq, Structural)]
pub enum Defect {
    /// After the last entry the byte `0xFF` is missing: another byte stands
    /// there, or none.
    MissingTerminator,
    /// An entry starts with a flag byte that selects no encoding.
    ImpossibleFlag(u8),
    /// A zipmap length byte of 254 or 255.
    InvalidLength(u8),
    /// An intset whose element size is not 2, 4 or 8 bytes.
    InvalidElementSize(u32),
    /// A container of pairs that holds an odd number of elements.
    OddElementCount(u16),
    /// A quicklist node whose container tag is neither 1 (plain) nor 2 (packed).
    UnknownNodeContainer(u32),
}

/// Why decoding stopped.
#[derive(Debug, Clone, Copy, PartialEq, Eq, Structural)]
pub enum RdbError {
    /// The byte source holds fewer bytes than a field needs.
    IoFailure,
    /// The magic string is wrong, or the version is no number in the supported range.
    UnsupportedFormat,
    /// An encoding tag that the decoder can neither parse nor skip.
    UnknownEncoding(u8),
    /// A structural rule inside a packed container does not hold.
    CorruptPayload { context: Container, detail: Defect },
    /// The LZF stage failed, or gave another size than the header announced.
    DecompressionFailed,
    /// The text of a score is no decimal number.
    NumericParse,
}

pub type RdbResult<T> = Result<T, RdbError>;

pub type RdbOk = RdbResult<()>;

/// The logical kind of a value, whatever its on-disk layout.
#[derive(Debug, Clone, Copy, PartialEq, Eq, Structural)]
pub enum Type {
    String,
    List,
    PlainSet,
    SortedSet,
    Hash,
    Stream,
    Module,
}

/// The logical kind that a value-type tag stands for, if it stands for one.
pub open spec fn kind_of_tag(tag: u8) -> Option<Type> {
    if tag == encoding_type::STRING {
        Some(Type::String)
    } else if tag == encoding_type::HASH || tag == encoding_type::HASH_ZIPMAP || tag
        == encoding_type::HASH_ZIPLIST || tag == encoding_type::HASH_LIST_PACK {
        Some(Type::Hash)
    } else if tag == encoding_type::LIST || tag == encoding_type::LIST_ZIPLIST || tag
        == encoding_type::LIST_QUICKLIST || tag == encoding_type::LIST_QUICKLIST_2 {
        Some(Type::List)
    } else if tag == encoding_type::SET || tag == encoding_type::SET_INTSET || tag
        == encoding_type::SET_LIST_PACK {
        Some(Type::PlainSet)
    } else if tag == encoding_type::ZSET || tag == encoding_type::ZSET_ZIPLIST || tag
        == encoding_type::ZSET_2 || tag == encoding_type::ZSET_LIST_PACK {
        Some(Type::SortedSet)
    } else if tag == encoding_type::STREAM_LIST_PACKS || tag == encoding_type::STREAM_LIST_PACKS_2
        || tag == encoding_type::STREAM_LIST_PACKS_3 {
        Some(Type::Stream)
    } else if tag == encoding_type::MODULE || tag == encoding_type::MODULE_2 {
        Some(Type::Module)
    } else {
        None
    }
}

impl Type {
    /// Maps a value-type tag to its logical kind; a tag that stands for none
    /// is an unknown encoding.
    pub fn from_encoding(enc_type: u8) -> (r: RdbResult<Type>)
        ensures
            r == match kind_of_tag(enc_type) {
                Some(t) => Ok::<Type, RdbError>(t),
                None => Err::<Type, RdbError>(RdbError::UnknownEncoding(enc_type)),
            },
    {
        match enc_type {
            encoding_type::STRING => Ok(Type::String),
            encoding_type::HASH
            | encoding_type::HASH_ZIPMAP
            | encoding_type::HASH_ZIPLIST
            | encoding_type::HASH_LIST_PACK => Ok(Type::Hash),
            encoding_type::LIST
            | encoding_type::LIST_ZIPLIST
            | encoding_type::LIST_QUICKLIST
            | encoding_type::LIST_QUICKLIST_2 => Ok(Type::List),
            encoding_type::SET | encoding_type::SET_INTSET | encoding_type::SET_LIST_PACK => Ok(
                Type::PlainSet,
            ),
            encoding_type::ZSET
            | encoding_type::ZSET_ZIPLIST
            | encoding_type::ZSET_2
            | encoding_type::ZSET_LIST_PACK => Ok(Type::SortedSet),
            encoding_type::STREAM_LIST_PACKS
            | encoding_type::STREAM_LIST_PACKS_2
            | encoding_type::STREAM_LIST_PACKS_3 => Ok(Type::Stream),
            encoding_type::MODULE | encoding_type::MODULE_2 => Ok(Type::Module),
            _ => Err(RdbError::UnknownEncoding(enc_type)),
        }
    }
}

/// The logical kind that a name stands for, as the command line spells the
/// kinds.
pub open spec fn kind_of_name(name: Seq<u8>) -> Option<Type> {
    if name == "string".spec_bytes() {
        Some(Type::String)
    } else if name == "list".spec_bytes() {
        Some(Type::List)
    } else if name == "set".spec_bytes() {
        Some(Type::PlainSet)
    } else if name == "sortedset".spec_bytes() || name == "sorted-set".spec_bytes() || name
        == "sorted_set".spec_bytes() {
        Some(Type::SortedSet)
    } else if name == "hash".spec_bytes() {
        Some(Type::Hash)
    } else {
        None
    }
}

/// Whether two strings hold the same bytes.
fn same_text(a: &str, b: &str) -> (r: bool)
    ensures
        r == (a.spec_bytes() == b.spec_bytes()),
{
    let x: &[u8] = a.as_bytes();
    let y: &[u8] = b.as_bytes();
    if x.len() != y.len() {
        return false;
    }
    let mut i: usize = 0;
    while i < x.len()
        invariant
            i <= x@.len(),
            x@.len() == y@.len(),
            x@ == a.spec_bytes(),
            y@ == b.spec_bytes(),
            forall|j: int| 0 <= j < i ==> x@[j] == y@[j],
        decreases x@.len() - i,
    {
        if x[i] != y[i] {
            return false;
        }
        i = i + 1;
    }
    proof {
        assert(x@ =~= y@);
    }
    true
}

/// Maps the name of a logical kind to the kind; `None` for any other name.
pub fn parse_type(type_str: &str) -> (r: Option<Type>)
    ensures
        r == kind_of_name(type_str.spec_bytes()),
{
    if same_text(type_str, "string") {
        Some(Type::String)
    } else if same_text(type_str, "list") {
        Some(Type::List)
    } else if same_text(type_str, "set") {
        Some(Type::PlainSet)
    } else if same_text(type_str, "sortedset") || same_text(type_str, "sorted-set") || same_text(
        type_str,
        "sorted_set",
    ) {
        Some(Type::SortedSet)
    } else if same_text(type_str, "hash") {
        Some(Type::Hash)
    } else {
        None
    }
}

/// How a container was laid out on disk, with the size of the packed blob
/// where there is one.
#[derive(Debug, Clone, Copy, PartialEq, Eq, Structural)]
pub enum EncodingType {
    String,
    LinkedList,
    Hashtable,
    Skiplist,
    Intset(u64),
    Ziplist(u64),
    Zipmap(u64),
    Quicklist,
    Quicklist2,
    ZSet2,
    ListPack(u64),
}

/// The score of a sorted-set member, as the snapshot stores it.
///
/// A score is a 64-bit binary floating-point number. The decoder carries it
/// without computing on it: one of the three sentinels, the decimal text of
/// the older layouts, or the bit pattern of the newer one.
#[derive(Debug, Clone, PartialEq, Eq)]
pub enum Score {
    /// Not a number.
    NotANumber,
    /// Positive infinity.
    PositiveInfinity,
    /// Negative infinity.
    NegativeInfinity,
    /// Decimal text, to be read as a binary64 number.
    Text(Vec<u8>),
    /// The binary64 bit pattern itself.
    Bits(u64),
}

/// A score with its text as a sequence of bytes.
pub enum ScoreView {
    NotANumber,
    PositiveInfinity,
    NegativeInfinity,
    Text(Seq<u8>),
    Bits(u64),
}

impl View for Score {
    type V = ScoreView;

    open spec fn view(&self) -> ScoreView {
        match *self {
            Score::NotANumber => ScoreView::NotANumber,
            Score::PositiveInfinity => ScoreView::PositiveInfinity,
            Score::NegativeInfinity => ScoreView::NegativeInfinity,
            Score::Text(t) => ScoreView::Text(t@),
            Score::Bits(b) => ScoreView::Bits(b),
        }
    }
}

/// Bit pattern of the quiet not-a-number that stands for the sentinel.
pub const NAN_BITS: u64 = 0x7ff8_0000_0000_0000;

/// Bit pattern of positive infinity.
pub const INFINITY_BITS: u64 = 0x7ff0_0000_0000_0000;

/// Bit pattern of negative infinity.
pub const NEG_INFINITY_BITS: u64 = 0xfff0_0000_0000_0000;

impl Score {
    /// The binary64 bit pattern of this score. `parsed` is what reading the
    /// text as a binary64 number gave, and counts for a `Text` score only:
    /// `None` there means that the text is no number.
    pub fn to_bits(&self, parsed: Option<u64>) -> (r: RdbResult<u64>)
        ensures
            r == match self@ {
                ScoreView::NotANumber => Ok::<u64, RdbError>(NAN_BITS),
                ScoreView::PositiveInfinity => Ok::<u64, RdbError>(INFINITY_BITS),
                ScoreView::NegativeInfinity => Ok::<u64, RdbError>(NEG_INFINITY_BITS),
                ScoreView::Bits(b) => Ok::<u64, RdbError>(b),
                ScoreView::Text(_) => match parsed {
                    Some(b) => Ok::<u64, RdbError>(b),
                    None => Err::<u64, RdbError>(RdbError::NumericParse),
                },
            },
    {
        match self {
            Score::NotANumber => Ok(NAN_BITS),
            Score::PositiveInfinity => Ok(INFINITY_BITS),
            Score::NegativeInfinity => Ok(NEG_INFINITY_BITS),
            Score::Bits(b) => Ok(*b),
            Score::Text(_) => match parsed {
                Some(b) => Ok(b),
                None => Err(RdbError::NumericParse),
            },
        }
    }
}

/// One decoded record.
#[derive(Debug, PartialEq, Eq)]
#[allow(inconsistent_fields)]
pub enum RdbValue {
    SelectDb(u32),
    ResizeDb { db_size: u32, expires_size: u32 },
    AuxField { key: Vec<u8>, value: Vec<u8> },
    Checksum(Vec<u8>),
    String { key: Vec<u8>, value: Vec<u8>, expiry: Option<u64> },
    Hash { key: Vec<u8>, values: IndexMap<Vec<u8>, Vec<u8>>, expiry: Option<u64> },
    PlainSet { key: Vec<u8>, members: Vec<Vec<u8>>, expiry: Option<u64> },
    List { key: Vec<u8>, values: Vec<Vec<u8>>, expiry: Option<u64> },
    SortedSet { key: Vec<u8>, values: Vec<(Score, Vec<u8>)>, expiry: Option<u64> },
}

/// A record as a mathematical value: byte strings are sequences, a hash is
/// the sequence of its fields in insertion order.
#[allow(inconsistent_fields)]
pub enum Record {
    SelectDb(u32),
    ResizeDb { db_size: u32, expires_size: u32 },
    AuxField { key: Seq<u8>, value: Seq<u8> },
    Checksum(Seq<u8>),
    String { key: Seq<u8>, value: Seq<u8>, expiry: Option<u64> },
    Hash { key: Seq<u8>, values: Seq<(Seq<u8>, Seq<u8>)>, expiry: Option<u64> },
    PlainSet { key: Seq<u8>, members: Seq<Seq<u8>>, expiry: Option<u64> },
    List { key: Seq<u8>, values: Seq<Seq<u8>>, expiry: Option<u64> },
    SortedSet { key: Seq<u8>, values: Seq<(ScoreView, Seq<u8>)>, expiry: Option<u64> },
}

impl Record {
    /// The key of a key/value record; the other records bear none.
    pub open spec fn key(self) -> Option<Seq<u8>> {
        match self {
            Record::String { key, .. } => Some(key),
            Record::Hash { key, .. } => Some(key),
            Record::PlainSet { key, .. } => Some(key),
            Record::List { key, .. } => Some(key),
            Record::SortedSet { key, .. } => Some(key),
            _ => None,
        }
    }

    /// The expiry of a key/value record, in unix milliseconds.
    pub open spec fn expiry(self) -> Option<u64> {
        match self {
            Record::String { expiry, .. } => expiry,
            Record::Hash { expiry, .. } => expiry,
            Record::PlainSet { expiry, .. } => expiry,
            Record::List { expiry, .. } => expiry,
            Record::SortedSet { expiry, .. } => expiry,
            _ => None,
        }
    }

    /// The logical kind of a key/value record.
    pub open spec fn kind(self) -> Option<Type> {
        match self {
            Record::String { .. } => Some(Type::String),
            Record::Hash { .. } => Some(Type::Hash),
            Record::PlainSet { .. } => Some(Type::PlainSet),
            Record::List { .. } => Some(Type::List),
            Record::SortedSet { .. } => Some(Type::SortedSet),
            _ => None,
        }
    }
}

impl View for RdbValue {
    type V = Record;

    open spec fn view(&self) -> Record {
        match *self {
            RdbValue::SelectDb(db) => Record::SelectDb(db),
            RdbValue::ResizeDb { db_size, expires_size } => Record::ResizeDb {
                db_size,
                expires_size,
            },
            RdbValue::AuxField { key, value } => Record::AuxField { key: key@, value: value@ },
            RdbValue::Checksum(sum) => Record::Checksum(sum@),
            RdbValue::String { key, value, expiry } => Record::String {
                key: key@,
                value: value@,
                expiry,
            },
            RdbValue::Hash { key, values, expiry } => Record::Hash {
                key: key@,
                values: hash_entries(values),
                expiry,
            },
            RdbValue::PlainSet { key, members, expiry } => Record::PlainSet {
                key: key@,
                members: byte_strings(members@),
                expiry,
            },
            RdbValue::List { key, values, expiry } => Record::List {
                key: key@,
                values: byte_strings(values@),
                expiry,
            },
            RdbValue::SortedSet { key, values, expiry } => Record::SortedSet {
                key: key@,
                values: scored_view(values@),
                expiry,
            },
        }
    }
}

/// The entries of a sorted set, each score and member by its view.
pub open spec fn scored_view(entries: Seq<(Score, Vec<u8>)>) -> Seq<(ScoreView, Seq<u8>)> {
    Seq::new(entries.len(), |i: int| (entries[i].0@, entries[i].1@))
}

/// The records that a vector holds, each by its view.
pub open spec fn records_of(values: Seq<RdbValue>) -> Seq<Record> {
    Seq::new(values.len(), |i: int| values[i]@)
}

/// An entry added behind the entries of a sorted set is added behind their views.
pub proof fn lemma_scored_view_push(entries: Seq<(Score, Vec<u8>)>, entry: (Score, Vec<u8>))
    ensures
        scored_view(entries.push(entry)) == scored_view(entries).push((entry.0@, entry.1@)),
{
    assert(scored_view(entries.push(entry)) =~= scored_view(entries).push((entry.0@, entry.1@)));
}

} // verus!
