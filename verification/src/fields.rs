//! The insertion-ordered map that holds the fields of a hash.
//!
//! The map is `indexmap::IndexMap`. Its contents are opaque to the verifier:
//! `hash_entries` names them, and the functions below state over that name
//! what each method of the map does.

use indexmap::IndexMap;
use vstd::prelude::*;

verus! {

#[verifier::external_type_specification]
#[verifier::external_body]
#[verifier::reject_recursive_types(K)]
#[verifier::reject_recursive_types(V)]
#[verifier::reject_recursive_types(S)]
pub struct ExIndexMap<K, V, S>(IndexMap<K, V, S>);

/// The fields of a hash with their values, in the order in which the map
/// walks them.
pub uninterp spec fn hash_entries(map: IndexMap<Vec<u8>, Vec<u8>>) -> Seq<(Seq<u8>, Seq<u8>)>;

/// The index at which `field` stands in `entries`, if it stands there.
pub open spec fn field_index(entries: Seq<(Seq<u8>, Seq<u8>)>, field: Seq<u8>) -> Option<int>
    decreases entries.len(),
{
    if entries.len() == 0 {
        None
    } else {
        match field_index(entries.drop_last(), field) {
            Some(i) => Some(i),
            None => if entries.last().0 == field {
                Some(entries.len() - 1)
            } else {
                None
            },
        }
    }
}

/// `entries` after `field` was set to `value`: a field that is there keeps
/// its place and gets the new value, a new field goes to the end.
pub open spec fn put_field(entries: Seq<(Seq<u8>, Seq<u8>)>, field: Seq<u8>, value: Seq<u8>) -> Seq<
    (Seq<u8>, Seq<u8>),
> {
    match field_index(entries, field) {
        Some(i) => entries.update(i, (field, value)),
        None => entries.push((field, value)),
    }
}

/// `IndexMap::new`: a map without entries.
#[verifier::external_body]
pub(crate) fn new_hash() -> (map: IndexMap<Vec<u8>, Vec<u8>>)
    ensures
        hash_entries(map) == Seq::<(Seq<u8>, Seq<u8>)>::empty(),
{
    IndexMap::new()
}

/// `IndexMap::insert`: a key that the map holds keeps its place in the order
/// and gets the new value; a key that it does not hold is added last.
#[verifier::external_body]
pub(crate) fn hash_insert(map: &mut IndexMap<Vec<u8>, Vec<u8>>, field: Vec<u8>, value: Vec<u8>)
    ensures
        hash_entries(*final(map)) == put_field(hash_entries(*old(map)), field@, value@),
{
    map.insert(field, value);
}

/// `IndexMap::len`: the number of entries.
#[verifier::external_body]
pub(crate) fn hash_len(map: &IndexMap<Vec<u8>, Vec<u8>>) -> (n: usize)
    ensures
        n == hash_entries(*map).len(),
{
    map.len()
}

/// `IndexMap::get_index`: the entry at `index` in the order of the map, for
/// an index below its length.
#[verifier::external_body]
pub(crate) fn hash_get_index(map: &IndexMap<Vec<u8>, Vec<u8>>, index: usize) -> (r: Option<
    (&Vec<u8>, &Vec<u8>),
>)
    ensures
        index < hash_entries(*map).len() ==> r is Some && r->Some_0.0@ == hash_entries(
            *map,
        )[index as int].0 && r->Some_0.1@ == hash_entries(*map)[index as int].1,
        index >= hash_entries(*map).len() ==> r is None,
{
    map.get_index(index)
}

} // verus!
