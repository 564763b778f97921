//! The index from a plugin's name to its place in a scope, kept in an
//! insertion-ordered hash map.

use indexmap::IndexMap;
use vstd::prelude::*;

verus! {

/// `indexmap::IndexMap`. Nothing is known of a map but what the functions
/// below say of its entries.
#[verifier::external_type_specification]
#[verifier::external_body]
#[verifier::reject_recursive_types(K)]
#[verifier::reject_recursive_types(V)]
#[verifier::reject_recursive_types(S)]
pub struct ExIndexMap<K, V, S>(IndexMap<K, V, S>);

/// The entries of a name index, each a name with the place it stands for, in
/// the order in which the names were first inserted.
pub uninterp spec fn index_entries(index: IndexMap<String, usize>) -> Seq<(Seq<char>, usize)>;

/// Whether some entry of `entries` has the key `name`.
pub open spec fn has_key(entries: Seq<(Seq<char>, usize)>, name: Seq<char>) -> bool {
    exists|i: int| 0 <= i < entries.len() && (#[trigger] entries[i]).0 == name
}

/// `IndexMap::new`: a map without entries.
#[verifier::external_body]
pub(crate) fn index_new() -> (index: IndexMap<String, usize>)
    ensures
        index_entries(index) == Seq::<(Seq<char>, usize)>::empty(),
{
    IndexMap::new()
}

/// `IndexMap::get`: the value stored under `name`, if the map has that key.
#[verifier::external_body]
pub(crate) fn index_get(index: &IndexMap<String, usize>, name: &str) -> (found: Option<usize>)
    ensures
        match found {
            Some(place) => index_entries(*index).contains((name@, place)),
            None => !has_key(index_entries(*index), name@),
        },
{
    index.get(name).copied()
}

/// `IndexMap::insert`: a key that the map has keeps its place and gets the
/// new value, and the old value is returned; a new key is appended last.
#[verifier::external_body]
pub(crate) fn index_insert(index: &mut IndexMap<String, usize>, name: String, place: usize) -> (previous: Option<usize>)
    ensures
        match previous {
            Some(before) => exists|i: int|
                0 <= i < index_entries(*old(index)).len()
                && #[trigger] index_entries(*old(index))[i] == (name@, before)
                && index_entries(*final(index)) == index_entries(*old(index)).update(i, (name@, place)),
            None => !has_key(index_entries(*old(index)), name@)
                && index_entries(*final(index)) == index_entries(*old(index)).push((name@, place)),
        },
{
    index.insert(name, place)
}

} // verus!
