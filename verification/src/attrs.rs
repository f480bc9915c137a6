//! The attribute store of an element: an insertion-ordered map from attribute
//! name to value, provided by the `indexmap` crate and specified here through
//! its entry sequence.

use vstd::prelude::*;

verus! {

#[verifier::external_type_specification]
#[verifier::external_body]
#[verifier::reject_recursive_types(K)]
#[verifier::reject_recursive_types(V)]
#[verifier::reject_recursive_types(S)]
pub struct ExIndexMap<K, V, S>(indexmap::IndexMap<K, V, S>);

/// What an attribute map holds: its key/value entries, in insertion order.
pub uninterp spec fn attr_entries(m: indexmap::IndexMap<String, String>) -> Seq<
    (Seq<char>, Seq<char>),
>;

/// Whether some entry carries the key `k`.
pub open spec fn entries_has_key(es: Seq<(Seq<char>, Seq<char>)>, k: Seq<char>) -> bool {
    exists|i: int| 0 <= i < es.len() && es[i].0 == k
}

/// What inserting `(k, v)` does to an entry sequence whose keys are unique:
/// an existing key keeps its place and gets the new value; a new key is
/// appended last.
pub open spec fn attr_insert(
    es: Seq<(Seq<char>, Seq<char>)>,
    k: Seq<char>,
    v: Seq<char>,
) -> Seq<(Seq<char>, Seq<char>)> {
    if entries_has_key(es, k) {
        es.map(|i: int, kv: (Seq<char>, Seq<char>)| if kv.0 == k { (kv.0, v) } else { kv })
    } else {
        es.push((k, v))
    }
}

/// Key uniqueness, which every `indexmap::IndexMap` maintains.
pub open spec fn entries_unique(es: Seq<(Seq<char>, Seq<char>)>) -> bool {
    forall|i: int, j: int| 0 <= i < j < es.len() ==> es[i].0 != es[j].0
}

/// Relies on indexmap::IndexMap::new: the new map is empty.
#[verifier::external_body]
pub(crate) fn attrs_new() -> (r: indexmap::IndexMap<String, String>)
    ensures
        attr_entries(r) == Seq::<(Seq<char>, Seq<char>)>::empty(),
{
    indexmap::IndexMap::new()
}

/// Relies on indexmap::IndexMap::len: the number of entries.
#[verifier::external_body]
pub(crate) fn attrs_len(m: &indexmap::IndexMap<String, String>) -> (r: usize)
    ensures
        r == attr_entries(*m).len(),
{
    m.len()
}

/// Relies on indexmap::IndexMap::insert: an existing key keeps its place in
/// the order and its value is updated; a new key is appended last.
#[verifier::external_body]
pub(crate) fn attrs_insert(m: &mut indexmap::IndexMap<String, String>, k: String, v: String)
    ensures
        attr_entries(*final(m)) == attr_insert(attr_entries(*old(m)), k@, v@),
{
    m.insert(k, v);
}

/// Relies on indexmap::IndexMap::get_index: the entry at a valid position, in
/// insertion order.
#[verifier::external_body]
pub(crate) fn attrs_entry_at(m: &indexmap::IndexMap<String, String>, i: usize) -> (r: (&String, &String))
    requires
        i < attr_entries(*m).len(),
    ensures
        attr_entries(*m)[i as int] == (r.0@, r.1@),
{
    let (k, v) = m.get_index(i).unwrap();
    (k, v)
}

/// Relies on indexmap::IndexMap::clone: the clone has equal entries in equal
/// order.
#[verifier::external_body]
pub(crate) fn attrs_clone(m: &indexmap::IndexMap<String, String>) -> (r: indexmap::IndexMap<
    String,
    String,
>)
    ensures
        attr_entries(r) == attr_entries(*m),
{
    m.clone()
}

} // verus!
