use vstd::prelude::*;

verus! {

#[verifier::external_type_specification]
#[verifier::external_body]
#[verifier::reject_recursive_types(K)]
#[verifier::reject_recursive_types(V)]
#[verifier::reject_recursive_types(S)]
pub struct ExDashMap<K, V, S>(dashmap::DashMap<K, V, S>);

#[verifier::external_type_specification]
#[verifier::external_body]
pub struct ExFxHasher(rustc_hash::FxHasher);

#[verifier::external_type_specification]
#[verifier::external_body]
#[verifier::reject_recursive_types(H)]
pub struct ExBuildHasherDefault<H>(std::hash::BuildHasherDefault<H>);

/// The concurrent map the registry uses to find the cell index of a type
/// key: a `dashmap::DashMap` hashed with `rustc_hash::FxHasher`.
pub(crate) type KeyIndex = dashmap::DashMap<
    u64,
    usize,
    std::hash::BuildHasherDefault<rustc_hash::FxHasher>,
>;

/// The entries a `KeyIndex` holds, as a mathematical map.
pub uninterp spec fn key_index_view(m: KeyIndex) -> Map<u64, usize>;

/// Relies on dashmap::DashMap::default: a freshly built map holds no entries.
#[verifier::external_body]
pub(crate) fn key_index_new() -> (r: KeyIndex)
    ensures
        forall|k: u64| !key_index_view(r).dom().contains(k),
{
    dashmap::DashMap::default()
}

/// Relies on dashmap::DashMap::get: returns the value stored under the key,
/// or nothing when the key is absent.
#[verifier::external_body]
pub(crate) fn key_index_get(m: &KeyIndex, key: u64) -> (r: Option<usize>)
    ensures
        key_index_view(*m).dom().contains(key) ==> r == Some(key_index_view(*m)[key]),
        !key_index_view(*m).dom().contains(key) ==> r is None,
{
    m.get(&key).map(|entry| *entry.value())
}

/// Relies on dashmap::DashMap::insert: stores the value under the key,
/// replacing any earlier entry for it.
#[verifier::external_body]
pub(crate) fn key_index_insert(m: &mut KeyIndex, key: u64, value: usize)
    ensures
        key_index_view(*final(m)) == key_index_view(*old(m)).insert(key, value),
{
    m.insert(key, value);
}

/// Relies on dashmap::DashMap::iter: yields every entry of the map exactly
/// once, in no particular order.  The registry owns its map and mutates it
/// only through `&mut`, so nothing changes the entries while they are read.
#[verifier::external_body]
pub(crate) fn key_index_entries(m: &KeyIndex) -> (r: Vec<(u64, usize)>)
    ensures
        r@.len() == key_index_view(*m).dom().len(),
        forall|i: int|
            0 <= i < r@.len() ==> key_index_view(*m).dom().contains(#[trigger] r@[i].0)
                && key_index_view(*m)[r@[i].0] == r@[i].1,
        forall|k: u64|
            key_index_view(*m).dom().contains(k) ==> exists|i: int|
                0 <= i < r@.len() && (#[trigger] r@[i]).0 == k,
{
    m.iter().map(|entry| (*entry.key(), *entry.value())).collect()
}

} // verus!
