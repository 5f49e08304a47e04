use vstd::prelude::*;
use crate::lattice::AwkT;

verus! {

#[verifier::external_type_specification]
#[verifier::external_body]
#[verifier::reject_recursive_types(K)]
#[verifier::reject_recursive_types(V)]
pub struct ExChunkMap<K: Ord + Clone, V: Clone, const SIZE: usize>(immutable_chunkmap::map::Map<K, V, SIZE>);

/// The persistent map that holds a type environment.
pub type EnvMap = immutable_chunkmap::map::Map<String, AwkT, 512>;

/// What a persistent environment map binds: variable name to static type.
pub uninterp spec fn bindings(m: EnvMap) -> Map<Seq<char>, AwkT>;

/// Relies on immutable_chunkmap's `Map::new`: a new map is empty.
#[verifier::external_body]
pub(crate) fn env_map_new() -> (r: EnvMap)
    ensures
        bindings(r).dom().is_empty(),
{
    EnvMap::new()
}

/// Relies on immutable_chunkmap's `Map` being `Clone`: the copy has the same
/// bindings.
#[verifier::external_body]
pub(crate) fn env_map_clone(m: &EnvMap) -> (r: EnvMap)
    ensures
        bindings(r) == bindings(*m),
{
    m.clone()
}

/// Relies on immutable_chunkmap's `Map::insert`: the returned map binds `k`
/// to `v` and keeps every other binding of `m`.
#[verifier::external_body]
pub(crate) fn env_map_insert(m: &EnvMap, k: String, v: AwkT) -> (r: EnvMap)
    ensures
        bindings(r) == bindings(*m).insert(k@, v),
{
    m.insert(k, v).0
}

/// Relies on immutable_chunkmap's `Map::get`: the binding of `k`, if any
/// (keys are compared by `String`'s `Ord`, which compares contents).
#[verifier::external_body]
pub(crate) fn env_map_get(m: &EnvMap, k: &String) -> (r: Option<AwkT>)
    ensures
        r == (if bindings(*m).contains_key(k@) {
            Some(bindings(*m)[k@])
        } else {
            None
        }),
{
    m.get(k).copied()
}

/// Relies on immutable_chunkmap's iteration over `&Map`: every binding is
/// visited exactly once.
#[verifier::external_body]
pub(crate) fn env_map_entries(m: &EnvMap) -> (r: Vec<(String, AwkT)>)
    ensures
        forall|i: int|
            0 <= i < r.len() ==> bindings(*m).contains_key(#[trigger] r@[i].0@) && bindings(*m)[r@[i].0@]
                == r@[i].1,
        forall|k: Seq<char>|
            bindings(*m).contains_key(k) ==> exists|i: int| 0 <= i < r.len() && #[trigger] r@[i].0@ == k,
        forall|i: int, j: int| 0 <= i < j < r.len() ==> r@[i].0@ != r@[j].0@,
{
    m.into_iter().map(|(k, v)| (k.clone(), *v)).collect()
}

} // verus!
