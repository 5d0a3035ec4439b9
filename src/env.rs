//! Persistent maps from identifiers to 32-bit integers, backed by `im`.
use vstd::prelude::*;

verus! {

#[verifier::external_type_specification]
#[verifier::external_body]
#[verifier::reject_recursive_types(K)]
#[verifier::reject_recursive_types(V)]
#[verifier::reject_recursive_types(S)]
pub struct ExImHashMap<K, V, S>(im::HashMap<K, V, S>);

/// An environment: identifier to integer (a value, or a stack offset).
pub type Env = im::HashMap<String, i32>;

/// The bindings that an environment holds, keyed by the identifier's characters.
pub uninterp spec fn bindings_of(m: Env) -> Map<Seq<char>, i32>;

/// Relies on `im::HashMap::new`: the new map holds no binding.
#[verifier::external_body]
pub(crate) fn env_empty() -> (r: Env)
    ensures
        bindings_of(r) =~= Map::empty(),
{
    im::HashMap::new()
}

/// Relies on `im::HashMap::get`: the value bound to `k`, if any.
#[verifier::external_body]
pub(crate) fn env_get(m: &Env, k: &String) -> (r: Option<i32>)
    ensures
        r == (if bindings_of(*m).contains_key(k@) {
            Some(bindings_of(*m)[k@])
        } else {
            None::<i32>
        }),
{
    m.get(k).copied()
}

/// Relies on `im::HashMap::contains_key`: whether `k` is bound.
#[verifier::external_body]
pub(crate) fn env_contains(m: &Env, k: &String) -> (r: bool)
    ensures
        r == bindings_of(*m).contains_key(k@),
{
    m.contains_key(k)
}

/// Relies on `im::HashMap::update`: a new map with `k` bound to `v`; `m` is
/// left as it was.
#[verifier::external_body]
pub(crate) fn env_update(m: &Env, k: String, v: i32) -> (r: Env)
    ensures
        bindings_of(r) == bindings_of(*m).insert(k@, v),
{
    m.update(k, v)
}

/// Relies on `Clone` for `im::HashMap`: the copy holds the same bindings.
#[verifier::external_body]
pub(crate) fn env_clone(m: &Env) -> (r: Env)
    ensures
        bindings_of(r) == bindings_of(*m),
{
    m.clone()
}

} // verus!
