use vstd::prelude::*;
use dashmap::DashMap;

use crate::json::{json_of_entries, json_of_stack};
use crate::model::{entries_view, strs_view};

verus! {

#[verifier::external_type_specification]
#[verifier::external_body]
#[verifier::reject_recursive_types(K)]
#[verifier::reject_recursive_types(V)]
#[verifier::reject_recursive_types(S)]
pub struct ExDashMap<K, V, S>(DashMap<K, V, S>);

/// The map behind a store: each key's stack, oldest value first.
pub type StackMap = DashMap<String, Vec<String>>;

/// What a map of stacks holds: each key's text mapped to the texts of its stack.
pub uninterp spec fn stacks_of(m: StackMap) -> Map<Seq<char>, Seq<Seq<char>>>;

/// Relies on `DashMap::new`: a new map holds no entry.
#[verifier::external_body]
pub(crate) fn stacks_new() -> (r: StackMap)
    ensures
        stacks_of(r).dom() == Set::<Seq<char>>::empty(),
{
    DashMap::new()
}

/// Relies on `DashMap::remove`: the stack under `key`, if the key is
/// present; the key is absent after.
#[verifier::external_body]
pub(crate) fn stacks_take(m: &mut StackMap, key: &str) -> (r: Option<Vec<String>>)
    ensures
        r is Some <==> stacks_of(*old(m)).contains_key(key@),
        r matches Some(v) ==> strs_view(v@) == stacks_of(*old(m))[key@],
        stacks_of(*final(m)) == stacks_of(*old(m)).remove(key@),
{
    m.remove(key).map(|(_, v)| v)
}

/// Relies on `DashMap::insert`: `key` now maps to `v`; no other entry changes.
#[verifier::external_body]
pub(crate) fn stacks_insert(m: &mut StackMap, key: String, v: Vec<String>)
    ensures
        stacks_of(*final(m)) == stacks_of(*old(m)).insert(key@, strs_view(v@)),
{
    m.insert(key, v);
}

/// Relies on `DashMap::get`: a copy of the stack under `key`, if the key is present.
#[verifier::external_body]
pub(crate) fn stacks_get(m: &StackMap, key: &str) -> (r: Option<Vec<String>>)
    ensures
        r is Some <==> stacks_of(*m).contains_key(key@),
        r matches Some(v) ==> strs_view(v@) == stacks_of(*m)[key@],
{
    m.get(key).map(|s| s.value().clone())
}

/// Relies on `DashMap::iter`: each key of the map once, in the map's own order.
#[verifier::external_body]
pub(crate) fn stacks_keys(m: &StackMap) -> (r: Vec<String>)
    ensures
        strs_view(r@).no_duplicates(),
        strs_view(r@).to_set() == stacks_of(*m).dom(),
{
    m.iter().map(|e| e.key().clone()).collect()
}

/// Relies on `serde_json::to_string` on a list of strings: it fails only
/// where a `Serialize` impl fails or a map has non-string keys, neither of
/// which a list of strings has; its compact writer emits the text below.
#[verifier::external_body]
pub(crate) fn encode_stack(v: &Vec<String>) -> (r: Option<String>)
    ensures
        r is Some,
        r->0@ == json_of_stack(strs_view(v@)),
{
    serde_json::to_string(v).ok()
}

/// Relies on `serde_json::to_string` on a list of (key, list of strings)
/// pairs: it fails only where a `Serialize` impl fails or a map has
/// non-string keys, neither of which these pairs have; its compact writer
/// emits each pair as a two-element array.
#[verifier::external_body]
pub(crate) fn encode_entries(e: &Vec<(String, Vec<String>)>) -> (r: Option<String>)
    ensures
        r is Some,
        r->0@ == json_of_entries(entries_view(e@)),
{
    serde_json::to_string(e).ok()
}

} // verus!
