use vstd::prelude::*;

use crate::backing::{
    encode_entries, encode_stack, stacks_get, stacks_keys, stacks_new, stacks_of,
    stacks_insert, stacks_take, StackMap,
};
use crate::json::json_of_entries;
use crate::model::{
    entries_view, opt_view, pushed, selection, snapshot_of, stack_or_empty, strs_view,
};
use crate::search::contains_bytes;

verus! {

/// A registry of named stacks of strings. Each key names one stack, made on
/// the first push under that key and removed only by `del_stack`.
///
/// Pushes and drops take the store by `&mut`, reads by `&`: threads that
/// share one store reach it through a read-write lock.
pub struct StackStore {
    inner: StackMap,
}

impl View for StackStore {
    type V = Map<Seq<char>, Seq<Seq<char>>>;

    /// Each present key mapped to its stack, oldest value first.
    closed spec fn view(&self) -> Self::V {
        stacks_of(self.inner)
    }
}

impl StackStore {
    /// An empty store.
    pub fn new() -> (s: Self)
        ensures
            s@ == Map::<Seq<char>, Seq<Seq<char>>>::empty(),
    {
        let s = StackStore { inner: stacks_new() };
        assert(s@ =~= Map::<Seq<char>, Seq<Seq<char>>>::empty());
        s
    }

    /// Pushes `value` on the end of the stack under `key`, making the stack
    /// if the key is absent. No other stack changes.
    pub fn set(&mut self, key: &str, value: String)
        ensures
            final(self)@ == pushed(old(self)@, key@, value@),
    {
        let mut stack = match stacks_take(&mut self.inner, key) {
            Some(stack) => stack,
            None => Vec::new(),
        };
        let ghost before = stack@;
        stack.push(value);
        assert(strs_view(stack@) =~= stack_or_empty(old(self)@, key@).push(value@)) by {
            assert(stack@ == before.push(value));
        }
        stacks_insert(&mut self.inner, key.to_owned(), stack);
        assert(self@ =~= pushed(old(self)@, key@, value@));
    }

    /// The JSON array of the stack under `key`, oldest value first; `None`
    /// where the key is absent.
    pub fn get(&self, key: &str) -> (r: Option<String>)
        ensures
            opt_view(r) == snapshot_of(self@, key@),
    {
        match stacks_get(&self.inner, key) {
            Some(stack) => encode_stack(&stack),
            None => None,
        }
    }

    /// The entries that a walk over `keys` finds: each key, in the order
    /// given, that is present and holds `key_filter` as a byte substring,
    /// paired with a copy of its stack.
    pub fn matching_entries(&self, keys: &Vec<String>, key_filter: &str) -> (r: Vec<(String, Vec<String>)>)
        ensures
            entries_view(r@) == selection(self@, strs_view(keys@), key_filter@),
    {
        let mut r: Vec<(String, Vec<String>)> = Vec::new();
        let mut i: usize = 0;
        while i < keys.len()
            invariant
                i <= keys@.len(),
                entries_view(r@) == selection(self@, strs_view(keys@.subrange(0, i as int)), key_filter@),
            decreases keys@.len() - i,
        {
            let key = &keys[i];
            let ghost before = r@;
            if contains_bytes(key.as_str().as_bytes(), key_filter.as_bytes()) {
                match stacks_get(&self.inner, key.as_str()) {
                    Some(stack) => {
                        r.push((key.clone(), stack));
                        assert(entries_view(r@) =~= entries_view(before).push(
                            (key@, self@[key@]),
                        ));
                    },
                    None => {},
                }
            }
            assert(strs_view(keys@.subrange(0, i + 1)).drop_last() =~= strs_view(
                keys@.subrange(0, i as int),
            ));
            i = i + 1;
        }
        assert(keys@.subrange(0, keys@.len() as int) =~= keys@);
        r
    }

    /// The JSON array of `[key, stack]` pairs, one for each present key that
    /// holds `key_filter` as a byte substring, in the map's own order. An
    /// empty filter selects every key.
    pub fn iter(&self, key_filter: &str) -> (r: Option<String>)
        ensures
            r is Some,
            exists|keys: Seq<Seq<char>>|
                keys.no_duplicates() && keys.to_set() == self@.dom() && r->0@
                    == json_of_entries(#[trigger] selection(self@, keys, key_filter@)),
    {
        let keys = stacks_keys(&self.inner);
        let entries = self.matching_entries(&keys, key_filter);
        let r = encode_entries(&entries);
        assert(r->0@ == json_of_entries(selection(self@, strs_view(keys@), key_filter@)));
        r
    }

    /// Removes the stack under `key`; whether the key was present.
    pub fn del_stack(&mut self, key: &str) -> (r: bool)
        ensures
            r == old(self)@.contains_key(key@),
            final(self)@ == old(self)@.remove(key@),
    {
        stacks_take(&mut self.inner, key).is_some()
    }
}

impl Default for StackStore {
    /// An empty store.
    fn default() -> (s: Self)
        ensures
            s@ == Map::<Seq<char>, Seq<Seq<char>>>::empty(),
    {
        StackStore::new()
    }
}

} // verus!
