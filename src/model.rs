use vstd::prelude::*;
use vstd::utf8::encode_utf8;

use crate::json::json_of_stack;
use crate::search::is_infix;

verus! {

/// The values of a stack, as character sequences.
pub open spec fn strs_view(v: Seq<String>) -> Seq<Seq<char>> {
    v.map_values(|s: String| s@)
}

/// The text of an optional string.
pub open spec fn opt_view(r: Option<String>) -> Option<Seq<char>> {
    match r {
        Some(s) => Some(s@),
        None => None,
    }
}

/// Key and stack of each entry of a snapshot, as character sequences.
pub open spec fn entries_view(e: Seq<(String, Vec<String>)>) -> Seq<(Seq<char>, Seq<Seq<char>>)> {
    e.map_values(|p: (String, Vec<String>)| (p.0@, strs_view(p.1@)))
}

/// The stack under `k`, or the empty stack where `k` is absent.
pub open spec fn stack_or_empty(m: Map<Seq<char>, Seq<Seq<char>>>, k: Seq<char>) -> Seq<Seq<char>> {
    if m.contains_key(k) {
        m[k]
    } else {
        Seq::empty()
    }
}

/// The stacks after `v` is pushed under `k`: the stack is created if absent.
pub open spec fn pushed(m: Map<Seq<char>, Seq<Seq<char>>>, k: Seq<char>, v: Seq<char>) -> Map<
    Seq<char>,
    Seq<Seq<char>>,
> {
    m.insert(k, stack_or_empty(m, k).push(v))
}

/// The snapshot of the stack under `k`: its JSON text, or absent where `k` is.
pub open spec fn snapshot_of(m: Map<Seq<char>, Seq<Seq<char>>>, k: Seq<char>) -> Option<Seq<char>> {
    if m.contains_key(k) {
        Some(json_of_stack(m[k]))
    } else {
        None
    }
}

/// Whether key `k` holds filter `f`, compared as UTF-8 bytes.
pub open spec fn key_matches(k: Seq<char>, f: Seq<char>) -> bool {
    is_infix(encode_utf8(f), encode_utf8(k))
}

/// The entries that a walk over `keys` selects: each present key that holds
/// `f`, with its stack, in the order of `keys`.
pub open spec fn selection(m: Map<Seq<char>, Seq<Seq<char>>>, keys: Seq<Seq<char>>, f: Seq<char>) -> Seq<
    (Seq<char>, Seq<Seq<char>>),
>
    decreases keys.len(),
{
    if keys.len() == 0 {
        Seq::empty()
    } else {
        let rest = selection(m, keys.drop_last(), f);
        let k = keys.last();
        if m.contains_key(k) && key_matches(k, f) {
            rest.push((k, m[k]))
        } else {
            rest
        }
    }
}

} // verus!
