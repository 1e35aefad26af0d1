use vstd::prelude::*;
use vstd::utf8::encode_utf8;

use crate::json::{join_commas, json_of_stack, json_string};
use crate::model::{key_matches, pushed, selection, snapshot_of, stack_or_empty};
use crate::search::is_infix;

verus! {

/// The stacks after each value of `vs` is pushed under `k`, first to last.
pub open spec fn pushed_all(m: Map<Seq<char>, Seq<Seq<char>>>, k: Seq<char>, vs: Seq<Seq<char>>) -> Map<
    Seq<char>,
    Seq<Seq<char>>,
>
    decreases vs.len(),
{
    if vs.len() == 0 {
        m
    } else {
        pushed(pushed_all(m, k, vs.drop_last()), k, vs.last())
    }
}

/// After a push of `v` under `k`, the key is present, its stack ends with
/// `v`, and the snapshot of `k` is the JSON array of that stack, whose text
/// ends with `v` as a JSON string and the closing bracket.
pub proof fn law_push_then_snapshot(m: Map<Seq<char>, Seq<Seq<char>>>, k: Seq<char>, v: Seq<char>)
    ensures
        pushed(m, k, v).contains_key(k),
        pushed(m, k, v)[k].len() > 0,
        pushed(m, k, v)[k].last() == v,
        snapshot_of(pushed(m, k, v), k) == Some(json_of_stack(pushed(m, k, v)[k])),
        exists|front: Seq<char>|
            #[trigger] json_of_stack(pushed(m, k, v)[k]) == front + json_string(v) + seq![']'],
{
    let st = pushed(m, k, v)[k];
    let items = st.map_values(|x: Seq<char>| json_string(x));
    assert(items.last() == json_string(v));
    let front = if items.len() == 1 {
        seq!['[']
    } else {
        seq!['['] + join_commas(items.drop_last()) + seq![',']
    };
    assert(json_of_stack(st) =~= front + json_string(v) + seq![']']);
}

/// After `k` is dropped its snapshot is absent, and it stays absent through
/// pushes under other keys and drops of any key.
pub proof fn law_dropped_stays_absent(
    m: Map<Seq<char>, Seq<Seq<char>>>,
    k: Seq<char>,
    other: Seq<char>,
    v: Seq<char>,
)
    ensures
        !m.remove(k).contains_key(k),
        snapshot_of(m.remove(k), k) is None,
        !m.contains_key(k) && other != k ==> !pushed(m, other, v).contains_key(k),
        !m.contains_key(k) ==> !m.remove(other).contains_key(k),
{
}

/// After a push under `k`, a first drop of `k` finds it and a second one
/// does not.
pub proof fn law_drop_once(m: Map<Seq<char>, Seq<Seq<char>>>, k: Seq<char>, v: Seq<char>)
    ensures
        pushed(m, k, v).contains_key(k),
        !pushed(m, k, v).remove(k).contains_key(k),
{
}

/// Two pushes under one key, `v1` then `v2`, leave `v1` just before `v2`
/// at the end of the stack.
pub proof fn law_push_order(
    m: Map<Seq<char>, Seq<Seq<char>>>,
    k: Seq<char>,
    v1: Seq<char>,
    v2: Seq<char>,
)
    ensures
        pushed(pushed(m, k, v1), k, v2)[k] == stack_or_empty(m, k) + seq![v1, v2],
{
    assert(pushed(pushed(m, k, v1), k, v2)[k] =~= stack_or_empty(m, k) + seq![v1, v2]);
}

/// A push under any key keeps every present stack as a prefix of the new
/// one, so values already in a stack keep their places.
pub proof fn law_push_keeps_prefix(
    m: Map<Seq<char>, Seq<Seq<char>>>,
    k: Seq<char>,
    other: Seq<char>,
    v: Seq<char>,
)
    requires
        m.contains_key(k),
    ensures
        pushed(m, other, v).contains_key(k),
        m[k].len() <= pushed(m, other, v)[k].len(),
        pushed(m, other, v)[k].subrange(0, m[k].len() as int) == m[k],
{
    assert(pushed(m, other, v)[k].subrange(0, m[k].len() as int) =~= m[k]);
}

proof fn lemma_selection(m: Map<Seq<char>, Seq<Seq<char>>>, keys: Seq<Seq<char>>, f: Seq<char>)
    ensures
        forall|i: int|
            0 <= i < selection(m, keys, f).len() ==> {
                let e = #[trigger] selection(m, keys, f)[i];
                &&& keys.contains(e.0)
                &&& m.contains_key(e.0)
                &&& key_matches(e.0, f)
                &&& e.1 == m[e.0]
            },
        forall|k: Seq<char>|
            keys.contains(k) && m.contains_key(k) && key_matches(k, f) ==> exists|i: int|
                0 <= i < selection(m, keys, f).len() && (#[trigger] selection(m, keys, f)[i]).0
                    == k,
        keys.no_duplicates() ==> forall|i: int, j: int|
            0 <= i < j < selection(m, keys, f).len() ==> (#[trigger] selection(m, keys, f)[i]).0
                != (#[trigger] selection(m, keys, f)[j]).0,
    decreases keys.len(),
{
    if keys.len() > 0 {
        let init = keys.drop_last();
        lemma_selection(m, init, f);
        let s = selection(m, keys, f);
        let r = selection(m, init, f);
        assert forall|k: Seq<char>| init.contains(k) implies keys.contains(k) by {
            let j = choose|j: int| 0 <= j < init.len() && init[j] == k;
            assert(keys[j] == k);
        }
        assert forall|k: Seq<char>|
            keys.contains(k) && m.contains_key(k) && key_matches(k, f) implies exists|i: int|
                0 <= i < s.len() && (#[trigger] s[i]).0 == k by {
            if k == keys.last() {
                assert(s[s.len() - 1].0 == k);
            } else {
                let j = choose|j: int| 0 <= j < keys.len() && keys[j] == k;
                assert(init[j] == k);
                let i = choose|i: int| 0 <= i < r.len() && (#[trigger] r[i]).0 == k;
                assert(s[i] == r[i]);
            }
        }
        if keys.no_duplicates() {
            assert(init.no_duplicates());
            assert(!init.contains(keys.last())) by {
                if init.contains(keys.last()) {
                    let j = choose|j: int| 0 <= j < init.len() && init[j] == keys.last();
                    assert(keys[j] == keys[keys.len() - 1]);
                }
            }
        }
    }
}

/// A walk that meets every present key once selects exactly the present
/// keys that hold the filter as a byte substring, each once, each with the
/// stack that a snapshot of that key shows.
pub proof fn law_selection_exact(m: Map<Seq<char>, Seq<Seq<char>>>, keys: Seq<Seq<char>>, f: Seq<char>)
    requires
        keys.no_duplicates(),
        keys.to_set() == m.dom(),
    ensures
        forall|k: Seq<char>|
            (exists|i: int|
                0 <= i < selection(m, keys, f).len() && (#[trigger] selection(m, keys, f)[i]).0
                    == k) <==> m.contains_key(k) && key_matches(k, f),
        forall|i: int, j: int|
            0 <= i < j < selection(m, keys, f).len() ==> (#[trigger] selection(m, keys, f)[i]).0
                != (#[trigger] selection(m, keys, f)[j]).0,
        forall|i: int|
            0 <= i < selection(m, keys, f).len() ==> {
                let e = #[trigger] selection(m, keys, f)[i];
                &&& e.1 == m[e.0]
                &&& snapshot_of(m, e.0) == Some(json_of_stack(e.1))
            },
        selection(m, keys, f).map_values(|e: (Seq<char>, Seq<Seq<char>>)| e.0).to_set() == m.dom().filter(
            |k: Seq<char>| key_matches(k, f),
        ),
{
    lemma_selection(m, keys, f);
    assert forall|k: Seq<char>| m.contains_key(k) implies keys.contains(k) by {
        assert(keys.to_set().contains(k));
    }
    let sel = selection(m, keys, f);
    let ks = sel.map_values(|e: (Seq<char>, Seq<Seq<char>>)| e.0);
    assert forall|k: Seq<char>|
        ks.to_set().contains(k) <==> m.dom().filter(|k: Seq<char>| key_matches(k, f)).contains(k) by {
        if ks.to_set().contains(k) {
            let i = choose|i: int| 0 <= i < ks.len() && ks[i] == k;
            assert(sel[i].0 == k);
        }
        if m.contains_key(k) && key_matches(k, f) {
            assert(keys.contains(k));
            let i = choose|i: int| 0 <= i < sel.len() && (#[trigger] sel[i]).0 == k;
            assert(ks[i] == k);
        }
    }
    assert(ks.to_set() =~= m.dom().filter(|k: Seq<char>| key_matches(k, f)));
}

/// The empty filter: a walk that meets every present key once selects
/// exactly the present keys, each once.
pub proof fn law_empty_filter_selects_all(m: Map<Seq<char>, Seq<Seq<char>>>, keys: Seq<Seq<char>>)
    requires
        keys.no_duplicates(),
        keys.to_set() == m.dom(),
    ensures
        forall|k: Seq<char>|
            (exists|i: int|
                0 <= i < selection(m, keys, Seq::empty()).len() && (#[trigger] selection(
                    m,
                    keys,
                    Seq::empty(),
                )[i]).0 == k) <==> m.contains_key(k),
        forall|i: int, j: int|
            0 <= i < j < selection(m, keys, Seq::empty()).len() ==> (#[trigger] selection(
                m,
                keys,
                Seq::empty(),
            )[i]).0 != (#[trigger] selection(m, keys, Seq::empty())[j]).0,
{
    law_selection_exact(m, keys, Seq::empty());
    assert forall|k: Seq<char>| key_matches(k, Seq::<char>::empty()) by {
        let b = encode_utf8(k);
        assert(encode_utf8(Seq::<char>::empty()) =~= Seq::<u8>::empty());
        let e = Seq::<u8>::empty();
        assert(b.subrange(0int, 0int + e.len()) =~= e);
        assert(is_infix(e, b));
    }
    let s = selection(m, keys, Seq::empty());
    assert forall|k: Seq<char>|
        (exists|i: int| 0 <= i < s.len() && (#[trigger] s[i]).0 == k) <==> m.contains_key(k) by {
        assert(key_matches(k, Seq::<char>::empty()));
    }
}

/// Pushes of the values `vs` under `k`, in whatever order they take effect,
/// append exactly those values in that order: from an absent key the stack
/// is `vs` itself, with nothing lost and nothing repeated.
pub proof fn law_pushes_append_all(m: Map<Seq<char>, Seq<Seq<char>>>, k: Seq<char>, vs: Seq<Seq<char>>)
    ensures
        stack_or_empty(pushed_all(m, k, vs), k) == stack_or_empty(m, k) + vs,
        !m.contains_key(k) && vs.len() > 0 ==> pushed_all(m, k, vs)[k] == vs,
    decreases vs.len(),
{
    if vs.len() > 0 {
        law_pushes_append_all(m, k, vs.drop_last());
        assert(stack_or_empty(m, k) + vs =~= (stack_or_empty(m, k) + vs.drop_last()).push(vs.last()));
    } else {
        assert(stack_or_empty(m, k) + vs =~= stack_or_empty(m, k));
    }
    if !m.contains_key(k) && vs.len() > 0 {
        assert(stack_or_empty(m, k) + vs =~= vs);
    }
}

} // verus!
