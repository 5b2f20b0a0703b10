//! Small maps from text keys to values, held as lists with unique keys.

use vstd::prelude::*;
use crate::json::str_eq;

verus! {

/// The value held for `key`.
pub open spec fn lookup<V>(v: Seq<(String, V)>, key: Seq<char>) -> Option<V>
    decreases v.len(),
{
    if v.len() == 0 {
        None
    } else if v.last().0@ == key {
        Some(v.last().1)
    } else {
        lookup(v.drop_last(), key)
    }
}

/// Each key occurs once.
pub open spec fn unique_keys<V>(v: Seq<(String, V)>) -> bool {
    forall|i: int, j: int| 0 <= i < j < v.len() ==> (#[trigger] v[i]).0@ != (#[trigger] v[j]).0@
}

/// A key held nowhere has no value.
pub proof fn lemma_lookup_absent<V>(v: Seq<(String, V)>, key: Seq<char>)
    requires
        forall|i: int| 0 <= i < v.len() ==> (#[trigger] v[i]).0@ != key,
    ensures
        lookup(v, key) is None,
    decreases v.len(),
{
    if v.len() > 0 {
        lemma_lookup_absent(v.drop_last(), key);
    }
}

/// With unique keys, each entry is what its key looks up.
pub proof fn lemma_lookup_at<V>(v: Seq<(String, V)>, i: int)
    requires
        unique_keys(v),
        0 <= i < v.len(),
    ensures
        lookup(v, v[i].0@) == Some(v[i].1),
    decreases v.len(),
{
    if i < v.len() - 1 {
        lemma_lookup_at(v.drop_last(), i);
    }
}

/// Replacing an entry's value changes the lookup of its key alone.
pub proof fn lemma_lookup_update<V>(v: Seq<(String, V)>, i: int, k: String, x: V, key: Seq<char>)
    requires
        unique_keys(v),
        0 <= i < v.len(),
        k@ == v[i].0@,
    ensures
        lookup(v.update(i, (k, x)), key) == if key == k@ { Some(x) } else { lookup(v, key) },
        unique_keys(v.update(i, (k, x))),
    decreases v.len(),
{
    let w = v.update(i, (k, x));
    if i == v.len() - 1 {
        assert(w.drop_last() =~= v.drop_last());
    } else {
        assert(w.drop_last() =~= v.drop_last().update(i, (k, x)));
        lemma_lookup_update(v.drop_last(), i, k, x, key);
    }
    assert forall|a: int, b: int| 0 <= a < b < w.len() implies (#[trigger] w[a]).0@ != (#[trigger] w[b]).0@ by {
        assert(v[a].0@ != v[b].0@);
    }
}

/// Appending a new key adds its lookup and changes no other.
pub proof fn lemma_lookup_push<V>(v: Seq<(String, V)>, k: String, x: V, key: Seq<char>)
    requires
        unique_keys(v),
        forall|i: int| 0 <= i < v.len() ==> (#[trigger] v[i]).0@ != k@,
    ensures
        lookup(v.push((k, x)), key) == if key == k@ { Some(x) } else { lookup(v, key) },
        unique_keys(v.push((k, x))),
{
    assert(v.push((k, x)).drop_last() =~= v);
}

/// The position of `key`, if it is held.
pub fn find_key<V>(v: &Vec<(String, V)>, key: &str) -> (r: Option<usize>)
    ensures
        match r {
            Some(i) => i < v@.len() && v@[i as int].0@ == key@,
            None => forall|i: int| 0 <= i < v@.len() ==> (#[trigger] v@[i]).0@ != key@,
        },
{
    let mut i: usize = 0;
    while i < v.len()
        invariant
            i <= v@.len(),
            forall|j: int| 0 <= j < i ==> (#[trigger] v@[j]).0@ != key@,
        decreases v@.len() - i,
    {
        if str_eq(v[i].0.as_str(), key) {
            return Some(i);
        }
        i = i + 1;
    }
    None
}

} // verus!
