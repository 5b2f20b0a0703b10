//! Stable ordering of keyed items.

use vstd::prelude::*;
use vstd::seq_lib::{to_multiset_build, to_multiset_insert, to_multiset_len};
use vstd::multiset::lemma_multiset_empty_len;

verus! {

/// The keys ascend.
pub open spec fn keys_ascending<T>(s: Seq<(i128, T)>) -> bool {
    forall|i: int, j: int| 0 <= i < j < s.len() ==> #[trigger] s[i].0 <= #[trigger] s[j].0
}

/// Orders items by ascending key; items with equal keys keep their order.
/// The result holds exactly the items given.
pub fn sort_by_key<T>(items: Vec<(i128, T)>) -> (r: Vec<(i128, T)>)
    ensures
        keys_ascending(r@),
        r@.to_multiset() == items@.to_multiset(),
        r@.len() == items@.len(),
{
    broadcast use vstd::multiset::group_multiset_axioms;
    let mut rest = items;
    let ghost original = rest@;
    let mut out: Vec<(i128, T)> = Vec::new();
    proof {
        to_multiset_len(out@);
        lemma_multiset_empty_len(out@.to_multiset());
    }
    assert(out@.to_multiset().add(rest@.to_multiset()) =~= original.to_multiset());
    // Take items from the back, so that each goes before the equal keys
    // already placed, which came after it.
    while rest.len() > 0
        invariant
            keys_ascending(out@),
            out@.to_multiset().add(rest@.to_multiset()) == original.to_multiset(),
            out@.len() + rest@.len() == original.len(),
        decreases rest@.len(),
    {
        let ghost before = rest@;
        let item = rest.pop().unwrap();
        assert(before == rest@.push(item));
        proof {
            to_multiset_build(rest@, item);
        }
        let mut pos: usize = 0;
        while pos < out.len() && out[pos].0 < item.0
            invariant
                pos <= out@.len(),
                forall|k: int| 0 <= k < pos ==> #[trigger] out@[k].0 < item.0,
            decreases out@.len() - pos,
        {
            pos = pos + 1;
        }
        let ghost old_out = out@;
        out.insert(pos, item);
        proof {
            assert(out@ == old_out.insert(pos as int, item));
            to_multiset_insert(old_out, pos as int, item);
            assert(out@.to_multiset().add(rest@.to_multiset()) =~= old_out.to_multiset().add(before.to_multiset()));
            assert forall|i: int, j: int| 0 <= i < j < out@.len() implies #[trigger] out@[i].0 <= #[trigger] out@[j].0 by {
                if j < pos {
                } else if j == pos {
                } else if i < pos {
                    assert(old_out[i].0 < item.0);
                    if pos < old_out.len() {
                        assert(old_out[pos as int].0 >= item.0);
                        assert(old_out[i].0 <= old_out[j - 1].0);
                    }
                } else if i == pos {
                    assert(old_out[pos as int].0 >= item.0);
                    assert(old_out[pos as int].0 <= old_out[j - 1].0);
                } else {
                    assert(old_out[i - 1].0 <= old_out[j - 1].0);
                }
            }
        }
    }
    proof {
        to_multiset_len(rest@);
        lemma_multiset_empty_len(rest@.to_multiset());
    }
    assert(out@.to_multiset() =~= out@.to_multiset().add(rest@.to_multiset()));
    out
}

/// The values of `items`, ordered by ascending key (equal keys keep their
/// order); described through the sorted pairs they come from.
pub fn sorted_values<T>(items: Vec<(i128, T)>) -> (r: Vec<T>)
    ensures
        exists|s: Seq<(i128, T)>|
            keys_ascending(s) && s.to_multiset() == items@.to_multiset() && r@ == s.map_values(|p: (i128, T)| p.1),
{
    let mut sorted = sort_by_key(items);
    let ghost s = sorted@;
    let mut rev: Vec<T> = Vec::new();
    while sorted.len() > 0
        invariant
            sorted@ == s.subrange(0, sorted@.len() as int),
            sorted@.len() <= s.len(),
            rev@.len() + sorted@.len() == s.len(),
            forall|k: int| 0 <= k < rev@.len() ==> #[trigger] rev@[k] == s[s.len() - 1 - k].1,
        decreases sorted@.len(),
    {
        let (_, v) = sorted.pop().unwrap();
        rev.push(v);
    }
    let mut out: Vec<T> = Vec::new();
    while rev.len() > 0
        invariant
            out@.len() + rev@.len() == s.len(),
            forall|k: int| 0 <= k < rev@.len() ==> #[trigger] rev@[k] == s[s.len() - 1 - k].1,
            forall|k: int| 0 <= k < out@.len() ==> #[trigger] out@[k] == s[k].1,
        decreases rev@.len(),
    {
        let v = rev.pop().unwrap();
        out.push(v);
    }
    assert(out@ =~= s.map_values(|p: (i128, T)| p.1));
    out
}

} // verus!
