//! The ascending order in which a `BTreeMap` keyed by `u16` is walked.

use std::collections::BTreeMap;

use vstd::prelude::*;

verus! {

/// The members of `keys` below `bound`, in ascending order.
pub open spec fn ascending_below(keys: Set<u16>, bound: nat) -> Seq<u16>
    decreases bound,
{
    if bound == 0 {
        Seq::empty()
    } else {
        let key = (bound - 1) as u16;
        let lower = ascending_below(keys, (bound - 1) as nat);
        if keys.contains(key) {
            lower.push(key)
        } else {
            lower
        }
    }
}

/// The members of `keys`, in ascending order.
pub open spec fn ascending(keys: Set<u16>) -> Seq<u16> {
    ascending_below(keys, 0x1_0000)
}

/// [`ascending`] lists each key once, smaller keys first, and nothing else.
pub proof fn lemma_ascending(keys: Set<u16>)
    ensures
        forall|k: u16| #[trigger] ascending(keys).contains(k) <==> keys.contains(k),
        forall|i: int, j: int|
            0 <= i < j < ascending(keys).len() ==> #[trigger] ascending(keys)[i]
                < #[trigger] ascending(keys)[j],
{
    lemma_ascending_below(keys, 0x1_0000);
}

/// [`ascending_below`] lists each key below the bound once, smaller keys first, and nothing else.
proof fn lemma_ascending_below(keys: Set<u16>, bound: nat)
    requires
        bound <= 0x1_0000,
    ensures
        forall|k: u16| #[trigger]
            ascending_below(keys, bound).contains(k) <==> keys.contains(k) && k < bound,
        forall|i: int, j: int|
            0 <= i < j < ascending_below(keys, bound).len() ==> #[trigger] ascending_below(
                keys,
                bound,
            )[i] < #[trigger] ascending_below(keys, bound)[j],
    decreases bound,
{
    let all = ascending_below(keys, bound);
    if bound > 0 {
        let key = (bound - 1) as u16;
        let lower = ascending_below(keys, (bound - 1) as nat);
        lemma_ascending_below(keys, (bound - 1) as nat);
        assert forall|i: int| 0 <= i < lower.len() implies #[trigger] lower[i] < key by {
            assert(lower.contains(lower[i]));
        }
        assert forall|k: u16| #[trigger] all.contains(k) <==> keys.contains(k) && k < bound by {
            if keys.contains(k) && k < bound {
                if k == key {
                    assert(all[all.len() - 1] == k);
                } else {
                    assert(lower.contains(k));
                    let i = choose|i: int| 0 <= i < lower.len() && lower[i] == k;
                    assert(all[i] == k);
                }
            }
            if all.contains(k) {
                let i = choose|i: int| 0 <= i < all.len() && all[i] == k;
                if i < lower.len() {
                    assert(lower[i] == k);
                    assert(lower.contains(k));
                }
            }
        }
    }
}

/// Two strictly increasing sequences with the same members are the same sequence.
proof fn lemma_increasing_unique(a: Seq<u16>, b: Seq<u16>)
    requires
        forall|i: int, j: int| 0 <= i < j < a.len() ==> #[trigger] a[i] < #[trigger] a[j],
        forall|i: int, j: int| 0 <= i < j < b.len() ==> #[trigger] b[i] < #[trigger] b[j],
        forall|k: u16| #[trigger] a.contains(k) <==> b.contains(k),
    ensures
        a == b,
    decreases a.len(),
{
    if a.len() == 0 {
        if b.len() > 0 {
            assert(b.contains(b[0]));
            assert(a.contains(b[0]));
        }
    } else {
        assert(a.contains(a.last()));
        assert(b.contains(a.last()));
        let i = choose|i: int| 0 <= i < b.len() && b[i] == a.last();
        assert(b.contains(b.last()));
        assert(a.contains(b.last()));
        let j = choose|j: int| 0 <= j < a.len() && a[j] == b.last();
        assert(a.last() == b.last());
        let a_rest = a.drop_last();
        let b_rest = b.drop_last();
        assert forall|k: u16| #[trigger] a_rest.contains(k) <==> b_rest.contains(k) by {
            if a_rest.contains(k) {
                let m = choose|m: int| 0 <= m < a_rest.len() && a_rest[m] == k;
                assert(a[m] == k);
                assert(a.contains(k));
                let n = choose|n: int| 0 <= n < b.len() && b[n] == k;
                assert(b_rest[n] == k);
            }
            if b_rest.contains(k) {
                let m = choose|m: int| 0 <= m < b_rest.len() && b_rest[m] == k;
                assert(b[m] == k);
                assert(b.contains(k));
                assert(a.contains(k));
                let n = choose|n: int| 0 <= n < a.len() && a[n] == k;
                assert(a_rest[n] == k);
            }
        }
        lemma_increasing_unique(a_rest, b_rest);
        assert(a =~= a_rest.push(a.last()));
        assert(b =~= b_rest.push(b.last()));
    }
}

/// The keys of `map`, in ascending order.
pub fn keys_in_order<V>(map: &BTreeMap<u16, V>) -> (r: Vec<u16>)
    ensures
        r@ == ascending(map@.dom()),
{
    let mut keys: Vec<u16> = Vec::new();
    let entries = map.iter();
    let ghost all = vstd::std_specs::iter::IteratorSpec::remaining(&entries);
    proof {
        let walked = all.map_values(|kv: (&u16, &V)| *kv.0);
        assert(vstd::std_specs::btree::increasing_seq(walked));
        assert forall|i: int, j: int| 0 <= i < j < all.len() implies *(#[trigger] all[i]).0 < *(
        #[trigger] all[j]).0 by {
            assert(vstd::std_specs::cmp::OrdSpec::cmp_spec(&walked[i], &walked[j]) is Less);
        }
    }
    for entry in iter: entries
        invariant
            all == iter.seq(),
            keys@.len() == iter.index(),
            forall|i: int| 0 <= i < keys@.len() ==> #[trigger] keys@[i] == *all[i].0,
            forall|i: int, j: int|
                0 <= i < j < all.len() ==> *(#[trigger] all[i]).0 < *(#[trigger] all[j]).0,
            forall|i: int| 0 <= i < all.len() ==> map@.contains_key(*(#[trigger] all[i]).0),
            forall|k: u16| #[trigger] map@.contains_key(k) ==> all.contains((&k, &map@[k])),
    {
        let (key, _) = entry;
        keys.push(*key);
    }
    proof {
        let listed = ascending(map@.dom());
        lemma_ascending(map@.dom());
        assert forall|k: u16| #[trigger] keys@.contains(k) <==> listed.contains(k) by {
            if listed.contains(k) {
                assert(map@.contains_key(k));
                let i = choose|i: int|
                    0 <= i < all.len() && all[i] == (&k, &map@[k]);
                assert(keys@[i] == k);
            }
        }
        lemma_increasing_unique(keys@, listed);
    }
    keys
}

} // verus!
