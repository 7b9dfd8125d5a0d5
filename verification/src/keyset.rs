//! The keys of the library's maps, as vectors.
use std::collections::HashMap;
use vstd::prelude::*;
use vstd::std_specs::hash::spec_keys_iter;
use vstd::std_specs::iter::IteratorSpec;

verus! {

broadcast use {vstd::std_specs::hash::group_hash_axioms, vstd::seq_lib::group_seq_properties};

/// Every element of `s` is smaller than every element after it.
pub open spec fn ascending(s: Seq<u128>) -> bool {
    forall|i: int, j: int| 0 <= i < j < s.len() ==> s[i] < s[j]
}

/// The keys of `m`, each once, in no particular order.
pub(crate) fn map_keys<V>(m: &HashMap<u128, V>) -> (ks: Vec<u128>)
    ensures
        ks@.no_duplicates(),
        ks@.to_set() == m@.dom(),
        ks@.len() == m@.dom().len(),
{
    let mut ks: Vec<u128> = Vec::new();
    let ghost all = spec_keys_iter(m).remaining();
    for k in it: m.keys()
        invariant
            it.seq() == all,
            ks@.len() == it.index(),
            forall|j: int| 0 <= j < it.index() ==> ks@[j] == *all[j],
    {
        ks.push(*k);
    }
    assert(ks@ =~= all.unref());
    ks
}

proof fn lemma_insert_to_set(s: Seq<u128>, j: int, x: u128)
    requires
        0 <= j <= s.len(),
    ensures
        s.insert(j, x).to_set() == s.to_set().insert(x),
{
    let t = s.insert(j, x);
    s.insert_ensures(j, x);
    assert forall|y: u128| t.contains(y) <==> (s.contains(y) || y == x) by {
        if t.contains(y) {
            let k = choose|k: int| 0 <= k < t.len() && t[k] == y;
            if k < j {
                assert(s[k] == y);
            } else if k > j {
                assert(s[k - 1] == y);
            }
        }
        if s.contains(y) {
            let k = choose|k: int| 0 <= k < s.len() && s[k] == y;
            if k < j {
                assert(t[k] == y);
            } else {
                assert(t[k + 1] == y);
            }
        }
        if y == x {
            assert(t[j] == x);
        }
    }
    assert(t.to_set() =~= s.to_set().insert(x));
}

/// The same ids in ascending order.
pub(crate) fn sort_ids(ids: &Vec<u128>) -> (sorted: Vec<u128>)
    requires
        ids@.no_duplicates(),
    ensures
        ascending(sorted@),
        sorted@.to_set() == ids@.to_set(),
        sorted@.len() == ids@.len(),
{
    let mut sorted: Vec<u128> = Vec::new();
    let mut i: usize = 0;
    while i < ids.len()
        invariant
            i <= ids@.len(),
            ids@.no_duplicates(),
            ascending(sorted@),
            sorted@.to_set() == ids@.take(i as int).to_set(),
            sorted@.len() == i,
        decreases ids@.len() - i,
    {
        let x = ids[i];
        proof {
            if sorted@.contains(x) {
                assert(ids@.take(i as int).to_set().contains(x));
                let k = choose|k: int| 0 <= k < i && ids@.take(i as int)[k] == x;
                assert(ids@[k] == ids@[i as int]);
            }
        }
        let mut j: usize = 0;
        while j < sorted.len() && sorted[j] < x
            invariant
                j <= sorted@.len(),
                forall|k: int| 0 <= k < j ==> sorted@[k] < x,
            decreases sorted@.len() - j,
        {
            j = j + 1;
        }
        let ghost before = sorted@;
        sorted.insert(j, x);
        proof {
            before.insert_ensures(j as int, x);
            if j < before.len() {
                assert(before[j as int] != x);
            }
            assert forall|a: int, b: int| 0 <= a < b < sorted@.len() implies sorted@[a] < sorted@[b] by {
                if b < j {
                } else if a < j && b == j {
                } else if a < j {
                    assert(sorted@[b] == before[b - 1]);
                } else if a == j {
                    assert(sorted@[b] == before[b - 1]);
                    assert(before[j as int] > x || j == before.len());
                } else {
                    assert(sorted@[a] == before[a - 1]);
                    assert(sorted@[b] == before[b - 1]);
                }
            }
            lemma_insert_to_set(before, j as int, x);
            assert(ids@.take(i + 1) =~= ids@.take(i as int).push(x));
            ids@.take(i as int).lemma_push_to_set_commute(x);
        }
        i = i + 1;
    }
    assert(ids@.take(ids@.len() as int) =~= ids@);
    sorted
}

} // verus!
