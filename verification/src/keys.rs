//! Ordered walks over the keys of an id-keyed map.

use std::collections::BTreeMap;
use vstd::prelude::*;
use vstd::std_specs::btree::{axiom_spec_keys_iter, increasing_seq, spec_keys_iter};
use vstd::std_specs::cmp::OrdSpec;
use vstd::std_specs::iter::IteratorSpec;

verus! {

/// `k` is a key of `m` and no key of `m` is larger.
pub open spec fn is_max_key<V>(m: Map<usize, V>, k: usize) -> bool {
    m.contains_key(k) && forall|j: usize| m.contains_key(j) ==> j <= k
}

/// The largest key of `m`, if `m` has a largest key.
pub open spec fn spec_last_key<V>(m: Map<usize, V>) -> Option<usize> {
    if exists|k: usize| is_max_key(m, k) {
        Some(choose|k: usize| is_max_key(m, k))
    } else {
        None
    }
}

/// `s` lists every key of `m` once, smallest first.
pub open spec fn lists_keys<V>(s: Seq<usize>, m: Map<usize, V>) -> bool {
    &&& forall|k: usize| s.contains(k) <==> m.contains_key(k)
    &&& forall|i: int, j: int| 0 <= i < j < s.len() ==> s[i] < s[j]
}

/// A map has at most one largest key, so naming one settles `spec_last_key`.
pub proof fn lemma_max_key_is_last<V>(m: Map<usize, V>, k: usize)
    requires
        is_max_key(m, k),
    ensures
        spec_last_key(m) == Some(k),
{
    let c = choose|c: usize| is_max_key(m, c);
    assert(is_max_key(m, c));
    assert(c <= k && k <= c);
}

/// A map with a key has a largest key, since keys are bounded.
pub proof fn lemma_nonempty_has_last<V>(m: Map<usize, V>, k: usize)
    requires
        m.contains_key(k),
    ensures
        spec_last_key(m) matches Some(x) && is_max_key(m, x),
    decreases usize::MAX - k,
{
    if is_max_key(m, k) {
        lemma_max_key_is_last(m, k);
    } else {
        let j = choose|j: usize| m.contains_key(j) && !(j <= k);
        lemma_nonempty_has_last(m, j);
    }
}

/// The keys of `m` in increasing order.
pub fn sorted_keys<V>(m: &BTreeMap<usize, V>) -> (v: Vec<usize>)
    ensures
        lists_keys(v@, m@),
{
    let mut v: Vec<usize> = Vec::new();
    let ghost ks: Seq<&usize> = spec_keys_iter(m).remaining();
    proof {
        axiom_spec_keys_iter(m);
        broadcast use vstd::laws_cmp::lemma_ref_obeys_cmp_spec;
        assert(vstd::laws_cmp::obeys_cmp::<&usize>());
        vstd::std_specs::btree::axiom_increasing_seq_meaning(ks);
        assert(increasing_seq(ks));
        assert forall|i: int, j: int| 0 <= i < j < ks.len() implies *ks[i] < *ks[j] by {
            assert((&ks[i]).cmp_spec(&ks[j]) is Less);
        }
    }
    for k in it: m.keys()
        invariant
            it.seq() == ks,
            v@.len() == it.index(),
            forall|n: int| 0 <= n < v@.len() ==> v@[n] == *ks[n],
            ks.unref().to_set() == m@.dom(),
            forall|i: int, j: int| 0 <= i < j < ks.len() ==> *ks[i] < *ks[j],
    {
        v.push(*k);
    }
    proof {
        assert(v@ =~= ks.unref());
        assert forall|k: usize| v@.contains(k) <==> m@.contains_key(k) by {
            assert(v@.to_set().contains(k) <==> v@.contains(k));
        }
    }
    v
}

/// The largest key of `m`, or `None` when `m` is empty.
pub fn last_key<V>(m: &BTreeMap<usize, V>) -> (r: Option<usize>)
    ensures
        r == spec_last_key(m@),
        r is None <==> m@.dom() =~= Set::empty(),
{
    let mut best: Option<usize> = None;
    let ghost ks: Seq<&usize> = spec_keys_iter(m).remaining();
    let ghost mut idx: int = 0;
    proof {
        axiom_spec_keys_iter(m);
    }
    for k in it: m.keys()
        invariant
            it.seq() == ks,
            idx == it.index(),
            ks.unref().to_set() == m@.dom(),
            match best {
                Some(b) => m@.contains_key(b) && forall|n: int| 0 <= n < idx ==> *ks[n] <= b,
                None => idx == 0,
            },
    {
        let kk: usize = *k;
        assert(ks.unref().to_set().contains(kk)) by {
            assert(ks.unref()[idx] == kk);
        }
        match best {
            Some(b) => {
                if kk > b {
                    best = Some(kk);
                }
            },
            None => {
                best = Some(kk);
            },
        }
        proof {
            idx = idx + 1;
        }
    }
    proof {
        assert(idx == ks.len());
        let s = ks.unref();
        match best {
            Some(b) => {
                assert forall|j: usize| m@.contains_key(j) implies j <= b by {
                    assert(s.to_set().contains(j));
                    let n = choose|n: int| 0 <= n < s.len() && s[n] == j;
                    assert(*ks[n] == j);
                }
                lemma_max_key_is_last(m@, b);
            },
            None => {
                assert forall|j: usize| !m@.dom().contains(j) by {
                    if s.to_set().contains(j) {
                        let n = choose|n: int| 0 <= n < s.len() && s[n] == j;
                    }
                }
            },
        }
    }
    best
}

} // verus!
