//! Ordered walks over the maps of the simulation.

use vstd::prelude::*;
use std::collections::BTreeMap;
use vstd::std_specs::btree::{increasing_seq, spec_keys_iter};
use vstd::std_specs::cmp::OrdSpec;
use vstd::std_specs::iter::IteratorSpec;

verus! {

broadcast use {
    vstd::std_specs::btree::group_btree_axioms,
    vstd::laws_cmp::group_laws_cmp,
    vstd::laws_cmp::lemma_ref_obeys_cmp_spec,
    vstd::std_specs::btree::axiom_key_obeys_cmp_spec_meaning,
    vstd::std_specs::btree::axiom_increasing_seq_meaning,
};

/// Strictly increasing.
pub open spec fn increasing_u64(s: Seq<u64>) -> bool {
    forall|i: int, j: int| 0 <= i < j < s.len() ==> s[i] < s[j]
}

pub open spec fn increasing_u32(s: Seq<u32>) -> bool {
    forall|i: int, j: int| 0 <= i < j < s.len() ==> s[i] < s[j]
}

/// The keys of a map of turns, in increasing order.
pub fn turn_keys<V>(m: &BTreeMap<u64, V>) -> (r: Vec<u64>)
    ensures
        r@.to_set() == m@.dom(),
        increasing_u64(r@),
        r@.len() == m@.dom().len(),
{
    let mut r: Vec<u64> = Vec::new();
    for k in it: m.keys()
        invariant
            r@ == it.seq().take(it.index()).map_values(|k: &u64| *k),
    {
        r.push(*k);
    }
    proof {
        let ks = spec_keys_iter(m).remaining();
        assert(r@ =~= ks.unref());
        assert(vstd::laws_cmp::obeys_cmp::<u64>());
        assert(vstd::laws_cmp::obeys_cmp::<&u64>());
        assert(increasing_seq(ks));
        vstd::std_specs::btree::axiom_increasing_seq_meaning(ks);
        assert forall|i: int, j: int| 0 <= i < j < r@.len() implies r@[i] < r@[j] by {
            assert(OrdSpec::cmp_spec(&ks[i], &ks[j]) is Less);
        }
    }
    r
}

/// The keys of a map of players, in increasing order.
pub fn player_keys<V>(m: &BTreeMap<u32, V>) -> (r: Vec<u32>)
    ensures
        r@.to_set() == m@.dom(),
        increasing_u32(r@),
        r@.len() == m@.dom().len(),
{
    let mut r: Vec<u32> = Vec::new();
    for k in it: m.keys()
        invariant
            r@ == it.seq().take(it.index()).map_values(|k: &u32| *k),
    {
        r.push(*k);
    }
    proof {
        let ks = spec_keys_iter(m).remaining();
        assert(r@ =~= ks.unref());
        assert(vstd::laws_cmp::obeys_cmp::<u32>());
        assert(vstd::laws_cmp::obeys_cmp::<&u32>());
        assert(increasing_seq(ks));
        vstd::std_specs::btree::axiom_increasing_seq_meaning(ks);
        assert forall|i: int, j: int| 0 <= i < j < r@.len() implies r@[i] < r@[j] by {
            assert(OrdSpec::cmp_spec(&ks[i], &ks[j]) is Less);
        }
    }
    r
}

/// Lexicographic order on pairs of an index and a player.
pub open spec fn pair_less(a: (usize, u32), b: (usize, u32)) -> bool {
    a.0 < b.0 || (a.0 == b.0 && a.1 < b.1)
}

/// Strictly increasing in lexicographic order.
pub open spec fn increasing_pairs(s: Seq<(usize, u32)>) -> bool {
    forall|i: int, j: int| 0 <= i < j < s.len() ==> pair_less(s[i], s[j])
}

/// The keys of a map keyed by pairs, in increasing order.
pub fn pair_keys<V>(m: &BTreeMap<(usize, u32), V>) -> (r: Vec<(usize, u32)>)
    ensures
        r@.to_set() == m@.dom(),
        increasing_pairs(r@),
        r@.len() == m@.dom().len(),
{
    let mut r: Vec<(usize, u32)> = Vec::new();
    for k in it: m.keys()
        invariant
            r@ == it.seq().take(it.index()).map_values(|k: &(usize, u32)| *k),
    {
        r.push(*k);
    }
    proof {
        let ks = spec_keys_iter(m).remaining();
        assert(r@ =~= ks.unref());
        assert(vstd::laws_cmp::obeys_cmp::<(usize, u32)>());
        assert(vstd::laws_cmp::obeys_cmp::<&(usize, u32)>());
        assert(increasing_seq(ks));
        vstd::std_specs::btree::axiom_increasing_seq_meaning(ks);
        assert forall|i: int, j: int| 0 <= i < j < r@.len() implies pair_less(r@[i], r@[j]) by {
            assert(OrdSpec::cmp_spec(&ks[i], &ks[j]) is Less);
        }
    }
    r
}

/// Lexicographic order on pairs of a turn and a player.
pub open spec fn turn_pair_less(a: (u64, u32), b: (u64, u32)) -> bool {
    a.0 < b.0 || (a.0 == b.0 && a.1 < b.1)
}

/// The keys of a map keyed by a turn and a player, in increasing order.
pub fn turn_pair_keys<V>(m: &BTreeMap<(u64, u32), V>) -> (r: Vec<(u64, u32)>)
    ensures
        r@.to_set() == m@.dom(),
        forall|i: int, j: int| 0 <= i < j < r@.len() ==> turn_pair_less(r@[i], r@[j]),
        r@.len() == m@.dom().len(),
{
    let mut r: Vec<(u64, u32)> = Vec::new();
    for k in it: m.keys()
        invariant
            r@ == it.seq().take(it.index()).map_values(|k: &(u64, u32)| *k),
    {
        r.push(*k);
    }
    proof {
        let ks = spec_keys_iter(m).remaining();
        assert(r@ =~= ks.unref());
        assert(vstd::laws_cmp::obeys_cmp::<(u64, u32)>());
        assert(vstd::laws_cmp::obeys_cmp::<&(u64, u32)>());
        assert(increasing_seq(ks));
        vstd::std_specs::btree::axiom_increasing_seq_meaning(ks);
        assert forall|i: int, j: int| 0 <= i < j < r@.len() implies turn_pair_less(r@[i], r@[j]) by {
            assert(OrdSpec::cmp_spec(&ks[i], &ks[j]) is Less);
        }
    }
    r
}

/// The keys of a map, each once.
pub fn map_keys<K: Copy + Ord, V>(m: &BTreeMap<K, V>) -> (r: Vec<K>)
    requires
        vstd::laws_cmp::obeys_cmp::<K>(),
    ensures
        r@.to_set() == m@.dom(),
        r@.no_duplicates(),
        r@.len() == m@.dom().len(),
{
    let mut r: Vec<K> = Vec::new();
    for k in it: m.keys()
        invariant
            r@ == it.seq().take(it.index()).map_values(|k: &K| *k),
    {
        r.push(*k);
    }
    proof {
        let ks = spec_keys_iter(m).remaining();
        assert(r@ =~= ks.unref());
    }
    r
}

/// A copy of a vector of plain values.
pub fn copy_vec<T: Copy>(v: &Vec<T>) -> (r: Vec<T>)
    ensures
        r@ == v@,
{
    let mut r: Vec<T> = Vec::new();
    let n = v.len();
    let mut i: usize = 0;
    while i < n
        invariant
            n == v@.len(),
            i <= n,
            r@ == v@.take(i as int),
        decreases n - i,
    {
        r.push(v[i]);
        i = i + 1;
        assert(r@ =~= v@.take(i as int));
    }
    assert(v@.take(n as int) =~= v@);
    r
}

} // verus!
