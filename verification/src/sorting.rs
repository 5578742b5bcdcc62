//! Putting mesh links in order, each once.
use vstd::prelude::*;
use std::collections::BTreeMap;
use vstd::std_specs::iter::IteratorSpec;
use vstd::std_specs::btree::{spec_btree_map_iter, increasing_seq};
use crate::df::{Kin, kin_key, kin_key128, links_sorted, lemma_kin_key_order};

verus! {

/// `u128` keys follow the order laws that the `BTreeMap` specification needs.
proof fn lemma_u128_ordered()
    ensures
        vstd::laws_cmp::obeys_cmp::<u128>(),
{
    broadcast use vstd::laws_cmp::group_laws_cmp;
}

/// `u64` keys follow the order laws that the `BTreeMap` specification needs.
pub proof fn lemma_u64_ordered()
    ensures
        vstd::laws_cmp::obeys_cmp::<u64>(),
{
    broadcast use vstd::laws_cmp::group_laws_cmp;
}

/// An increasing sequence of `u128` keys is strictly increasing in value.
proof fn lemma_increasing_keys(ks: Seq<u128>)
    requires
        increasing_seq(ks),
    ensures
        forall|i: int, j: int| 0 <= i < j < ks.len() ==> ks[i] < ks[j],
{
    broadcast use vstd::std_specs::btree::group_btree_axioms;
    broadcast use vstd::laws_cmp::group_laws_cmp;

    assert forall|i: int, j: int| 0 <= i < j < ks.len() implies ks[i] < ks[j] by {
        assert(vstd::std_specs::cmp::OrdSpec::cmp_spec(&ks[i], &ks[j]) is Less);
    }
}

/// The links of `kins` in mesh order, each once (a sort followed by a dedup).
pub fn sort_links(kins: &Vec<Kin>) -> (r: Vec<Kin>)
    ensures
        links_sorted(r@),
        forall|k: Kin| r@.contains(k) <==> kins@.contains(k),
{
    broadcast use vstd::std_specs::btree::group_btree_axioms;
    proof {
        lemma_u128_ordered();
    }
    let mut m: BTreeMap<u128, Kin> = BTreeMap::new();
    for i in 0..kins.len()
        invariant
            forall|key: u128| #[trigger] m@.contains_key(key) ==> kin_key(m@[key]) == key,
            forall|key: u128|
                #[trigger] m@.contains_key(key) ==> exists|j: int| 0 <= j < i && kins@[j] == m@[key],
            forall|j: int| 0 <= j < i ==> #[trigger] m@.contains_key(kin_key128(kins@[j])),
    {
        let k = kins[i];
        m.insert(k.key(), k);
    }
    let ghost rem = spec_btree_map_iter(&m).remaining();
    let mut r: Vec<Kin> = Vec::new();
    for p in it: m.iter()
        invariant
            it.seq() == rem,
            r@ == rem.take(it.index()).map_values(|p: (&u128, &Kin)| *p.1),
    {
        r.push(*p.1);
        proof {
            assert(rem.take(it.index() + 1).map_values(|p: (&u128, &Kin)| *p.1) =~= rem.take(
                it.index(),
            ).map_values(|p: (&u128, &Kin)| *p.1).push(*p.1));
        }
    }
    proof {
        assert(rem.take(rem.len() as int) =~= rem);
        let ks = rem.map_values(|kv: (&u128, &Kin)| *kv.0);
        assert(increasing_seq(ks));
        lemma_increasing_keys(ks);
        assert forall|i: int, j: int| 0 <= i < j < r@.len() implies kin_key(r@[i]) < kin_key(r@[j]) by {
            assert(ks[i] == *rem[i].0);
            assert(ks[j] == *rem[j].0);
            assert(m@.contains_key(*rem[i].0));
            assert(m@.contains_key(*rem[j].0));
        }
        assert forall|k: Kin| r@.contains(k) <==> kins@.contains(k) by {
            if r@.contains(k) {
                let i = choose|i: int| 0 <= i < r@.len() && r@[i] == k;
                assert(m@.contains_key(*rem[i].0));
                assert(r@[i] == m@[*rem[i].0]);
                let j = choose|j: int| 0 <= j < kins@.len() && kins@[j] == m@[*rem[i].0];
                assert(kins@[j] == k);
            }
            if kins@.contains(k) {
                let j = choose|j: int| 0 <= j < kins@.len() && kins@[j] == k;
                let key = kin_key128(k);
                assert(m@.contains_key(key));
                assert(rem.contains((&key, &m@[key])));
                let i = choose|i: int| 0 <= i < rem.len() && rem[i] == (&key, &m@[key]);
                let j2 = choose|j2: int| 0 <= j2 < kins@.len() && kins@[j2] == m@[key];
                lemma_kin_key_order(kins@[j2], k);
                assert(r@[i] == k);
            }
        }
    }
    r
}

} // verus!
