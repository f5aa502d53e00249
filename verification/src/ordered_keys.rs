//! Walking the keys of an ordered map.
use std::collections::BTreeMap;
use vstd::laws_cmp::obeys_cmp;
use vstd::prelude::*;
use vstd::std_specs::cmp::OrdSpec;
use vstd::std_specs::iter::IteratorSpec;

verus! {

broadcast use vstd::laws_cmp::group_laws_cmp;

/// All keys of a map, from the least to the greatest.
pub open spec fn keys_in_order<K: Ord>(keys: Seq<&K>, dom: Set<K>) -> bool {
    &&& forall|i: int, j: int|
        0 <= i < j < keys.len() ==> OrdSpec::cmp_spec(#[trigger] keys[i], #[trigger] keys[j]) is Less
    &&& forall|i: int| 0 <= i < keys.len() ==> dom.contains(*#[trigger] keys[i])
    &&& forall|k: K| #[trigger]
        dom.contains(k) ==> exists|i: int| 0 <= i < keys.len() && *#[trigger] keys[i] == k
}

/// The keys of a map are walked in order, each of them once.
pub proof fn lemma_keys_in_order<K: Ord, V>(map: &BTreeMap<K, V>)
    requires
        obeys_cmp::<K>(),
    ensures
        keys_in_order(map.keys().remaining(), map@.dom()),
{
    let keys = map.keys().remaining();
    assert(vstd::std_specs::btree::increasing_seq(keys));
    assert forall|i: int, j: int| 0 <= i < j < keys.len() implies OrdSpec::cmp_spec(
        #[trigger] keys[i],
        #[trigger] keys[j],
    ) is Less by {
        assert(OrdSpec::cmp_spec(&keys[i], &keys[j]) is Less);
    }
    let set = keys.unref().to_set();
    assert forall|i: int| 0 <= i < keys.len() implies map@.dom().contains(*#[trigger] keys[i]) by {
        assert(keys.unref()[i] == *keys[i]);
        assert(set.contains(keys.unref()[i]));
    }
    assert forall|k: K| #[trigger] map@.dom().contains(k) implies exists|i: int|
        0 <= i < keys.len() && *#[trigger] keys[i] == k by {
        assert(set.contains(k));
        let i = choose|i: int| 0 <= i < keys.unref().len() && keys.unref()[i] == k;
        assert(*keys[i] == k);
    }
}

} // verus!
