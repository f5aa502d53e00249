//! Keys by which rewards and validators are loaded in batches, and what was loaded.
use crate::ids::{Key32, SuiAddress};
use std::collections::BTreeMap;
use vstd::prelude::*;

verus! {

broadcast use vstd::laws_cmp::group_laws_cmp;

/// Asks for the reward of a staked object, by its address.
#[derive(Clone, Copy, Debug, PartialEq, Eq, Hash, Structural)]
pub struct RewardsKey(pub SuiAddress);

/// Asks for the address of the validator of a staking pool, by the address of the pool.
#[derive(Clone, Copy, Debug, PartialEq, Eq, Hash, Structural)]
pub struct ValidatorAddressKey(pub SuiAddress);

/// The addresses to ask for, one for each key.
pub fn reward_ids(keys: &[RewardsKey]) -> (r: Vec<SuiAddress>)
    ensures
        r@ == keys@.map_values(|k: RewardsKey| k.0),
{
    let mut ids: Vec<SuiAddress> = Vec::new();
    let mut i: usize = 0;
    while i < keys.len()
        invariant
            i <= keys@.len(),
            ids@ == keys@.take(i as int).map_values(|k: RewardsKey| k.0),
        decreases keys@.len() - i,
    {
        ids.push(keys[i].0);
        i = i + 1;
        assert(ids@ =~= keys@.take(i as int).map_values(|k: RewardsKey| k.0));
    }
    assert(keys@.take(i as int) =~= keys@);
    ids
}

/// The addresses to ask for, one for each key.
pub fn pool_ids(keys: &[ValidatorAddressKey]) -> (r: Vec<SuiAddress>)
    ensures
        r@ == keys@.map_values(|k: ValidatorAddressKey| k.0),
{
    let mut ids: Vec<SuiAddress> = Vec::new();
    let mut i: usize = 0;
    while i < keys.len()
        invariant
            i <= keys@.len(),
            ids@ == keys@.take(i as int).map_values(|k: ValidatorAddressKey| k.0),
        decreases keys@.len() - i,
    {
        ids.push(keys[i].0);
        i = i + 1;
        assert(ids@ =~= keys@.take(i as int).map_values(|k: ValidatorAddressKey| k.0));
    }
    assert(keys@.take(i as int) =~= keys@);
    ids
}

/// What was loaded, by the address that was asked for.
pub open spec fn last_of_each<V>(results: Seq<(SuiAddress, V)>) -> Map<SuiAddress, V>
    decreases results.len(),
{
    if results.len() == 0 {
        Map::empty()
    } else {
        last_of_each(results.drop_last()).insert(results.last().0, results.last().1)
    }
}

/// What was loaded, by the address that was asked for.
pub struct Loaded<V> {
    by_id: BTreeMap<Key32, V>,
}

impl<V> View for Loaded<V> {
    type V = Map<SuiAddress, V>;

    closed spec fn view(&self) -> Map<SuiAddress, V> {
        Map::new(
            |id: SuiAddress| self.by_id@.contains_key(id.spec_key()),
            |id: SuiAddress| self.by_id@[id.spec_key()],
        )
    }
}

impl<V> Loaded<V> {
    /// Sorts results by address; of several for one address, the last counts.
    pub fn from_results(results: Vec<(SuiAddress, V)>) -> (r: Self)
        ensures
            r@ == last_of_each(results@),
    {
        let ghost all = results@;
        let mut r: Loaded<V> = Loaded { by_id: BTreeMap::new() };
        assert(all.take(0) =~= Seq::<(SuiAddress, V)>::empty());
        assert(r@ =~= last_of_each(all.take(0)));
        for entry in it: results.into_iter()
            invariant
                it.seq() == all,
                r@ == last_of_each(all.take(it.index())),
        {
            let ghost before = r@;
            proof {
                assert(entry == all[it.index()]);
                assert(all.take(it.index() + 1).drop_last() =~= all.take(it.index()));
            }
            let (id, value) = entry;
            r.by_id.insert(id.key(), value);
            assert(r@ =~= before.insert(id, value));
        }
        assert(all.take(all.len() as int) =~= all);
        r
    }

    /// What was loaded for an address.
    pub fn get(&self, id: &SuiAddress) -> (r: Option<&V>)
        ensures
            match r {
                Some(value) => self@.contains_key(*id) && *value == self@[*id],
                None => !self@.contains_key(*id),
            },
    {
        self.by_id.get(&id.key())
    }
}

} // verus!
