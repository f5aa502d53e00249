//! Grouping stakes by validator and pool.
use crate::governance::keys::{Loaded, RewardsKey, ValidatorAddressKey};
use crate::ids::{Bytes32, ObjectId, SuiAddress};
use crate::ordered_keys::lemma_keys_in_order;
use std::collections::BTreeMap;
use vstd::prelude::*;
use vstd::std_specs::cmp::OrdSpec;
use vstd::std_specs::iter::IteratorSpec;

verus! {

broadcast use vstd::laws_cmp::group_laws_cmp;

/// A struct type on chain, without type parameters.
#[derive(Clone, Copy, Debug, PartialEq, Eq)]
pub struct StructName {
    /// The package that declares it.
    pub address: ObjectId,
    pub module: &'static str,
    pub name: &'static str,
}

/// The type of staked objects, by which they are picked out of what an owner has.
pub fn staked_sui_type() -> (r: StructName)
    ensures
        r.address == (Bytes32 { hi: 0, lo: 3 }),
        r.module@ == "staking_pool"@,
        r.name@ == "StakedSui"@,
{
    StructName {
        address: Bytes32 { hi: 0, lo: 3 },
        module: "staking_pool",
        name: "StakedSui",
    }
}

/// A staked object on chain.
#[derive(Clone, Copy, Debug, PartialEq, Eq, Structural)]
pub struct StakedSui {
    pub id: ObjectId,
    pub pool_id: ObjectId,
    pub request_epoch: u64,
    pub activation_epoch: u64,
    pub principal: u64,
}

/// Whether a stake earns anything yet.
#[derive(Clone, Copy, Debug, PartialEq, Eq, Structural)]
pub enum StakeStatus {
    Pending,
    Active { estimated_reward: u64 },
}

/// One stake of an owner.
#[derive(Clone, Copy, Debug, PartialEq, Eq, Structural)]
pub struct Stake {
    pub staked_sui_id: ObjectId,
    pub stake_request_epoch: u64,
    pub stake_active_epoch: u64,
    pub principal: u64,
    pub status: StakeStatus,
}

/// The stakes of an owner with one validator in one pool.
#[derive(Debug, PartialEq, Eq)]
pub struct DelegatedStake {
    pub validator_address: SuiAddress,
    pub staking_pool: ObjectId,
    pub stakes: Vec<Stake>,
}

/// The address of nobody.
pub open spec fn zero_address() -> SuiAddress {
    Bytes32 { hi: 0, lo: 0 }
}

/// The reward of a staked object; none if nothing was loaded for it.
pub open spec fn reward_of(s: StakedSui, rewards: Map<SuiAddress, u64>) -> u64 {
    if rewards.contains_key(s.id) {
        rewards[s.id]
    } else {
        0
    }
}

/// The validator of a staked object; nobody if nothing was loaded for its pool.
pub open spec fn validator_of(s: StakedSui, validators: Map<SuiAddress, SuiAddress>) -> SuiAddress {
    if validators.contains_key(s.pool_id) {
        validators[s.pool_id]
    } else {
        zero_address()
    }
}

/// A staked object in the response: active if and only if it has a reward.
pub open spec fn stake_for(s: StakedSui, rewards: Map<SuiAddress, u64>) -> Stake {
    Stake {
        staked_sui_id: s.id,
        stake_request_epoch: s.request_epoch,
        stake_active_epoch: s.activation_epoch,
        principal: s.principal,
        status: if reward_of(s, rewards) > 0 {
            StakeStatus::Active { estimated_reward: reward_of(s, rewards) }
        } else {
            StakeStatus::Pending
        },
    }
}

/// The validator and the pool of a staked object belong to this group.
pub open spec fn in_group(
    s: StakedSui,
    validators: Map<SuiAddress, SuiAddress>,
    validator_address: SuiAddress,
    staking_pool: ObjectId,
) -> bool {
    validator_of(s, validators) == validator_address && s.pool_id == staking_pool
}

/// The stakes of a group, in the order of the staked objects.
pub open spec fn stakes_in_group(
    staked: Seq<StakedSui>,
    rewards: Map<SuiAddress, u64>,
    validators: Map<SuiAddress, SuiAddress>,
    validator_address: SuiAddress,
    staking_pool: ObjectId,
) -> Seq<Stake> {
    staked.filter(
        |s: StakedSui| in_group(s, validators, validator_address, staking_pool),
    ).map_values(|s: StakedSui| stake_for(s, rewards))
}

/// Groups are ordered by validator, then by pool.
pub open spec fn group_before(a: DelegatedStake, b: DelegatedStake) -> bool {
    a.validator_address.before(b.validator_address) || (a.validator_address == b.validator_address
        && a.staking_pool.before(b.staking_pool))
}

/// One of the groups is that of a staked object.
pub open spec fn has_group(
    groups: Seq<DelegatedStake>,
    validators: Map<SuiAddress, SuiAddress>,
    s: StakedSui,
) -> bool {
    exists|i: int|
        0 <= i < groups.len() && in_group(
            s,
            validators,
            (#[trigger] groups[i]).validator_address,
            groups[i].staking_pool,
        )
}

/// The groups of the staked objects, in order: each that has a stake, with all of its stakes.
pub open spec fn is_grouping(
    groups: Seq<DelegatedStake>,
    staked: Seq<StakedSui>,
    rewards: Map<SuiAddress, u64>,
    validators: Map<SuiAddress, SuiAddress>,
) -> bool {
    &&& forall|i: int, j: int|
        0 <= i < j < groups.len() ==> group_before(#[trigger] groups[i], #[trigger] groups[j])
    &&& forall|i: int|
        #![trigger groups[i]]
        0 <= i < groups.len() ==> groups[i].stakes@.len() > 0 && groups[i].stakes@
            == stakes_in_group(
            staked,
            rewards,
            validators,
            groups[i].validator_address,
            groups[i].staking_pool,
        )
    &&& forall|k: int|
        #![trigger staked[k]]
        0 <= k < staked.len() ==> has_group(groups, validators, staked[k])
}

/// The keys by which the rewards of staked objects are loaded.
pub fn reward_keys(staked: &Vec<StakedSui>) -> (r: Vec<RewardsKey>)
    ensures
        r@ == staked@.map_values(|s: StakedSui| RewardsKey(s.id)),
{
    let mut keys: Vec<RewardsKey> = Vec::new();
    let mut i: usize = 0;
    while i < staked.len()
        invariant
            i <= staked@.len(),
            keys@ == staked@.take(i as int).map_values(|s: StakedSui| RewardsKey(s.id)),
        decreases staked@.len() - i,
    {
        keys.push(RewardsKey(staked[i].id));
        i = i + 1;
        assert(keys@ =~= staked@.take(i as int).map_values(|s: StakedSui| RewardsKey(s.id)));
    }
    assert(staked@.take(i as int) =~= staked@);
    keys
}

/// The keys by which the validators of staked objects are loaded.
pub fn validator_keys(staked: &Vec<StakedSui>) -> (r: Vec<ValidatorAddressKey>)
    ensures
        r@ == staked@.map_values(|s: StakedSui| ValidatorAddressKey(s.pool_id)),
{
    let mut keys: Vec<ValidatorAddressKey> = Vec::new();
    let mut i: usize = 0;
    while i < staked.len()
        invariant
            i <= staked@.len(),
            keys@ == staked@.take(i as int).map_values(
                |s: StakedSui| ValidatorAddressKey(s.pool_id),
            ),
        decreases staked@.len() - i,
    {
        keys.push(ValidatorAddressKey(staked[i].pool_id));
        i = i + 1;
        assert(keys@ =~= staked@.take(i as int).map_values(
            |s: StakedSui| ValidatorAddressKey(s.pool_id),
        ));
    }
    assert(staked@.take(i as int) =~= staked@);
    keys
}

/// A group as a map key: integers whose order is that of the validator, then of the pool.
type GroupKey = (u128, u128, u128, u128);

spec fn key_validator(key: GroupKey) -> SuiAddress {
    Bytes32 { hi: key.0, lo: key.1 }
}

spec fn key_pool(key: GroupKey) -> ObjectId {
    Bytes32 { hi: key.2, lo: key.3 }
}

/// The map holds the stakes of each group that has any.
spec fn holds_groups(
    grouped: Map<GroupKey, Vec<Stake>>,
    staked: Seq<StakedSui>,
    rewards: Map<SuiAddress, u64>,
    validators: Map<SuiAddress, SuiAddress>,
) -> bool {
    forall|key: GroupKey|
        {
            let stakes = stakes_in_group(
                staked,
                rewards,
                validators,
                key_validator(key),
                key_pool(key),
            );
            &&& #[trigger] grouped.contains_key(key) <==> stakes.len() > 0
            &&& grouped.contains_key(key) ==> grouped[key]@ == stakes
        }
}

proof fn lemma_one_more_stake(
    staked: Seq<StakedSui>,
    s: StakedSui,
    rewards: Map<SuiAddress, u64>,
    validators: Map<SuiAddress, SuiAddress>,
    validator_address: SuiAddress,
    staking_pool: ObjectId,
)
    ensures
        stakes_in_group(staked.push(s), rewards, validators, validator_address, staking_pool)
            == if in_group(s, validators, validator_address, staking_pool) {
            stakes_in_group(staked, rewards, validators, validator_address, staking_pool).push(
                stake_for(s, rewards),
            )
        } else {
            stakes_in_group(staked, rewards, validators, validator_address, staking_pool)
        },
{
    reveal(Seq::filter);
    assert(staked.push(s).drop_last() =~= staked);
    let f = |s: StakedSui| stake_for(s, rewards);
    let p = |s: StakedSui| in_group(s, validators, validator_address, staking_pool);
    if p(s) {
        assert(staked.filter(p).push(s).map_values(f) =~= staked.filter(p).map_values(f).push(
            f(s),
        ));
    }
}

/// The stakes of an owner, by validator and pool.
pub fn group_stakes(
    staked: &Vec<StakedSui>,
    rewards: &Loaded<u64>,
    validators: &Loaded<SuiAddress>,
) -> (r: Vec<DelegatedStake>)
    ensures
        is_grouping(r@, staked@, rewards@, validators@),
{
    let mut grouped: BTreeMap<GroupKey, Vec<Stake>> = BTreeMap::new();
    let mut i: usize = 0;
    proof {
        reveal(Seq::filter);
    }
    assert(staked@.take(0) =~= Seq::<StakedSui>::empty());
    while i < staked.len()
        invariant
            i <= staked@.len(),
            holds_groups(grouped@, staked@.take(i as int), rewards@, validators@),
        decreases staked@.len() - i,
    {
        let staked_sui = &staked[i];
        let estimated_reward: u64 = match rewards.get(&staked_sui.id) {
            Some(reward) => *reward,
            None => 0,
        };
        let validator_address: SuiAddress = match validators.get(&staked_sui.pool_id) {
            Some(address) => *address,
            None => Bytes32 { hi: 0, lo: 0 },
        };
        let status = if estimated_reward > 0 {
            StakeStatus::Active { estimated_reward }
        } else {
            StakeStatus::Pending
        };
        let stake = Stake {
            staked_sui_id: staked_sui.id,
            stake_request_epoch: staked_sui.request_epoch,
            stake_active_epoch: staked_sui.activation_epoch,
            principal: staked_sui.principal,
            status,
        };
        let key: GroupKey = (
            validator_address.hi,
            validator_address.lo,
            staked_sui.pool_id.hi,
            staked_sui.pool_id.lo,
        );
        let ghost before = grouped@;
        let ghost done = staked@.take(i as int);
        let mut stakes = match grouped.remove(&key) {
            Some(stakes) => stakes,
            None => Vec::new(),
        };
        assert(stakes@ =~= stakes_in_group(
            done,
            rewards@,
            validators@,
            key_validator(key),
            key_pool(key),
        )) by {
            let _ = before.contains_key(key);
        }
        stakes.push(stake);
        grouped.insert(key, stakes);
        proof {
            assert(staked@.take(i + 1) =~= done.push(*staked_sui));
            assert forall|k: GroupKey|
                {
                    let now = stakes_in_group(
                        staked@.take(i + 1),
                        rewards@,
                        validators@,
                        key_validator(k),
                        key_pool(k),
                    );
                    &&& #[trigger] grouped@.contains_key(k) <==> now.len() > 0
                    &&& grouped@.contains_key(k) ==> grouped@[k]@ == now
                } by {
                lemma_one_more_stake(
                    done,
                    *staked_sui,
                    rewards@,
                    validators@,
                    key_validator(k),
                    key_pool(k),
                );
                let _ = before.contains_key(k);
                if k != key {
                    assert(!in_group(*staked_sui, validators@, key_validator(k), key_pool(k)));
                }
            }
        }
        i = i + 1;
    }
    assert(staked@.take(i as int) =~= staked@);
    in_order(grouped, staked, rewards, validators)
}

/// The keys of a map in order.
fn sorted_keys(grouped: &BTreeMap<GroupKey, Vec<Stake>>) -> (r: Vec<GroupKey>)
    ensures
        forall|i: int, j: int| 0 <= i < j < r@.len() ==> key_less(#[trigger] r@[i], #[trigger] r@[j]),
        forall|i: int| 0 <= i < r@.len() ==> grouped@.contains_key(#[trigger] r@[i]),
        forall|k: GroupKey| #[trigger] grouped@.contains_key(k) ==> r@.contains(k),
{
    let mut r: Vec<GroupKey> = Vec::new();
    let ghost all = grouped.keys().remaining();
    for key in it: grouped.keys()
        invariant
            it.seq() == all,
            all == grouped.keys().remaining(),
            r@.len() == it.index(),
            forall|i: int| 0 <= i < r@.len() ==> r@[i] == *all[i],
    {
        assert(key == all[it.index()]);
        r.push(*key);
    }
    proof {
        lemma_keys_in_order(grouped);
        assert forall|i: int, j: int| 0 <= i < j < r@.len() implies key_less(
            #[trigger] r@[i],
            #[trigger] r@[j],
        ) by {
            assert(OrdSpec::cmp_spec(all[i], all[j]) is Less);
        }
        assert forall|i: int| 0 <= i < r@.len() implies grouped@.contains_key(#[trigger] r@[i]) by {
            assert(grouped@.dom().contains(*all[i]));
        }
        assert forall|k: GroupKey| #[trigger] grouped@.contains_key(k) implies r@.contains(k) by {
            let i = choose|i: int| 0 <= i < all.len() && *#[trigger] all[i] == k;
            assert(r@[i] == k);
        }
    }
    r
}

spec fn key_less(a: GroupKey, b: GroupKey) -> bool {
    key_validator(a).before(key_validator(b)) || (key_validator(a) == key_validator(b)
        && key_pool(a).before(key_pool(b)))
}

/// Hands out the groups in the order of their keys.
fn in_order(
    grouped: BTreeMap<GroupKey, Vec<Stake>>,
    staked: &Vec<StakedSui>,
    rewards: &Loaded<u64>,
    validators: &Loaded<SuiAddress>,
) -> (r: Vec<DelegatedStake>)
    requires
        holds_groups(grouped@, staked@, rewards@, validators@),
    ensures
        is_grouping(r@, staked@, rewards@, validators@),
{
    let keys = sorted_keys(&grouped);
    let mut left = grouped;
    let mut groups: Vec<DelegatedStake> = Vec::new();
    let mut i: usize = 0;
    while i < keys.len()
        invariant
            i <= keys@.len(),
            groups@.len() == i,
            forall|a: int, b: int|
                0 <= a < b < keys@.len() ==> key_less(#[trigger] keys@[a], #[trigger] keys@[b]),
            forall|a: int| 0 <= a < keys@.len() ==> grouped@.contains_key(#[trigger] keys@[a]),
            forall|a: int|
                i <= a < keys@.len() ==> left@.contains_key(#[trigger] keys@[a]) && left@[keys@[a]]
                    == grouped@[keys@[a]],
            forall|a: int|
                #![trigger groups@[a]]
                0 <= a < i ==> groups@[a].validator_address == key_validator(keys@[a])
                    && groups@[a].staking_pool == key_pool(keys@[a]) && groups@[a].stakes
                    == grouped@[keys@[a]],
        decreases keys@.len() - i,
    {
        let key = keys[i];
        assert(left@.contains_key(keys@[i as int]));
        match left.remove(&key) {
            Some(stakes) => {
                groups.push(
                    DelegatedStake {
                        validator_address: Bytes32 { hi: key.0, lo: key.1 },
                        staking_pool: Bytes32 { hi: key.2, lo: key.3 },
                        stakes,
                    },
                );
            },
            None => {
                assert(false);
            },
        }
        i = i + 1;
    }
    proof {
        assert forall|a: int, b: int| 0 <= a < b < groups@.len() implies group_before(
            #[trigger] groups@[a],
            #[trigger] groups@[b],
        ) by {
            assert(key_less(keys@[a], keys@[b]));
        }
        assert forall|a: int|
            #![trigger groups@[a]]
            0 <= a < groups@.len() implies groups@[a].stakes@.len() > 0 && groups@[a].stakes@
            == stakes_in_group(
            staked@,
            rewards@,
            validators@,
            groups@[a].validator_address,
            groups@[a].staking_pool,
        ) by {
            assert(grouped@.contains_key(keys@[a]));
        }
        assert forall|k: int|
            #![trigger staked@[k]]
            0 <= k < staked@.len() implies has_group(groups@, validators@, staked@[k]) by {
            let s = staked@[k];
            let v = validator_of(s, validators@);
            let key: GroupKey = (v.hi, v.lo, s.pool_id.hi, s.pool_id.lo);
            lemma_group_of_stake(staked@, rewards@, validators@, k);
            assert(grouped@.contains_key(key));
            let a = choose|a: int| 0 <= a < keys@.len() && keys@[a] == key;
            let _ = groups@[a];
        }
    }
    groups
}

/// A group that a staked object belongs to has a stake.
proof fn lemma_group_of_stake(
    staked: Seq<StakedSui>,
    rewards: Map<SuiAddress, u64>,
    validators: Map<SuiAddress, SuiAddress>,
    k: int,
)
    requires
        0 <= k < staked.len(),
    ensures
        stakes_in_group(
            staked,
            rewards,
            validators,
            validator_of(staked[k], validators),
            staked[k].pool_id,
        ).len() > 0,
{
    let p = |s: StakedSui|
        in_group(s, validators, validator_of(staked[k], validators), staked[k].pool_id);
    assert(p(staked[k]));
    assert(staked.filter(p).contains(staked[k]));
}

} // verus!
