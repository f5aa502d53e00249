//! What the governance calls answer, field by field, and how they relate.
//!
//! Each law speaks of every answer that a call can give.
use crate::big_endian::{
    be_bytes, be_value, lemma_be_bytes_len, lemma_pow256_values, lemma_value_of_bytes,
};
use crate::governance::keys::{
    last_of_each, pool_ids, reward_ids, Loaded, RewardsKey, ValidatorAddressKey,
};
use crate::governance::laws::{covered, lemma_only_answers, lemma_one_more_group};
use crate::governance::pages::{NextPage, Page, StakeIds};
use crate::governance::requests::{staked_sui_loaded, RewardsLoaded, StakesError, StakesLoaded};
use crate::governance::stakes::{
    group_before, group_stakes, has_group, in_group, is_grouping, reward_keys, stake_for,
    stakes_in_group, staked_sui_type, validator_keys, DelegatedStake, Stake, StakeStatus,
    StakedSui, StructName,
};
use crate::governance::system_state::{
    inner_field_id, inner_field_name, inner_format, inner_request, reference_gas_price,
    system_state_object_id, u64_field_id, InnerFormat, InnerRequest, SystemStateError,
    UnexpectedVersion,
};
use crate::ids::{ObjectId, SuiAddress};
use crate::kvstore::cells::bcs_u64;
use crate::kvstore::watermarks::BcsError;
use crate::subscription::laws::lemma_filter_positions;
use crate::text::{decimal, lemma_decimal_is_read_back, number_of};
use vstd::prelude::*;

verus! {

/// The stake is that of the staked object: its id, its epochs and its principal, and active with
/// the reward that was loaded for it exactly if that is more than nothing.
pub open spec fn is_stake_of(
    stake: Stake,
    s: StakedSui,
    rewards: Map<SuiAddress, u64>,
) -> bool {
    &&& stake.staked_sui_id == s.id
    &&& stake.stake_request_epoch == s.request_epoch
    &&& stake.stake_active_epoch == s.activation_epoch
    &&& stake.principal == s.principal
    &&& stake.status is Active <==> rewards.contains_key(s.id) && rewards[s.id] > 0
    &&& stake.status matches StakeStatus::Active { estimated_reward } ==> estimated_reward
        == rewards[s.id]
}

/// The group is that of the staked object: its pool, and the validator that was loaded for the
/// pool, or the address that is all zeros.
pub open spec fn is_group_of(
    group: DelegatedStake,
    s: StakedSui,
    validators: Map<SuiAddress, SuiAddress>,
) -> bool {
    &&& group.staking_pool == s.pool_id
    &&& validators.contains_key(s.pool_id) ==> group.validator_address == validators[s.pool_id]
    &&& !validators.contains_key(s.pool_id) ==> group.validator_address.hi == 0
        && group.validator_address.lo == 0
}

/// Every staked object is in the response: some group is that of the object, and in it some stake
/// has the fields of the object.
pub proof fn lemma_every_staked_object_is_answered(
    staked: &Vec<StakedSui>,
    rewards: &Loaded<u64>,
    validators: &Loaded<SuiAddress>,
    groups: Vec<DelegatedStake>,
    k: int,
) -> (at: (int, int))
    requires
        call_ensures(group_stakes, (staked, rewards, validators), groups),
        0 <= k < staked@.len(),
    ensures
        0 <= at.0 < groups@.len(),
        is_group_of(groups@[at.0], staked@[k], validators@),
        0 <= at.1 < groups@[at.0].stakes@.len(),
        is_stake_of(groups@[at.0].stakes@[at.1], staked@[k], rewards@),
        groups@[at.0].stakes@[at.1].staked_sui_id == staked@[k].id,
        groups@[at.0].stakes@[at.1].principal == staked@[k].principal,
{
    let s = staked@[k];
    assert(has_group(groups@, validators@, s));
    let g = choose|g: int|
        0 <= g < groups@.len() && in_group(
            s,
            validators@,
            (#[trigger] groups@[g]).validator_address,
            groups@[g].staking_pool,
        );
    let positions = lemma_group_is_exact(staked, rewards, validators, groups, g);
    assert(positions.contains(k));
    let p = choose|p: int| 0 <= p < positions.len() && positions[p] == k;
    (g, p)
}

/// A group holds exactly the stakes of the staked objects that it is the group of: in the order of
/// the objects, one for each of them, with their fields.
pub proof fn lemma_group_is_exact(
    staked: &Vec<StakedSui>,
    rewards: &Loaded<u64>,
    validators: &Loaded<SuiAddress>,
    groups: Vec<DelegatedStake>,
    g: int,
) -> (positions: Seq<int>)
    requires
        call_ensures(group_stakes, (staked, rewards, validators), groups),
        0 <= g < groups@.len(),
    ensures
        groups@[g].stakes@.len() > 0,
        positions.len() == groups@[g].stakes@.len(),
        forall|p: int, q: int| 0 <= p < q < positions.len() ==> positions[p] < positions[q],
        forall|p: int|
            #![trigger positions[p]]
            0 <= p < positions.len() ==> 0 <= positions[p] < staked@.len() && is_stake_of(
                groups@[g].stakes@[p],
                staked@[positions[p]],
                rewards@,
            ),
        forall|k: int|
            0 <= k < staked@.len() ==> (positions.contains(k) <==> is_group_of(
                groups@[g],
                #[trigger] staked@[k],
                validators@,
            )),
{
    let group = groups@[g];
    let p = |s: StakedSui|
        in_group(s, validators@, group.validator_address, group.staking_pool);
    lemma_filter_positions(staked@, p)
}

/// The groups are ordered by validator, then by pool, and no two are of the same validator and
/// pool.
pub proof fn lemma_groups_are_ordered(
    staked: &Vec<StakedSui>,
    rewards: &Loaded<u64>,
    validators: &Loaded<SuiAddress>,
    groups: Vec<DelegatedStake>,
    g: int,
    h: int,
)
    requires
        call_ensures(group_stakes, (staked, rewards, validators), groups),
        0 <= g < h < groups@.len(),
    ensures
        ({
            let a = groups@[g];
            let b = groups@[h];
            let (v, w) = (a.validator_address, b.validator_address);
            let (p, q) = (a.staking_pool, b.staking_pool);
            ||| v.hi < w.hi
            ||| v.hi == w.hi && v.lo < w.lo
            ||| v.hi == w.hi && v.lo == w.lo && p.hi < q.hi
            ||| v.hi == w.hi && v.lo == w.lo && p.hi == q.hi && p.lo < q.lo
        }),
{
    assert(group_before(groups@[g], groups@[h]));
}

/// The principal of stakes together.
pub open spec fn principal_of_stakes(stakes: Seq<Stake>) -> int
    decreases stakes.len(),
{
    if stakes.len() == 0 {
        0
    } else {
        principal_of_stakes(stakes.drop_last()) + stakes.last().principal
    }
}

/// The principal of groups together.
pub open spec fn principal_of_groups(groups: Seq<DelegatedStake>) -> int
    decreases groups.len(),
{
    if groups.len() == 0 {
        0
    } else {
        principal_of_groups(groups.drop_last()) + principal_of_stakes(groups.last().stakes@)
    }
}

/// The principal of staked objects together.
pub open spec fn principal_of_objects(staked: Seq<StakedSui>) -> int
    decreases staked.len(),
{
    if staked.len() == 0 {
        0
    } else {
        principal_of_objects(staked.drop_last()) + staked.last().principal
    }
}

/// No principal is lost or made up: the groups together have that of the staked objects together.
pub proof fn lemma_principal_is_kept(
    staked: &Vec<StakedSui>,
    rewards: &Loaded<u64>,
    validators: &Loaded<SuiAddress>,
    groups: Vec<DelegatedStake>,
)
    requires
        call_ensures(group_stakes, (staked, rewards, validators), groups),
    ensures
        principal_of_groups(groups@) == principal_of_objects(staked@),
{
    let n = groups@.len() as int;
    lemma_principal_of_first(groups@, staked@, rewards@, validators@, n);
    assert(groups@.take(n) =~= groups@);
    let p = covered(groups@, validators@);
    assert forall|k: int| 0 <= k < staked@.len() implies p(#[trigger] staked@[k]) by {}
    lemma_principal_of_all(staked@, p);
}

/// The principal of the staked objects that satisfy a condition.
spec fn principal_where(staked: Seq<StakedSui>, p: spec_fn(StakedSui) -> bool) -> int
    decreases staked.len(),
{
    if staked.len() == 0 {
        0
    } else {
        principal_where(staked.drop_last(), p) + if p(staked.last()) {
            staked.last().principal as int
        } else {
            0
        }
    }
}

proof fn lemma_principal_of_all(staked: Seq<StakedSui>, p: spec_fn(StakedSui) -> bool)
    requires
        forall|k: int| 0 <= k < staked.len() ==> p(#[trigger] staked[k]),
    ensures
        principal_where(staked, p) == principal_of_objects(staked),
    decreases staked.len(),
{
    if staked.len() > 0 {
        assert(p(staked[staked.len() - 1]));
        assert forall|k: int| 0 <= k < staked.drop_last().len() implies p(
            #[trigger] staked.drop_last()[k],
        ) by {
            assert(p(staked[k]));
        }
        lemma_principal_of_all(staked.drop_last(), p);
    }
}

proof fn lemma_principal_of_none(staked: Seq<StakedSui>, p: spec_fn(StakedSui) -> bool)
    requires
        forall|s: StakedSui| !#[trigger] p(s),
    ensures
        principal_where(staked, p) == 0,
    decreases staked.len(),
{
    if staked.len() > 0 {
        lemma_principal_of_none(staked.drop_last(), p);
    }
}

proof fn lemma_principal_of_either(
    staked: Seq<StakedSui>,
    p: spec_fn(StakedSui) -> bool,
    q: spec_fn(StakedSui) -> bool,
    either: spec_fn(StakedSui) -> bool,
)
    requires
        forall|s: StakedSui| #[trigger] either(s) <==> p(s) || q(s),
        forall|s: StakedSui| #[trigger] either(s) ==> !(p(s) && q(s)),
    ensures
        principal_where(staked, either) == principal_where(staked, p) + principal_where(staked, q),
    decreases staked.len(),
{
    if staked.len() > 0 {
        lemma_principal_of_either(staked.drop_last(), p, q, either);
        let _ = either(staked.last());
    }
}

proof fn lemma_principal_of_group(
    staked: Seq<StakedSui>,
    rewards: Map<SuiAddress, u64>,
    p: spec_fn(StakedSui) -> bool,
)
    ensures
        principal_of_stakes(
            staked.filter(p).map_values(|s: StakedSui| stake_for(s, rewards)),
        ) == principal_where(staked, p),
    decreases staked.len(),
{
    reveal(Seq::filter);
    let f = |s: StakedSui| stake_for(s, rewards);
    if staked.len() > 0 {
        let rest = staked.drop_last();
        lemma_principal_of_group(rest, rewards, p);
        if p(staked.last()) {
            let stakes = staked.filter(p).map_values(f);
            assert(stakes.drop_last() =~= rest.filter(p).map_values(f));
        }
    }
}

proof fn lemma_principal_of_first(
    groups: Seq<DelegatedStake>,
    staked: Seq<StakedSui>,
    rewards: Map<SuiAddress, u64>,
    validators: Map<SuiAddress, SuiAddress>,
    n: int,
)
    requires
        is_grouping(groups, staked, rewards, validators),
        0 <= n <= groups.len(),
    ensures
        principal_of_groups(groups.take(n)) == principal_where(
            staked,
            covered(groups.take(n), validators),
        ),
    decreases n,
{
    let now = covered(groups.take(n), validators);
    if n == 0 {
        lemma_principal_of_none(staked, now);
    } else {
        lemma_principal_of_first(groups, staked, rewards, validators, n - 1);
        let before = covered(groups.take(n - 1), validators);
        let g = groups[n - 1];
        let p = |s: StakedSui| in_group(s, validators, g.validator_address, g.staking_pool);
        assert(groups.take(n).drop_last() =~= groups.take(n - 1));
        lemma_one_more_group(groups, staked, rewards, validators, n);
        lemma_principal_of_either(staked, before, p, now);
        lemma_principal_of_group(staked, rewards, p);
        assert(g.stakes@ == stakes_in_group(
            staked,
            rewards,
            validators,
            g.validator_address,
            g.staking_pool,
        ));
    }
}

/// What was loaded for an address is the last of its results, and nothing exactly if it has none.
pub proof fn lemma_loaded_is_the_last_result<V>(
    results: Vec<(SuiAddress, V)>,
    loaded: &Loaded<V>,
    id: SuiAddress,
    r: Option<&V>,
)
    requires
        call_ensures(Loaded::<V>::from_results, (results,), *loaded),
        call_ensures(Loaded::<V>::get, (loaded, &id), r),
    ensures
        r is Some <==> exists|i: int| 0 <= i < results@.len() && (#[trigger] results@[i]).0 == id,
        r matches Some(value) ==> exists|i: int|
            0 <= i < results@.len() && (#[trigger] results@[i]).0 == id && results@[i].1 == *value
                && is_last(results@, i),
{
    lemma_only_answers(results@, id);
    if r is Some {
        lemma_value_of_last(results@, id);
    }
}

/// No later result is for the same address.
pub open spec fn is_last<V>(results: Seq<(SuiAddress, V)>, i: int) -> bool {
    forall|j: int| i < j < results.len() ==> (#[trigger] results[j]).0 != results[i].0
}

proof fn lemma_value_of_last<V>(results: Seq<(SuiAddress, V)>, id: SuiAddress)
    requires
        last_of_each(results).contains_key(id),
    ensures
        exists|i: int|
            0 <= i < results.len() && (#[trigger] results[i]).0 == id && results[i].1
                == last_of_each(results)[id] && is_last(results, i),
    decreases results.len(),
{
    let last = results.len() - 1;
    if results[last].0 == id {
        assert(is_last(results, last));
    } else {
        let rest = results.drop_last();
        lemma_value_of_last(rest, id);
        let i = choose|i: int|
            0 <= i < rest.len() && (#[trigger] rest[i]).0 == id && rest[i].1
                == last_of_each(rest)[id] && is_last(rest, i);
        assert(results[i] == rest[i]);
        assert forall|j: int| i < j < results.len() implies (#[trigger] results[j]).0
            != results[i].0 by {
            if j < last {
                assert(rest[j].0 != rest[i].0);
            }
        }
        assert(is_last(results, i));
    }
}

/// What the groups go by is what can be got of what was loaded.
pub proof fn lemma_view_is_what_is_got<V>(loaded: &Loaded<V>, id: SuiAddress, r: Option<&V>)
    requires
        call_ensures(Loaded::<V>::get, (loaded, &id), r),
    ensures
        loaded@.contains_key(id) <==> r is Some,
        r matches Some(value) ==> loaded@[id] == *value,
{
}

/// There is one key for each staked object, in order: by its id for rewards, and by its pool for
/// validators; and the addresses to ask for are those of the keys.
pub proof fn lemma_keys_of_staked_objects(
    staked: &Vec<StakedSui>,
    for_rewards: Vec<RewardsKey>,
    for_validators: Vec<ValidatorAddressKey>,
    rewards_of: &[RewardsKey],
    ids: Vec<SuiAddress>,
    pools_of: &[ValidatorAddressKey],
    pools: Vec<SuiAddress>,
)
    requires
        call_ensures(reward_keys, (staked,), for_rewards),
        call_ensures(validator_keys, (staked,), for_validators),
        rewards_of@ == for_rewards@,
        pools_of@ == for_validators@,
        call_ensures(reward_ids, (rewards_of,), ids),
        call_ensures(pool_ids, (pools_of,), pools),
    ensures
        for_rewards@.len() == staked@.len(),
        for_validators@.len() == staked@.len(),
        ids@.len() == staked@.len(),
        pools@.len() == staked@.len(),
        forall|k: int|
            0 <= k < staked@.len() ==> {
                &&& for_rewards@[k].0 == (#[trigger] staked@[k]).id
                &&& for_validators@[k].0 == staked@[k].pool_id
                &&& ids@[k] == staked@[k].id
                &&& pools@[k] == staked@[k].pool_id
            },
{
}

/// The ids of two pages are those of the first and then those of the second; the next page is
/// asked for exactly if there is one, after the cursor of the page.
pub proof fn lemma_two_pages(
    a: &mut StakeIds,
    first: Page,
    after_first: NextPage,
    b: &mut StakeIds,
    second: Page,
    after_second: NextPage,
    all: StakeIds,
    ids: Vec<ObjectId>,
)
    requires
        call_ensures(StakeIds::new, (), *old(a)),
        call_ensures(StakeIds::add_page, (a, first), after_first),
        *old(b) == *final(a),
        call_ensures(StakeIds::add_page, (b, second), after_second),
        all == *final(b),
        call_ensures(StakeIds::into_ids, (all,), ids),
    ensures
        ids@ == first.data@ + second.data@,
        after_first is Done <==> !first.has_next_page,
        after_first matches NextPage::Fetch { after_cursor } ==> after_cursor == first.next_cursor,
        after_second is Done <==> !second.has_next_page,
        after_second matches NextPage::Fetch { after_cursor } ==> after_cursor
            == second.next_cursor,
{
    assert(ids@ =~= first.data@ + second.data@);
}

/// A page adds its ids behind all those that are there, however many they are.
pub proof fn lemma_page_is_added(
    a: &mut StakeIds,
    page: Page,
    next: NextPage,
    before: StakeIds,
    ids_before: Vec<ObjectId>,
    after: StakeIds,
    ids_after: Vec<ObjectId>,
)
    requires
        call_ensures(StakeIds::add_page, (a, page), next),
        before == *old(a),
        after == *final(a),
        call_ensures(StakeIds::into_ids, (before,), ids_before),
        call_ensures(StakeIds::into_ids, (after,), ids_after),
    ensures
        ids_after@.len() == ids_before@.len() + page.data@.len(),
        forall|k: int| 0 <= k < ids_before@.len() ==> #[trigger] ids_after@[k] == ids_before@[k],
        forall|k: int|
            0 <= k < page.data@.len() ==> #[trigger] page.data@[k] == ids_after@[ids_before@.len()
                + k],
{
}

/// A request goes on with the staked objects as they were loaded, and fails with what was reported
/// where loading fails.
pub proof fn lemma_request_steps(
    staked: Vec<StakedSui>,
    reason: String,
    a: Result<StakesLoaded, StakesError>,
    b: Result<StakesLoaded, StakesError>,
    stakes: StakesLoaded,
    rewards: Loaded<u64>,
    c: Result<RewardsLoaded, StakesError>,
    d: Result<RewardsLoaded, StakesError>,
    loaded: RewardsLoaded,
    e: Result<Vec<DelegatedStake>, StakesError>,
)
    requires
        call_ensures(staked_sui_loaded, (Ok(staked),), a),
        call_ensures(staked_sui_loaded, (Err(reason),), b),
        call_ensures(StakesLoaded::rewards_loaded, (stakes, Ok(rewards)), c),
        call_ensures(StakesLoaded::rewards_loaded, (stakes, Err(reason)), d),
        call_ensures(RewardsLoaded::validators_loaded, (loaded, Err(reason)), e),
    ensures
        a matches Ok(next) && next.staked@ == staked@ && next.reward_keys@.len() == staked@.len()
            && next.validator_keys@.len() == staked@.len() && forall|k: int|
            0 <= k < staked@.len() ==> next.reward_keys@[k].0 == (#[trigger] staked@[k]).id
                && next.validator_keys@[k].0 == staked@[k].pool_id,
        b matches Err(StakesError::LoadStakedSui(said)) && said == reason,
        c matches Ok(next) && next.staked@ == stakes.staked@ && next.rewards@ == rewards@,
        d matches Err(StakesError::LoadRewards(said)) && said == reason,
        e matches Err(StakesError::LoadValidatorAddresses(said)) && said == reason,
{
}

/// The response is what grouping the staked objects gives, with what was loaded for them: every
/// object is in it, with its fields.
pub proof fn lemma_response_has_every_stake(
    request: RewardsLoaded,
    validators: Loaded<SuiAddress>,
    r: Result<Vec<DelegatedStake>, StakesError>,
    k: int,
) -> (at: (int, int))
    requires
        call_ensures(RewardsLoaded::validators_loaded, (request, Ok(validators)), r),
        0 <= k < request.staked@.len(),
    ensures
        r is Ok,
        0 <= at.0 < r->Ok_0@.len(),
        is_group_of(r->Ok_0@[at.0], request.staked@[k], validators@),
        0 <= at.1 < r->Ok_0@[at.0].stakes@.len(),
        is_stake_of(r->Ok_0@[at.0].stakes@[at.1], request.staked@[k], request.rewards@),
{
    let groups = r->Ok_0@;
    let staked = request.staked@;
    let s = staked[k];
    assert(has_group(groups, validators@, s));
    let g = choose|g: int|
        0 <= g < groups.len() && in_group(
            s,
            validators@,
            (#[trigger] groups[g]).validator_address,
            groups[g].staking_pool,
        );
    let group = groups[g];
    let p = |s: StakedSui|
        in_group(s, validators@, group.validator_address, group.staking_pool);
    let positions = lemma_filter_positions(staked, p);
    assert(p(staked[k]));
    assert(positions.contains(k));
    let i = choose|i: int| 0 <= i < positions.len() && positions[i] == k;
    (g, i)
}

/// What is reported of a failure ends with the reason that was given, and tells the failures apart.
pub proof fn lemma_failures_are_reported(reason: String, a: String, b: String, c: String)
    requires
        call_ensures(StakesError::message, (&StakesError::LoadStakedSui(reason),), a),
        call_ensures(StakesError::message, (&StakesError::LoadRewards(reason),), b),
        call_ensures(StakesError::message, (&StakesError::LoadValidatorAddresses(reason),), c),
    ensures
        a@ == "Failed to load StakedSui objects: "@ + reason@,
        b@ == "Failed to load rewards: "@ + reason@,
        c@ == "Failed to load validator addresses: "@ + reason@,
{
}

/// The gas price has the bits of the column: what is not negative stays as it is, and different
/// columns give different prices, those below zero the upper half of all.
pub proof fn lemma_gas_price(column: i64, price: u64)
    requires
        call_ensures(reference_gas_price, (column,), price),
    ensures
        column >= 0 ==> price == column,
        column < 0 ==> price - 0x1_0000_0000_0000_0000 == column,
{
}

/// The formats that are known are those of versions one and two.
pub proof fn lemma_known_versions(
    version: u64,
    format: Result<InnerFormat, UnexpectedVersion>,
    request: Result<InnerRequest, SystemStateError>,
)
    requires
        call_ensures(inner_format, (version,), format),
        call_ensures(inner_request, (version,), request),
    ensures
        format is Ok <==> 1 <= version <= 2,
        request is Ok <==> 1 <= version <= 2,
        format matches Ok(f) ==> (f is V1 <==> version == 1),
        request matches Ok(q) ==> (q.format is V1 <==> version == 1),
        format matches Err(e) ==> e.0 == version,
        request matches Err(e) ==> (e matches SystemStateError::UnexpectedVersion(u) && u.0
            == version),
{
}

/// The object to ask for is the field of the system state object, which has the number five, that
/// is named by the version in eight bytes, the least significant first.
pub proof fn lemma_object_to_ask_for(
    version: u64,
    system_state: ObjectId,
    name: Result<Vec<u8>, BcsError>,
    id: Result<ObjectId, BcsError>,
    request: Result<InnerRequest, SystemStateError>,
)
    requires
        call_ensures(system_state_object_id, (), system_state),
        call_ensures(inner_field_name, (version,), name),
        call_ensures(inner_field_id, (version,), id),
        call_ensures(inner_request, (version,), request),
    ensures
        system_state.hi == 0,
        system_state.lo == 5,
        name matches Ok(bytes) && bytes@.len() == 8 && be_value(bytes@.reverse()) == version,
        id matches Ok(i) && i.bytes() == u64_field_id(system_state.bytes(), name->Ok_0@),
        request matches Ok(q) ==> q.id.bytes() == u64_field_id(
            system_state.bytes(),
            name->Ok_0@,
        ),
{
    lemma_pow256_values();
    lemma_be_bytes_len(version as nat, 8);
    lemma_value_of_bytes(version as nat, 8);
    assert(bcs_u64(version).reverse() =~= be_bytes(version as nat, 8));
}

/// A version that is not known is reported, in digits that read as that version.
pub proof fn lemma_unexpected_version_is_reported(version: u64, r: String) -> (digits: Seq<char>)
    requires
        call_ensures(UnexpectedVersion::message, (&UnexpectedVersion(version),), r),
    ensures
        number_of(digits) == version,
        r@ == "Unexpected inner system state version: "@ + digits,
{
    lemma_decimal_is_read_back(version as nat);
    decimal(version as nat)
}

/// Staked objects are picked by the type that the system package declares.
pub proof fn lemma_type_of_staked_objects(t: StructName)
    requires
        call_ensures(staked_sui_type, (), t),
    ensures
        t.address.hi == 0,
        t.address.lo == 3,
        t.module@ == "staking_pool"@,
        t.name@ == "StakedSui"@,
{
}

} // verus!
