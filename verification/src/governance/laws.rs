//! What holds of pages, of what was loaded and of groups of stakes.
use crate::governance::keys::last_of_each;
use crate::governance::pages::Page;
use crate::governance::stakes::{
    group_before, has_group, in_group, is_grouping, stake_for, stakes_in_group, DelegatedStake,
    Stake, StakedSui,
};
use crate::ids::{ObjectId, SuiAddress};
use vstd::multiset::Multiset;
use vstd::prelude::*;

verus! {

/// The ids after these pages were added, one after the other.
pub open spec fn after_pages(ids: Seq<ObjectId>, pages: Seq<Page>) -> Seq<ObjectId>
    decreases pages.len(),
{
    if pages.len() == 0 {
        ids
    } else {
        after_pages(ids + pages[0].data@, pages.drop_first())
    }
}

/// However the ids are split into pages, all of them are collected, in order.
pub proof fn lemma_pages_are_joined(pages: Seq<Page>)
    ensures
        after_pages(Seq::empty(), pages) == pages.map_values(|p: Page| p.data@).flatten(),
{
    lemma_pages_appended(Seq::empty(), pages);
}

proof fn lemma_pages_appended(ids: Seq<ObjectId>, pages: Seq<Page>)
    ensures
        after_pages(ids, pages) == ids + pages.map_values(|p: Page| p.data@).flatten(),
    decreases pages.len(),
{
    let data = pages.map_values(|p: Page| p.data@);
    if pages.len() > 0 {
        lemma_pages_appended(ids + pages[0].data@, pages.drop_first());
        assert(data.drop_first() =~= pages.drop_first().map_values(|p: Page| p.data@));
        assert(data.flatten() == data.first() + data.drop_first().flatten());
    }
    assert(after_pages(ids, pages) =~= ids + data.flatten());
}

/// Where each address is answered once, every answer counts: the order of the answers does not
/// matter.
pub proof fn lemma_answers_in_any_order<V>(results: Seq<(SuiAddress, V)>, i: int)
    requires
        forall|a: int, b: int|
            0 <= a < b < results.len() ==> (#[trigger] results[a]).0 != (#[trigger] results[b]).0,
        0 <= i < results.len(),
    ensures
        last_of_each(results).contains_key(results[i].0),
        last_of_each(results)[results[i].0] == results[i].1,
    decreases results.len(),
{
    if i < results.len() - 1 {
        assert(results[i].0 != results[results.len() - 1].0);
        assert forall|a: int, b: int|
            0 <= a < b < results.drop_last().len() implies (#[trigger] results.drop_last()[a]).0
            != (#[trigger] results.drop_last()[b]).0 by {
            assert(results[a].0 != results[b].0);
        }
        lemma_answers_in_any_order(results.drop_last(), i);
    }
}

/// Nothing is held but what was answered.
pub proof fn lemma_only_answers<V>(results: Seq<(SuiAddress, V)>, id: SuiAddress)
    ensures
        last_of_each(results).contains_key(id) <==> exists|i: int|
            0 <= i < results.len() && (#[trigger] results[i]).0 == id,
    decreases results.len(),
{
    if results.len() > 0 {
        let rest = results.drop_last();
        lemma_only_answers(rest, id);
        if last_of_each(results).contains_key(id) {
            if results.last().0 == id {
                assert(results[results.len() - 1].0 == id);
            } else {
                let i = choose|i: int| 0 <= i < rest.len() && (#[trigger] rest[i]).0 == id;
                assert(results[i].0 == id);
            }
        }
        if exists|i: int| 0 <= i < results.len() && (#[trigger] results[i]).0 == id {
            let i = choose|i: int| 0 <= i < results.len() && (#[trigger] results[i]).0 == id;
            if i < rest.len() {
                assert(rest[i].0 == id);
            }
        }
    }
}

/// There is one group for a validator and a pool, if any.
pub proof fn lemma_groups_differ(
    groups: Seq<DelegatedStake>,
    staked: Seq<StakedSui>,
    rewards: Map<SuiAddress, u64>,
    validators: Map<SuiAddress, SuiAddress>,
    i: int,
    j: int,
)
    requires
        is_grouping(groups, staked, rewards, validators),
        0 <= i < groups.len(),
        0 <= j < groups.len(),
        groups[i].validator_address == groups[j].validator_address,
        groups[i].staking_pool == groups[j].staking_pool,
    ensures
        i == j,
{
    if i < j {
        assert(group_before(groups[i], groups[j]));
    }
    if j < i {
        assert(group_before(groups[j], groups[i]));
    }
}

/// Every staked object is in one group and in no other.
pub proof fn lemma_every_stake_in_one_group(
    groups: Seq<DelegatedStake>,
    staked: Seq<StakedSui>,
    rewards: Map<SuiAddress, u64>,
    validators: Map<SuiAddress, SuiAddress>,
    k: int,
) -> (at: int)
    requires
        is_grouping(groups, staked, rewards, validators),
        0 <= k < staked.len(),
    ensures
        0 <= at < groups.len(),
        groups[at].stakes@.contains(stake_for(staked[k], rewards)),
        forall|i: int|
            0 <= i < groups.len() ==> (in_group(
                staked[k],
                validators,
                (#[trigger] groups[i]).validator_address,
                groups[i].staking_pool,
            ) <==> i == at),
{
    let s = staked[k];
    assert(has_group(groups, validators, s));
    let at = choose|i: int|
        0 <= i < groups.len() && in_group(
            s,
            validators,
            (#[trigger] groups[i]).validator_address,
            groups[i].staking_pool,
        );
    let g = groups[at];
    let p = |s: StakedSui| in_group(s, validators, g.validator_address, g.staking_pool);
    assert(p(staked[k]));
    assert(staked.filter(p).contains(s));
    let pos = choose|pos: int| 0 <= pos < staked.filter(p).len() && staked.filter(p)[pos] == s;
    assert(g.stakes@[pos] == stake_for(s, rewards));
    assert forall|i: int| 0 <= i < groups.len() implies (in_group(
        s,
        validators,
        (#[trigger] groups[i]).validator_address,
        groups[i].staking_pool,
    ) <==> i == at) by {
        if in_group(s, validators, groups[i].validator_address, groups[i].staking_pool) {
            lemma_groups_differ(groups, staked, rewards, validators, i, at);
        }
    }
    at
}

/// All stakes of the groups.
pub open spec fn all_stakes(groups: Seq<DelegatedStake>) -> Multiset<Stake>
    decreases groups.len(),
{
    if groups.len() == 0 {
        Multiset::empty()
    } else {
        all_stakes(groups.drop_last()).add(groups.last().stakes@.to_multiset())
    }
}

/// One of the groups is that of a staked object.
pub open spec fn covered(
    groups: Seq<DelegatedStake>,
    validators: Map<SuiAddress, SuiAddress>,
) -> spec_fn(StakedSui) -> bool {
    |s: StakedSui| has_group(groups, validators, s)
}

spec fn stakes_of(
    staked: Seq<StakedSui>,
    p: spec_fn(StakedSui) -> bool,
    rewards: Map<SuiAddress, u64>,
) -> Multiset<Stake> {
    staked.filter(p).map_values(|s: StakedSui| stake_for(s, rewards)).to_multiset()
}

/// No stake is lost or doubled: the groups together hold one stake for each staked object.
pub proof fn lemma_no_stake_is_lost(
    groups: Seq<DelegatedStake>,
    staked: Seq<StakedSui>,
    rewards: Map<SuiAddress, u64>,
    validators: Map<SuiAddress, SuiAddress>,
)
    requires
        is_grouping(groups, staked, rewards, validators),
    ensures
        all_stakes(groups) == staked.map_values(
            |s: StakedSui| stake_for(s, rewards),
        ).to_multiset(),
{
    lemma_covered_stakes(groups, staked, rewards, validators, groups.len() as int);
    assert(groups.take(groups.len() as int) =~= groups);
    let p = covered(groups, validators);
    assert forall|k: int| 0 <= k < staked.len() implies p(#[trigger] staked[k]) by {}
    lemma_filter_all(staked, p);
}

proof fn lemma_filter_all<A>(s: Seq<A>, p: spec_fn(A) -> bool)
    requires
        forall|k: int| 0 <= k < s.len() ==> p(#[trigger] s[k]),
    ensures
        s.filter(p) == s,
    decreases s.len(),
{
    reveal(Seq::filter);
    if s.len() > 0 {
        let last = s[s.len() - 1];
        assert(p(last));
        lemma_filter_all(s.drop_last(), p);
        assert(s.drop_last().push(last) =~= s);
    }
    assert(s.filter(p) =~= s);
}

proof fn lemma_filter_none<A>(s: Seq<A>, p: spec_fn(A) -> bool)
    requires
        forall|k: int| 0 <= k < s.len() ==> !p(#[trigger] s[k]),
    ensures
        s.filter(p) == Seq::<A>::empty(),
    decreases s.len(),
{
    reveal(Seq::filter);
    if s.len() > 0 {
        assert(!p(s[s.len() - 1]));
        lemma_filter_none(s.drop_last(), p);
    }
}

/// Staked objects that satisfy one of two conditions, but never both.
proof fn lemma_stakes_of_either(
    staked: Seq<StakedSui>,
    p: spec_fn(StakedSui) -> bool,
    q: spec_fn(StakedSui) -> bool,
    either: spec_fn(StakedSui) -> bool,
    rewards: Map<SuiAddress, u64>,
)
    requires
        forall|s: StakedSui| #[trigger] either(s) <==> p(s) || q(s),
        forall|s: StakedSui| #[trigger] either(s) ==> !(p(s) && q(s)),
    ensures
        stakes_of(staked, either, rewards) == stakes_of(staked, p, rewards).add(
            stakes_of(staked, q, rewards),
        ),
    decreases staked.len(),
{
    broadcast use vstd::seq_lib::group_to_multiset_ensures;

    reveal(Seq::filter);
    let f = |s: StakedSui| stake_for(s, rewards);
    if staked.len() > 0 {
        let rest = staked.drop_last();
        let last = staked.last();
        lemma_stakes_of_either(rest, p, q, either, rewards);
        let _ = either(last);
        if p(last) {
            assert(staked.filter(p).map_values(f) =~= rest.filter(p).map_values(f).push(f(last)));
        }
        if q(last) {
            assert(staked.filter(q).map_values(f) =~= rest.filter(q).map_values(f).push(f(last)));
        }
        if either(last) {
            assert(staked.filter(either).map_values(f) =~= rest.filter(either).map_values(f).push(
                f(last),
            ));
        }
    } else {
        assert(staked.filter(p).map_values(f) =~= Seq::empty());
        assert(staked.filter(q).map_values(f) =~= Seq::empty());
        assert(staked.filter(either).map_values(f) =~= Seq::empty());
    }
    assert(stakes_of(staked, either, rewards) =~= stakes_of(staked, p, rewards).add(
        stakes_of(staked, q, rewards),
    ));
}

/// A staked object belongs to one of the first groups, or to the next one, but never to both.
pub proof fn lemma_one_more_group(
    groups: Seq<DelegatedStake>,
    staked: Seq<StakedSui>,
    rewards: Map<SuiAddress, u64>,
    validators: Map<SuiAddress, SuiAddress>,
    n: int,
)
    requires
        is_grouping(groups, staked, rewards, validators),
        0 < n <= groups.len(),
    ensures
        ({
            let now = covered(groups.take(n), validators);
            let before = covered(groups.take(n - 1), validators);
            let g = groups[n - 1];
            let p = |s: StakedSui| in_group(s, validators, g.validator_address, g.staking_pool);
            &&& forall|s: StakedSui| #[trigger] now(s) <==> before(s) || p(s)
            &&& forall|s: StakedSui| #[trigger] now(s) ==> !(before(s) && p(s))
        }),
{
    let now = covered(groups.take(n), validators);
    let before = covered(groups.take(n - 1), validators);
    let g = groups[n - 1];
    let p = |s: StakedSui| in_group(s, validators, g.validator_address, g.staking_pool);
    assert forall|s: StakedSui| #[trigger] now(s) <==> before(s) || p(s) by {
        if now(s) {
            let i = choose|i: int|
                0 <= i < n && in_group(
                    s,
                    validators,
                    (#[trigger] groups.take(n)[i]).validator_address,
                    groups.take(n)[i].staking_pool,
                );
            if i < n - 1 {
                assert(groups.take(n - 1)[i] == groups.take(n)[i]);
            }
        }
        if before(s) {
            let i = choose|i: int|
                0 <= i < n - 1 && in_group(
                    s,
                    validators,
                    (#[trigger] groups.take(n - 1)[i]).validator_address,
                    groups.take(n - 1)[i].staking_pool,
                );
            assert(groups.take(n - 1)[i] == groups.take(n)[i]);
        }
        if p(s) {
            assert(groups.take(n)[n - 1] == g);
        }
    }
    assert forall|s: StakedSui| #[trigger] now(s) implies !(before(s) && p(s)) by {
        if before(s) && p(s) {
            let i = choose|i: int|
                0 <= i < n - 1 && in_group(
                    s,
                    validators,
                    (#[trigger] groups.take(n - 1)[i]).validator_address,
                    groups.take(n - 1)[i].staking_pool,
                );
            assert(groups.take(n - 1)[i] == groups[i]);
            lemma_groups_differ(groups, staked, rewards, validators, i, n - 1);
        }
    }
}

/// The first groups hold the stakes of the staked objects that belong to one of them.
proof fn lemma_covered_stakes(
    groups: Seq<DelegatedStake>,
    staked: Seq<StakedSui>,
    rewards: Map<SuiAddress, u64>,
    validators: Map<SuiAddress, SuiAddress>,
    n: int,
)
    requires
        is_grouping(groups, staked, rewards, validators),
        0 <= n <= groups.len(),
    ensures
        all_stakes(groups.take(n)) == stakes_of(
            staked,
            covered(groups.take(n), validators),
            rewards,
        ),
    decreases n,
{
    broadcast use vstd::seq_lib::group_to_multiset_ensures;

    let now = covered(groups.take(n), validators);
    if n == 0 {
        lemma_filter_none(staked, now);
        assert(staked.filter(now).map_values(|s: StakedSui| stake_for(s, rewards))
            =~= Seq::empty());
        assert(all_stakes(groups.take(n)) =~= stakes_of(staked, now, rewards));
    } else {
        lemma_covered_stakes(groups, staked, rewards, validators, n - 1);
        let before = covered(groups.take(n - 1), validators);
        let g = groups[n - 1];
        let p = |s: StakedSui| in_group(s, validators, g.validator_address, g.staking_pool);
        assert(groups.take(n).drop_last() =~= groups.take(n - 1));
        lemma_one_more_group(groups, staked, rewards, validators, n);
        lemma_stakes_of_either(staked, before, p, now, rewards);
        assert(groups[n - 1].stakes@ == stakes_in_group(
            staked,
            rewards,
            validators,
            g.validator_address,
            g.staking_pool,
        ));
    }
}

} // verus!
