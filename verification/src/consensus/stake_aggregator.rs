//! Adding up the stake of the authorities behind a vote, each of them once.
use crate::consensus::block::{total_stake, AuthorityIndex, Committee, Stake};
use std::collections::BTreeSet;
use vstd::prelude::*;

verus! {

broadcast use vstd::laws_cmp::group_laws_cmp;

/// The stake of those authorities that are among `voters`.
pub open spec fn stake_of(voters: Set<AuthorityIndex>, stakes: Seq<Stake>) -> nat
    decreases stakes.len(),
{
    if stakes.len() == 0 {
        0
    } else {
        stake_of(voters, stakes.drop_last()) + if voters.contains(
            (stakes.len() - 1) as AuthorityIndex,
        ) {
            stakes.last() as nat
        } else {
            0
        }
    }
}

/// The authorities that voted, and their stake.
#[derive(Debug)]
pub struct StakeAggregator {
    votes: BTreeSet<AuthorityIndex>,
    stake: Stake,
}

impl StakeAggregator {
    /// The authorities that voted.
    pub closed spec fn voters(&self) -> Set<AuthorityIndex> {
        self.votes@
    }

    /// The invariant of the type: the stake is that of the voters, all of whom are known.
    pub closed spec fn wf(&self, stakes: Seq<Stake>) -> bool {
        &&& self.stake == stake_of(self.votes@, stakes)
        &&& forall|a: AuthorityIndex| self.votes@.contains(a) ==> a < stakes.len()
    }

    /// Nobody has voted yet.
    pub fn new() -> (r: Self)
        ensures
            r.voters() == Set::<AuthorityIndex>::empty(),
            forall|stakes: Seq<Stake>| #[trigger] r.wf(stakes),
    {
        let r = StakeAggregator { votes: BTreeSet::new(), stake: 0 };
        proof {
            assert forall|stakes: Seq<Stake>| #[trigger] r.wf(stakes) by {
                lemma_stake_of_nobody(stakes);
            }
        }
        r
    }

    /// Adds the vote of an authority, unless it is there already; says whether it was added.
    pub fn add_unique(&mut self, vote: AuthorityIndex, committee: &Committee) -> (added: bool)
        requires
            old(self).wf(committee.stakes()),
            committee.wf(),
            vote < committee.stakes().len(),
        ensures
            final(self).wf(committee.stakes()),
            final(self).voters() == old(self).voters().insert(vote),
            added == !old(self).voters().contains(vote),
    {
        let ghost before = self.votes@;
        if self.votes.insert(vote) {
            proof {
                lemma_stake_of_one_more(before, vote, committee.stakes());
                lemma_stake_within_total(self.votes@, committee.stakes());
            }
            self.stake = self.stake + committee.stake(vote);
            true
        } else {
            proof {
                assert(before.insert(vote) =~= before);
            }
            false
        }
    }

    /// The stake that has been added up.
    pub closed spec fn spec_stake(&self) -> Stake {
        self.stake
    }

    /// What has been added up is the stake of the voters.
    pub proof fn lemma_stake_of_voters(&self, stakes: Seq<Stake>)
        requires
            self.wf(stakes),
        ensures
            self.spec_stake() == stake_of(self.voters(), stakes),
    {
    }

    /// The stake of all voters.
    pub fn stake(&self) -> (r: Stake)
        ensures
            r == self.spec_stake(),
            forall|stakes: Seq<Stake>|
                #[trigger] self.wf(stakes) ==> r == stake_of(self.voters(), stakes),
    {
        self.stake
    }
}

/// Nobody has no stake.
pub proof fn lemma_stake_of_nobody(stakes: Seq<Stake>)
    ensures
        stake_of(Set::empty(), stakes) == 0,
    decreases stakes.len(),
{
    if stakes.len() > 0 {
        lemma_stake_of_nobody(stakes.drop_last());
    }
}

/// One more voter brings exactly its own stake.
pub proof fn lemma_stake_of_one_more(
    voters: Set<AuthorityIndex>,
    vote: AuthorityIndex,
    stakes: Seq<Stake>,
)
    requires
        !voters.contains(vote),
        vote < stakes.len() <= AuthorityIndex::MAX,
    ensures
        stake_of(voters.insert(vote), stakes) == stake_of(voters, stakes) + stakes[vote as int],
    decreases stakes.len(),
{
    if vote < stakes.len() - 1 {
        lemma_stake_of_one_more(voters, vote, stakes.drop_last());
    } else {
        lemma_stake_of_others(voters, vote, stakes.drop_last());
    }
}

/// Somebody who is not in the committee brings no stake.
pub proof fn lemma_stake_of_others(
    voters: Set<AuthorityIndex>,
    vote: AuthorityIndex,
    stakes: Seq<Stake>,
)
    requires
        stakes.len() <= vote,
    ensures
        stake_of(voters.insert(vote), stakes) == stake_of(voters, stakes),
    decreases stakes.len(),
{
    if stakes.len() > 0 {
        lemma_stake_of_others(voters, vote, stakes.drop_last());
    }
}

/// However many votes are cast, their stake is at most that of the whole committee.
pub proof fn lemma_stake_within_total(voters: Set<AuthorityIndex>, stakes: Seq<Stake>)
    ensures
        stake_of(voters, stakes) <= total_stake(stakes),
    decreases stakes.len(),
{
    if stakes.len() > 0 {
        lemma_stake_within_total(voters, stakes.drop_last());
    }
}

/// More voters never weigh less.
pub proof fn lemma_stake_monotone(
    fewer: Set<AuthorityIndex>,
    more: Set<AuthorityIndex>,
    stakes: Seq<Stake>,
)
    requires
        fewer.subset_of(more),
    ensures
        stake_of(fewer, stakes) <= stake_of(more, stakes),
    decreases stakes.len(),
{
    if stakes.len() > 0 {
        lemma_stake_monotone(fewer, more, stakes.drop_last());
    }
}

/// Those in both of two groups are what their stakes count twice.
pub proof fn lemma_stake_of_union(
    a: Set<AuthorityIndex>,
    b: Set<AuthorityIndex>,
    stakes: Seq<Stake>,
)
    ensures
        stake_of(a.union(b), stakes) + stake_of(a.intersect(b), stakes) == stake_of(a, stakes)
            + stake_of(b, stakes),
    decreases stakes.len(),
{
    if stakes.len() > 0 {
        lemma_stake_of_union(a, b, stakes.drop_last());
    }
}

} // verus!
