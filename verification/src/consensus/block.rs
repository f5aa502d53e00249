//! Blocks, the votes that they carry, and the committee that proposes them.
use crate::ids::BlockDigest;
use vstd::prelude::*;

verus! {

/// The round in which a block was proposed.
pub type Round = u32;

/// The position of a transaction in its block.
pub type TransactionIndex = u16;

/// The position of an authority in the committee.
pub type AuthorityIndex = u32;

/// Voting power.
pub type Stake = u64;

/// The round of the blocks that every authority starts from.
pub const GENESIS_ROUND: Round = 0;

/// What identifies a block.
#[derive(Clone, Copy, Debug, PartialEq, Eq, Hash, Structural)]
pub struct BlockRef {
    pub round: Round,
    pub author: AuthorityIndex,
    pub digest: BlockDigest,
}

/// A `BlockRef` as a map key: integers whose order is that of rounds, then authors, then digests.
pub type BlockKey = (u32, u32, u128, u128);

impl BlockRef {
    /// The key under which an ordered map holds this block.
    pub open spec fn spec_key(self) -> BlockKey {
        (self.round, self.author, self.digest.hi, self.digest.lo)
    }

    pub(crate) fn key(&self) -> (r: BlockKey)
        ensures
            r == self.spec_key(),
    {
        (self.round, self.author, self.digest.hi, self.digest.lo)
    }
}

/// The transactions of one block that the author of another votes to reject.
#[derive(Debug, PartialEq, Eq)]
pub struct BlockTransactionVotes {
    pub block_ref: BlockRef,
    pub rejects: Vec<TransactionIndex>,
}

/// A block that passed verification, as far as votes go.
#[derive(Debug)]
pub struct VerifiedBlock {
    pub reference: BlockRef,
    pub transaction_votes: Vec<BlockTransactionVotes>,
}

impl VerifiedBlock {
    pub fn round(&self) -> (r: Round)
        ensures
            r == self.reference.round,
    {
        self.reference.round
    }

    pub fn author(&self) -> (r: AuthorityIndex)
        ensures
            r == self.reference.author,
    {
        self.reference.author
    }

    pub fn reference(&self) -> (r: BlockRef)
        ensures
            r == self.reference,
    {
        self.reference
    }
}

/// The stake of all authorities together.
pub open spec fn total_stake(stakes: Seq<Stake>) -> nat
    decreases stakes.len(),
{
    if stakes.len() == 0 {
        0
    } else {
        total_stake(stakes.drop_last()) + stakes.last() as nat
    }
}

/// The authorities that may propose blocks, each with its stake.
///
/// There are no more of them than an `AuthorityIndex` can tell apart, and their stakes add up
/// to a `Stake`.
#[derive(Debug)]
pub struct Committee {
    stakes: Vec<Stake>,
}

/// Stakes that a committee can have.
pub open spec fn valid_stakes(stakes: Seq<Stake>) -> bool {
    &&& stakes.len() <= AuthorityIndex::MAX
    &&& total_stake(stakes) <= Stake::MAX
}

impl Committee {
    /// The stake of each authority, in the order of their indices.
    pub closed spec fn stakes(&self) -> Seq<Stake> {
        self.stakes@
    }

    /// The invariant of the type.
    pub open spec fn wf(&self) -> bool {
        valid_stakes(self.stakes())
    }

    /// A committee of authorities with these stakes, if they are few and light enough.
    pub fn new(stakes: Vec<Stake>) -> (r: Option<Self>)
        ensures
            r is Some <==> valid_stakes(stakes@),
            r matches Some(c) ==> c.wf() && c.stakes() == stakes@,
    {
        if stakes.len() > AuthorityIndex::MAX as usize {
            return None;
        }
        let mut total: Stake = 0;
        let mut i: usize = 0;
        proof {
            assert(stakes@.take(0) =~= Seq::<Stake>::empty());
        }
        while i < stakes.len()
            invariant
                i <= stakes@.len(),
                total == total_stake(stakes@.take(i as int)),
            decreases stakes@.len() - i,
        {
            proof {
                assert(stakes@.take(i + 1).drop_last() =~= stakes@.take(i as int));
            }
            match total.checked_add(stakes[i]) {
                Some(sum) => {
                    total = sum;
                },
                None => {
                    proof {
                        lemma_total_of_prefix(stakes@, i + 1);
                    }
                    return None;
                },
            }
            i = i + 1;
        }
        proof {
            assert(stakes@.take(i as int) =~= stakes@);
        }
        Some(Committee { stakes })
    }

    /// How many authorities there are.
    pub fn size(&self) -> (r: usize)
        ensures
            r == self.stakes().len(),
    {
        self.stakes.len()
    }

    /// The stake of one authority.
    pub fn stake(&self, authority: AuthorityIndex) -> (r: Stake)
        requires
            authority < self.stakes().len(),
        ensures
            r == self.stakes()[authority as int],
    {
        self.stakes[authority as usize]
    }

    /// All authorities, in order.
    pub fn authorities(&self) -> (r: Vec<AuthorityIndex>)
        requires
            self.wf(),
        ensures
            r@ == Seq::new(self.stakes().len(), |i: int| i as AuthorityIndex),
    {
        let mut r: Vec<AuthorityIndex> = Vec::new();
        let mut i: usize = 0;
        while i < self.stakes.len()
            invariant
                i <= self.stakes@.len() <= AuthorityIndex::MAX,
                r@ =~= Seq::new(i as nat, |k: int| k as AuthorityIndex),
            decreases self.stakes@.len() - i,
        {
            r.push(i as AuthorityIndex);
            i = i + 1;
        }
        r
    }
}

proof fn lemma_total_of_prefix(stakes: Seq<Stake>, k: int)
    requires
        0 <= k <= stakes.len(),
    ensures
        total_stake(stakes.take(k)) <= total_stake(stakes),
    decreases stakes.len() - k,
{
    if k < stakes.len() {
        lemma_total_of_prefix(stakes, k + 1);
        assert(stakes.take(k + 1).drop_last() =~= stakes.take(k));
    } else {
        assert(stakes.take(k) =~= stakes);
    }
}

} // verus!
