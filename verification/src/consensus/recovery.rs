//! Rebuilding what a certifier knows from stored blocks.
use crate::consensus::block::{AuthorityIndex, BlockRef, Round, TransactionIndex, VerifiedBlock};
use vstd::prelude::*;

verus! {

/// Which blocks are to be recovered.
#[derive(Debug, PartialEq, Eq)]
pub struct RecoveryPlan {
    /// The first round whose blocks are to be recovered.
    pub start_round: Round,
    /// The authorities whose blocks are to be recovered, in this order.
    pub authorities: Vec<AuthorityIndex>,
}

/// Voting on a recovered block failed.
#[derive(Debug, PartialEq, Eq)]
pub struct VoteFailure<E> {
    pub block_ref: BlockRef,
    pub error: E,
}

/// A block that this authority may yet include in one of its own: it is above the GC round of
/// the DAG, and was said not to be included so far.
pub open spec fn to_be_voted_on<I: Fn(&BlockRef) -> bool>(
    block: VerifiedBlock,
    dag_gc_round: Round,
    has_been_included: I,
) -> bool {
    &&& block.reference.round > dag_gc_round
    &&& call_ensures(has_been_included, (&block.reference,), false)
}

/// A block that needs no vote of this authority.
pub open spec fn past_voting<I: Fn(&BlockRef) -> bool>(
    block: VerifiedBlock,
    dag_gc_round: Round,
    has_been_included: I,
) -> bool {
    block.reference.round <= dag_gc_round || call_ensures(
        has_been_included,
        (&block.reference,),
        true,
    )
}

/// `rejects` are the votes on a recovered block: what `vote` says where a vote is due, else none.
pub open spec fn recovered_votes<
    I: Fn(&BlockRef) -> bool,
    V: Fn(&VerifiedBlock) -> Result<Vec<TransactionIndex>, E>,
    E,
>(
    block: VerifiedBlock,
    rejects: Vec<TransactionIndex>,
    dag_gc_round: Round,
    has_been_included: I,
    vote: V,
) -> bool {
    ||| past_voting(block, dag_gc_round, has_been_included) && rejects@.len() == 0
    ||| to_be_voted_on(block, dag_gc_round, has_been_included) && call_ensures(
        vote,
        (&block,),
        Ok(rejects),
    )
}

/// Each block with the votes on it, in order.
pub open spec fn is_voted<
    I: Fn(&BlockRef) -> bool,
    V: Fn(&VerifiedBlock) -> Result<Vec<TransactionIndex>, E>,
    E,
>(
    blocks: Seq<VerifiedBlock>,
    voted: Seq<(VerifiedBlock, Vec<TransactionIndex>)>,
    dag_gc_round: Round,
    has_been_included: I,
    vote: V,
) -> bool {
    &&& voted.len() == blocks.len()
    &&& forall|i: int|
        #![trigger voted[i]]
        0 <= i < voted.len() ==> voted[i].0 == blocks[i] && recovered_votes(
            blocks[i],
            voted[i].1,
            dag_gc_round,
            has_been_included,
            vote,
        )
}

/// Block `i` is the first one on which `vote` failed.
pub open spec fn vote_failed_at<
    I: Fn(&BlockRef) -> bool,
    V: Fn(&VerifiedBlock) -> Result<Vec<TransactionIndex>, E>,
    E,
>(
    blocks: Seq<VerifiedBlock>,
    i: int,
    failure: VoteFailure<E>,
    dag_gc_round: Round,
    has_been_included: I,
    vote: V,
) -> bool {
    &&& 0 <= i < blocks.len()
    &&& failure.block_ref == blocks[i].reference
    &&& to_be_voted_on(blocks[i], dag_gc_round, has_been_included)
    &&& call_ensures(vote, (&blocks[i],), Err(failure.error))
    &&& exists|voted: Seq<(VerifiedBlock, Vec<TransactionIndex>)>| #[trigger]
        is_voted(blocks.take(i), voted, dag_gc_round, has_been_included, vote)
}

/// `vote` failed on one of the blocks, and on none before it.
pub open spec fn vote_failed<
    I: Fn(&BlockRef) -> bool,
    V: Fn(&VerifiedBlock) -> Result<Vec<TransactionIndex>, E>,
    E,
>(
    blocks: Seq<VerifiedBlock>,
    failure: VoteFailure<E>,
    dag_gc_round: Round,
    has_been_included: I,
    vote: V,
) -> bool {
    exists|i: int| #[trigger]
        vote_failed_at(blocks, i, failure, dag_gc_round, has_been_included, vote)
}

/// Which blocks a vote is due on.
pub open spec fn is_due<I: Fn(&BlockRef) -> bool>(
    blocks: Seq<VerifiedBlock>,
    due: Seq<bool>,
    dag_gc_round: Round,
    has_been_included: I,
) -> bool {
    &&& due.len() == blocks.len()
    &&& forall|i: int|
        #![trigger due[i]]
        0 <= i < due.len() ==> if due[i] {
            to_be_voted_on(blocks[i], dag_gc_round, has_been_included)
        } else {
            past_voting(blocks[i], dag_gc_round, has_been_included)
        }
}

/// Each block with its votes, in order: what `vote` says where a vote is due, else none.
pub open spec fn is_voted_where_due<V: Fn(&VerifiedBlock) -> Result<Vec<TransactionIndex>, E>, E>(
    blocks: Seq<VerifiedBlock>,
    due: Seq<bool>,
    voted: Seq<(VerifiedBlock, Vec<TransactionIndex>)>,
    vote: V,
) -> bool {
    &&& voted.len() == blocks.len()
    &&& forall|i: int|
        #![trigger voted[i]]
        0 <= i < voted.len() ==> voted[i].0 == blocks[i] && if due[i] {
            call_ensures(vote, (&blocks[i],), Ok(voted[i].1))
        } else {
            voted[i].1@.len() == 0
        }
}

/// `vote` failed on block `i`, on which a vote is due, and on none before it.
pub open spec fn due_vote_failed_at<V: Fn(&VerifiedBlock) -> Result<Vec<TransactionIndex>, E>, E>(
    blocks: Seq<VerifiedBlock>,
    due: Seq<bool>,
    i: int,
    failure: VoteFailure<E>,
    vote: V,
) -> bool {
    &&& 0 <= i < blocks.len()
    &&& due[i]
    &&& failure.block_ref == blocks[i].reference
    &&& call_ensures(vote, (&blocks[i],), Err(failure.error))
    &&& exists|voted: Seq<(VerifiedBlock, Vec<TransactionIndex>)>| #[trigger]
        is_voted_where_due(blocks.take(i), due, voted, vote)
}

/// `vote` failed on one of the blocks, and on none before it.
pub open spec fn due_vote_failed<V: Fn(&VerifiedBlock) -> Result<Vec<TransactionIndex>, E>, E>(
    blocks: Seq<VerifiedBlock>,
    due: Seq<bool>,
    failure: VoteFailure<E>,
    vote: V,
) -> bool {
    exists|i: int| #[trigger] due_vote_failed_at(blocks, due, i, failure, vote)
}

/// Which of the recovered blocks a vote is due on.
///
/// `has_been_included` is asked only about blocks above the GC round of the DAG.
pub fn due_votes<I>(
    blocks: &Vec<VerifiedBlock>,
    dag_gc_round: Round,
    has_been_included: I,
) -> (r: Vec<bool>) where I: Fn(&BlockRef) -> bool
    requires
        forall|i: int|
            #![trigger blocks@[i]]
            0 <= i < blocks@.len() && blocks@[i].reference.round > dag_gc_round ==> call_requires(
                has_been_included,
                (&blocks@[i].reference,),
            ),
    ensures
        is_due(blocks@, r@, dag_gc_round, has_been_included),
{
    let ghost all = blocks@;
    let mut due: Vec<bool> = Vec::new();
    let mut k: usize = 0;
    while k < blocks.len()
        invariant
            k <= all.len(),
            all == blocks@,
            due@.len() == k,
            forall|i: int|
                #![trigger all[i]]
                0 <= i < all.len() && all[i].reference.round > dag_gc_round ==> call_requires(
                    has_been_included,
                    (&all[i].reference,),
                ),
            forall|i: int|
                #![trigger due@[i]]
                0 <= i < k ==> if due@[i] {
                    to_be_voted_on(all[i], dag_gc_round, has_been_included)
                } else {
                    past_voting(all[i], dag_gc_round, has_been_included)
                },
        decreases all.len() - k,
    {
        let block = &blocks[k];
        assert(*block == all[k as int]);
        due.push(block.round() > dag_gc_round && !has_been_included(&block.reference));
        k = k + 1;
    }
    due
}

/// Votes on the recovered blocks that a vote is due on, up to the first failure.
pub fn vote_where_due<V, E>(blocks: Vec<VerifiedBlock>, due: &Vec<bool>, vote: V) -> (r: Result<
    Vec<(VerifiedBlock, Vec<TransactionIndex>)>,
    VoteFailure<E>,
>) where V: Fn(&VerifiedBlock) -> Result<Vec<TransactionIndex>, E>
    requires
        due@.len() == blocks@.len(),
        forall|i: int|
            #![trigger blocks@[i]]
            0 <= i < blocks@.len() && due@[i] ==> call_requires(vote, (&blocks@[i],)),
    ensures
        r matches Ok(voted) ==> is_voted_where_due(blocks@, due@, voted@, vote),
        r matches Err(failure) ==> due_vote_failed(blocks@, due@, failure, vote),
{
    let ghost all = blocks@;
    let mut voted: Vec<(VerifiedBlock, Vec<TransactionIndex>)> = Vec::new();
    for block in it: blocks.into_iter()
        invariant
            it.seq() == all,
            all == blocks@,
            voted@.len() == it.index(),
            due@.len() == all.len(),
            forall|i: int|
                #![trigger all[i]]
                0 <= i < all.len() && due@[i] ==> call_requires(vote, (&all[i],)),
            is_voted_where_due(all.take(it.index()), due@, voted@, vote),
    {
        let i: usize = voted.len();
        assert(block == all[i as int]);
        proof {
            assert forall|j: int| 0 <= j < i implies all.take(i as int)[j] == all.take(i + 1)[j] by {
            }
        }
        if due[i] {
            match vote(&block) {
                Ok(rejects) => {
                    voted.push((block, rejects));
                },
                Err(error) => {
                    let failure = VoteFailure { block_ref: block.reference, error };
                    assert(is_voted_where_due(blocks@.take(i as int), due@, voted@, vote));
                    assert(due_vote_failed_at(blocks@, due@, i as int, failure, vote));
                    assert(due_vote_failed(blocks@, due@, failure, vote));
                    return Err(failure);
                },
            }
        } else {
            voted.push((block, Vec::new()));
        }
    }
    assert(all.take(all.len() as int) =~= all);
    Ok(voted)
}

/// Votes on recovered blocks, as own votes are not stored.
///
/// `has_been_included` is asked only about blocks above the GC round of the DAG.
pub fn vote_on_blocks<I, V, E>(
    blocks: Vec<VerifiedBlock>,
    dag_gc_round: Round,
    has_been_included: I,
    vote: V,
) -> (r: Result<Vec<(VerifiedBlock, Vec<TransactionIndex>)>, VoteFailure<E>>) where
    I: Fn(&BlockRef) -> bool,
    V: Fn(&VerifiedBlock) -> Result<Vec<TransactionIndex>, E>,

    requires
        forall|i: int|
            #![trigger blocks@[i]]
            0 <= i < blocks@.len() && blocks@[i].reference.round > dag_gc_round ==> call_requires(
                has_been_included,
                (&blocks@[i].reference,),
            ),
        forall|i: int|
            #![trigger blocks@[i]]
            0 <= i < blocks@.len() && to_be_voted_on(blocks@[i], dag_gc_round, has_been_included)
                ==> call_requires(vote, (&blocks@[i],)),
    ensures
        r matches Ok(voted) ==> is_voted(
            blocks@,
            voted@,
            dag_gc_round,
            has_been_included,
            vote,
        ),
        r matches Err(failure) ==> vote_failed(
            blocks@,
            failure,
            dag_gc_round,
            has_been_included,
            vote,
        ),
{
    let ghost all = blocks@;
    let due = due_votes(&blocks, dag_gc_round, &has_been_included);
    let r = vote_where_due(blocks, &due, vote);
    proof {
        if r is Err {
            let failure = r->Err_0;
            let i = choose|i: int| #[trigger] due_vote_failed_at(all, due@, i, failure, vote);
            let voted = choose|voted: Seq<(VerifiedBlock, Vec<TransactionIndex>)>| #[trigger]
                is_voted_where_due(all.take(i), due@, voted, vote);
            assert(to_be_voted_on(all[i], dag_gc_round, has_been_included)) by {
                assert(due@[i]);
            }
            assert(is_voted(all.take(i), voted, dag_gc_round, has_been_included, vote)) by {
                assert forall|j: int|
                    #![trigger voted[j]]
                    0 <= j < voted.len() implies voted[j].0 == all.take(i)[j] && recovered_votes(
                    all.take(i)[j],
                    voted[j].1,
                    dag_gc_round,
                    has_been_included,
                    vote,
                ) by {
                    let _ = due@[j];
                }
            }
            assert(vote_failed_at(all, i, failure, dag_gc_round, has_been_included, vote));
        }
    }
    r
}

} // verus!
