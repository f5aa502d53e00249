//! What a certifier knows, and how blocks and garbage collection change it.
use crate::consensus::block::{
    AuthorityIndex, BlockRef, BlockTransactionVotes, Round, Stake, TransactionIndex, VerifiedBlock,
};
use crate::consensus::stake_aggregator::stake_of;
use vstd::prelude::*;

verus! {

/// What is known of the votes on one block.
#[verifier::ext_equal]
pub struct BlockVotes {
    /// The block, once it has been received.
    pub block: Option<VerifiedBlock>,
    /// The transactions that this authority rejects.
    pub own_rejects: Seq<TransactionIndex>,
    /// For each transaction that anybody rejects, those who do.
    pub rejecters: Map<TransactionIndex, Set<AuthorityIndex>>,
}

/// The votes on every block that the certifier knows of, and the round up to which it forgot.
#[verifier::ext_equal]
pub struct CertifierModel {
    pub votes: Map<BlockRef, BlockVotes>,
    pub gc_round: Round,
}

/// What holds of every state of a certifier: nothing at or below the GC round is known, own votes
/// are there only for blocks that were received, a block is known by its own reference, and a
/// transaction is listed only where somebody rejects it.
pub open spec fn consistent(m: CertifierModel) -> bool {
    forall|r: BlockRef| #[trigger]
        m.votes.contains_key(r) ==> r.round > m.gc_round && consistent_votes(r, m.votes[r])
}

/// What holds of the votes on a block in every state of a certifier.
pub open spec fn consistent_votes(r: BlockRef, votes: BlockVotes) -> bool {
    &&& votes.block is None ==> votes.own_rejects.len() == 0
    &&& votes.block matches Some(block) ==> block.reference == r
    &&& forall|txn: TransactionIndex| #[trigger]
        votes.rejecters.contains_key(txn) ==> exists|author: AuthorityIndex| #[trigger]
            votes.rejecters[txn].contains(author)
}

/// A block that was not heard of.
pub open spec fn no_votes() -> BlockVotes {
    BlockVotes { block: None, own_rejects: Seq::empty(), rejecters: Map::empty() }
}

/// What is known of a block, be it nothing.
pub open spec fn votes_on(votes: Map<BlockRef, BlockVotes>, block_ref: BlockRef) -> BlockVotes {
    if votes.contains_key(block_ref) {
        votes[block_ref]
    } else {
        no_votes()
    }
}

/// Those who reject a transaction, be it nobody.
pub open spec fn rejecters_of(votes: BlockVotes, txn: TransactionIndex) -> Set<AuthorityIndex> {
    if votes.rejecters.contains_key(txn) {
        votes.rejecters[txn]
    } else {
        Set::empty()
    }
}

/// `votes` after `author` rejected the transactions that satisfy `rejects`.
pub open spec fn with_rejects(
    votes: BlockVotes,
    rejects: spec_fn(TransactionIndex) -> bool,
    author: AuthorityIndex,
) -> BlockVotes {
    BlockVotes {
        rejecters: Map::new(
            |txn: TransactionIndex| votes.rejecters.contains_key(txn) || rejects(txn),
            |txn: TransactionIndex|
                if rejects(txn) {
                    rejecters_of(votes, txn).insert(author)
                } else {
                    votes.rejecters[txn]
                },
        ),
        ..votes
    }
}

/// Some of the votes are about this block.
pub open spec fn mentions(cast: Seq<BlockTransactionVotes>, block_ref: BlockRef) -> bool {
    exists|i: int| 0 <= i < cast.len() && #[trigger] cast[i].block_ref == block_ref
}

/// Some of the votes reject this transaction of this block.
pub open spec fn rejects_txn(
    cast: Seq<BlockTransactionVotes>,
    block_ref: BlockRef,
    txn: TransactionIndex,
) -> bool {
    exists|i: int|
        0 <= i < cast.len() && #[trigger] cast[i].block_ref == block_ref
            && cast[i].rejects@.contains(txn)
}

/// `votes` after `author` cast votes in a block: every block above the GC round that is voted on
/// is known, and has `author` among the rejecters of what was rejected.
pub open spec fn counted(
    votes: Map<BlockRef, BlockVotes>,
    gc_round: Round,
    author: AuthorityIndex,
    cast: Seq<BlockTransactionVotes>,
) -> Map<BlockRef, BlockVotes> {
    Map::new(
        |r: BlockRef| votes.contains_key(r) || (r.round > gc_round && mentions(cast, r)),
        |r: BlockRef|
            with_rejects(
                votes_on(votes, r),
                |txn: TransactionIndex| r.round > gc_round && rejects_txn(cast, r, txn),
                author,
            ),
    )
}

/// The state after a block was received and voted on. A block at or below the GC round, or one
/// that was received before, changes nothing.
pub open spec fn after_voted_block(
    m: CertifierModel,
    block: VerifiedBlock,
    own_rejects: Seq<TransactionIndex>,
) -> CertifierModel {
    let known = votes_on(m.votes, block.reference);
    if block.reference.round <= m.gc_round || known.block is Some {
        m
    } else {
        let received = m.votes.insert(
            block.reference,
            BlockVotes { block: Some(block), own_rejects, ..known },
        );
        CertifierModel {
            votes: counted(
                received,
                m.gc_round,
                block.reference.author,
                block.transaction_votes@,
            ),
            ..m
        }
    }
}

/// The state after several blocks, one after the other.
pub open spec fn after_voted_blocks(
    m: CertifierModel,
    blocks: Seq<(VerifiedBlock, Vec<TransactionIndex>)>,
) -> CertifierModel
    decreases blocks.len(),
{
    if blocks.len() == 0 {
        m
    } else {
        after_voted_block(
            after_voted_blocks(m, blocks.drop_last()),
            blocks.last().0,
            blocks.last().1@,
        )
    }
}

/// The state after everything up to `gc_round` was forgotten.
pub open spec fn after_gc(m: CertifierModel, gc_round: Round) -> CertifierModel {
    CertifierModel {
        votes: Map::new(
            |r: BlockRef| m.votes.contains_key(r) && r.round > gc_round,
            |r: BlockRef| m.votes[r],
        ),
        gc_round,
    }
}

/// Own votes on the blocks, without those that are too old or have no rejected transaction.
pub open spec fn own_votes(m: CertifierModel, block_refs: Seq<BlockRef>) -> Seq<
    (BlockRef, Seq<TransactionIndex>),
> {
    block_refs.filter(
        |r: BlockRef| r.round > m.gc_round && m.votes[r].own_rejects.len() > 0,
    ).map_values(|r: BlockRef| (r, m.votes[r].own_rejects))
}

/// The same as a list of votes.
pub open spec fn same_votes(
    list: Seq<BlockTransactionVotes>,
    votes: Seq<(BlockRef, Seq<TransactionIndex>)>,
) -> bool {
    &&& list.len() == votes.len()
    &&& forall|i: int|
        #![trigger list[i]]
        0 <= i < list.len() ==> list[i].block_ref == votes[i].0 && list[i].rejects@ == votes[i].1
}

/// The rejected transactions of a block in order, each with the stake of its rejecters.
pub open spec fn is_reject_tally(
    tally: Seq<(TransactionIndex, Stake)>,
    votes: BlockVotes,
    stakes: Seq<Stake>,
) -> bool {
    &&& forall|i: int, j: int| 0 <= i < j < tally.len() ==> tally[i].0 < tally[j].0
    &&& forall|i: int|
        #![trigger tally[i]]
        0 <= i < tally.len() ==> votes.rejecters.contains_key(tally[i].0) && tally[i].1 == stake_of(
            votes.rejecters[tally[i].0],
            stakes,
        )
    &&& forall|txn: TransactionIndex| #[trigger]
        votes.rejecters.contains_key(txn) ==> exists|i: int|
            0 <= i < tally.len() && #[trigger] tally[i].0 == txn
}

/// How many transactions of a block of `author` this authority rejected, for the metrics.
#[derive(Clone, Copy, Debug, PartialEq, Eq, Structural)]
pub struct OwnRejectCount {
    pub author: AuthorityIndex,
    pub count: u64,
}

/// One count for each block above the GC round, in order.
pub open spec fn own_reject_counts(
    gc_round: Round,
    blocks: Seq<(VerifiedBlock, Vec<TransactionIndex>)>,
) -> Seq<OwnRejectCount> {
    blocks.filter(
        |b: (VerifiedBlock, Vec<TransactionIndex>)| b.0.reference.round > gc_round,
    ).map_values(
        |b: (VerifiedBlock, Vec<TransactionIndex>)|
            OwnRejectCount { author: b.0.reference.author, count: b.1@.len() as u64 },
    )
}

/// The authors of the blocks above the GC round are in the committee.
pub open spec fn authors_known(
    gc_round: Round,
    stakes: Seq<Stake>,
    blocks: Seq<(VerifiedBlock, Vec<TransactionIndex>)>,
) -> bool {
    forall|i: int|
        #![trigger blocks[i]]
        0 <= i < blocks.len() && blocks[i].0.reference.round > gc_round
            ==> blocks[i].0.reference.author < stakes.len()
}

/// Taking a block keeps the state consistent.
pub proof fn lemma_block_keeps_consistent(
    m: CertifierModel,
    block: VerifiedBlock,
    own_rejects: Seq<TransactionIndex>,
)
    requires
        consistent(m),
    ensures
        consistent(after_voted_block(m, block, own_rejects)),
{
    let now = after_voted_block(m, block, own_rejects);
    let author = block.reference.author;
    assert forall|r: BlockRef| #[trigger] now.votes.contains_key(r) implies r.round > now.gc_round
        && consistent_votes(r, now.votes[r]) by {
        let before = votes_on(m.votes, r);
        assert(consistent_votes(r, before));
        assert forall|txn: TransactionIndex| #[trigger]
            now.votes[r].rejecters.contains_key(txn) implies exists|a: AuthorityIndex| #[trigger]
            now.votes[r].rejecters[txn].contains(a) by {
            if before.rejecters.contains_key(txn) {
                let a = choose|a: AuthorityIndex| #[trigger] before.rejecters[txn].contains(a);
                assert(now.votes[r].rejecters[txn].contains(a));
            } else {
                assert(now.votes[r].rejecters[txn].contains(author));
            }
        }
    }
}

/// Garbage collection keeps the state consistent.
pub proof fn lemma_gc_keeps_consistent(m: CertifierModel, gc_round: Round)
    requires
        consistent(m),
    ensures
        consistent(after_gc(m, gc_round)),
{
}

} // verus!
