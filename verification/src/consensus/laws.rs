//! What holds of a certifier, whatever blocks it takes and in whatever order.
use crate::consensus::block::{
    total_stake, AuthorityIndex, BlockRef, Round, Stake, TransactionIndex, VerifiedBlock,
};
use crate::consensus::model::{
    after_gc, after_voted_block, after_voted_blocks, consistent, lemma_block_keeps_consistent,
    lemma_gc_keeps_consistent, own_votes, rejecters_of, rejects_txn, votes_on, CertifierModel,
};
use crate::consensus::stake_aggregator::{
    lemma_stake_monotone, lemma_stake_of_union, lemma_stake_within_total, stake_of,
};
use vstd::prelude::*;

verus! {

/// A block that is taken again changes nothing.
pub proof fn lemma_block_taken_once(
    m: CertifierModel,
    block: VerifiedBlock,
    own_rejects: Seq<TransactionIndex>,
    again: VerifiedBlock,
    own_rejects_again: Seq<TransactionIndex>,
)
    requires
        again.reference == block.reference,
    ensures
        after_voted_block(
            after_voted_block(m, block, own_rejects),
            again,
            own_rejects_again,
        ) == after_voted_block(m, block, own_rejects),
{
}

/// The order in which two different blocks arrive makes no difference.
pub proof fn lemma_blocks_commute(
    m: CertifierModel,
    a: VerifiedBlock,
    own_a: Seq<TransactionIndex>,
    b: VerifiedBlock,
    own_b: Seq<TransactionIndex>,
)
    requires
        a.reference != b.reference,
    ensures
        after_voted_block(after_voted_block(m, a, own_a), b, own_b) == after_voted_block(
            after_voted_block(m, b, own_b),
            a,
            own_a,
        ),
{
    let ab = after_voted_block(after_voted_block(m, a, own_a), b, own_b);
    let ba = after_voted_block(after_voted_block(m, b, own_b), a, own_a);
    assert forall|r: BlockRef| #[trigger] ab.votes.contains_key(r) implies ab.votes[r]
        =~~= ba.votes[r] by {
        assert forall|t: TransactionIndex| #[trigger]
            ab.votes[r].rejecters.contains_key(t) implies ab.votes[r].rejecters[t]
            =~= ba.votes[r].rejecters[t] by {
        }
    }
    assert(ab.votes =~= ba.votes);
}

/// No two blocks of the list have the same reference.
pub open spec fn distinct_references(
    blocks: Seq<(VerifiedBlock, Vec<TransactionIndex>)>,
) -> bool {
    forall|i: int, j: int|
        0 <= i < j < blocks.len() ==> (#[trigger] blocks[i]).0.reference
            != (#[trigger] blocks[j]).0.reference
}

/// The order in which different blocks arrive makes no difference, however many they are.
pub proof fn lemma_order_of_blocks(
    m: CertifierModel,
    xs: Seq<(VerifiedBlock, Vec<TransactionIndex>)>,
    ys: Seq<(VerifiedBlock, Vec<TransactionIndex>)>,
)
    requires
        distinct_references(xs),
        distinct_references(ys),
        xs.to_multiset() == ys.to_multiset(),
    ensures
        after_voted_blocks(m, xs) == after_voted_blocks(m, ys),
    decreases xs.len(),
{
    xs.to_multiset_ensures();
    ys.to_multiset_ensures();
    assert(xs.len() == ys.len());
    if xs.len() > 0 {
        let last = xs.last();
        assert(xs[xs.len() - 1] == last);
        assert(xs.contains(last));
        assert(ys.to_multiset().count(last) > 0);
        assert(ys.contains(last));
        let i = choose|i: int| 0 <= i < ys.len() && ys[i] == last;
        lemma_block_moved_to_the_end(m, ys, i);
        assert(xs.drop_last() =~= xs.remove(xs.len() - 1));
        assert(xs.drop_last().to_multiset() =~= ys.remove(i).to_multiset());
        lemma_distinct_without(ys, i);
        lemma_distinct_without(xs, xs.len() - 1);
        lemma_order_of_blocks(m, xs.drop_last(), ys.remove(i));
    }
}

proof fn lemma_distinct_without(blocks: Seq<(VerifiedBlock, Vec<TransactionIndex>)>, i: int)
    requires
        distinct_references(blocks),
        0 <= i < blocks.len(),
    ensures
        distinct_references(blocks.remove(i)),
{
    let fewer = blocks.remove(i);
    assert forall|a: int, b: int| 0 <= a < b < fewer.len() implies (
    #[trigger] fewer[a]).0.reference != (#[trigger] fewer[b]).0.reference by {
        let a1 = if a < i {
            a
        } else {
            a + 1
        };
        let b1 = if b < i {
            b
        } else {
            b + 1
        };
        assert(fewer[a] == blocks[a1]);
        assert(fewer[b] == blocks[b1]);
    }
}

proof fn lemma_block_moved_to_the_end(
    m: CertifierModel,
    blocks: Seq<(VerifiedBlock, Vec<TransactionIndex>)>,
    i: int,
)
    requires
        distinct_references(blocks),
        0 <= i < blocks.len(),
    ensures
        after_voted_blocks(m, blocks) == after_voted_block(
            after_voted_blocks(m, blocks.remove(i)),
            blocks[i].0,
            blocks[i].1@,
        ),
    decreases blocks.len(),
{
    let fewer = blocks.drop_last();
    if i == blocks.len() - 1 {
        assert(blocks.remove(i) =~= fewer);
    } else {
        let last = blocks.last();
        assert(blocks[blocks.len() - 1] == last);
        assert(fewer =~= blocks.remove(blocks.len() - 1));
        lemma_distinct_without(blocks, blocks.len() - 1);
        lemma_block_moved_to_the_end(m, fewer, i);
        assert(blocks.remove(i).drop_last() =~= fewer.remove(i));
        assert(blocks.remove(i).last() == last);
        assert(blocks[i].0.reference != last.0.reference);
        lemma_blocks_commute(
            after_voted_blocks(m, fewer.remove(i)),
            blocks[i].0,
            blocks[i].1@,
            last.0,
            last.1@,
        );
    }
}

/// Taking two lists of blocks one after the other is taking them as one list.
pub proof fn lemma_lists_of_blocks_join(
    m: CertifierModel,
    xs: Seq<(VerifiedBlock, Vec<TransactionIndex>)>,
    ys: Seq<(VerifiedBlock, Vec<TransactionIndex>)>,
)
    ensures
        after_voted_blocks(m, xs + ys) == after_voted_blocks(after_voted_blocks(m, xs), ys),
    decreases ys.len(),
{
    if ys.len() == 0 {
        assert(xs + ys =~= xs);
    } else {
        lemma_lists_of_blocks_join(m, xs, ys.drop_last());
        assert((xs + ys).drop_last() =~= xs + ys.drop_last());
        assert((xs + ys).last() == ys.last());
    }
}

/// Own votes on a block can be read back once the block was taken.
pub proof fn lemma_own_votes_read_back(
    m: CertifierModel,
    block: VerifiedBlock,
    own_rejects: Seq<TransactionIndex>,
)
    requires
        block.reference.round > m.gc_round,
        votes_on(m.votes, block.reference).block is None,
    ensures
        after_voted_block(m, block, own_rejects).votes.contains_key(block.reference),
        own_votes(after_voted_block(m, block, own_rejects), seq![block.reference])
            == if own_rejects.len() > 0 {
            seq![(block.reference, own_rejects)]
        } else {
            Seq::empty()
        },
{
    reveal_with_fuel(Seq::filter, 2);
    let now = after_voted_block(m, block, own_rejects);
    let refs = seq![block.reference];
    assert(refs.drop_last() =~= Seq::<BlockRef>::empty());
    assert(own_votes(now, refs) =~= if own_rejects.len() > 0 {
        seq![(block.reference, own_rejects)]
    } else {
        Seq::empty()
    });
}

/// Taking a block never forgets one, never changes own votes on a block that was taken, and
/// never takes a vote back.
pub proof fn lemma_votes_only_grow(
    m: CertifierModel,
    block: VerifiedBlock,
    own_rejects: Seq<TransactionIndex>,
    r: BlockRef,
    txn: TransactionIndex,
    stakes: Seq<Stake>,
)
    requires
        m.votes.contains_key(r),
    ensures
        ({
            let now = after_voted_block(m, block, own_rejects);
            &&& now.votes.contains_key(r)
            &&& m.votes[r].block is Some ==> now.votes[r].block == m.votes[r].block
                && now.votes[r].own_rejects == m.votes[r].own_rejects
            &&& rejecters_of(m.votes[r], txn).subset_of(rejecters_of(now.votes[r], txn))
            &&& stake_of(rejecters_of(m.votes[r], txn), stakes) <= stake_of(
                rejecters_of(now.votes[r], txn),
                stakes,
            )
        }),
{
    let now = after_voted_block(m, block, own_rejects);
    lemma_stake_monotone(
        rejecters_of(m.votes[r], txn),
        rejecters_of(now.votes[r], txn),
        stakes,
    );
}

/// An authority that rejects a transaction in several of its blocks is counted once.
pub proof fn lemma_authority_counted_once(
    m: CertifierModel,
    block: VerifiedBlock,
    own_rejects: Seq<TransactionIndex>,
    r: BlockRef,
    txn: TransactionIndex,
)
    requires
        rejecters_of(votes_on(m.votes, r), txn).contains(block.reference.author),
    ensures
        rejecters_of(votes_on(after_voted_block(m, block, own_rejects).votes, r), txn)
            == rejecters_of(votes_on(m.votes, r), txn),
{
    assert(rejecters_of(votes_on(after_voted_block(m, block, own_rejects).votes, r), txn)
        =~= rejecters_of(votes_on(m.votes, r), txn));
}

/// A transaction that a quorum rejects is not certified by anybody: where at most `f` of more than
/// `3 f` stake is malicious, and only the malicious both reject and accept, those who accept hold
/// less than a quorum.
pub proof fn lemma_rejected_is_not_certified(
    rejecters: Set<AuthorityIndex>,
    accepters: Set<AuthorityIndex>,
    malicious: Set<AuthorityIndex>,
    stakes: Seq<Stake>,
    f: nat,
)
    requires
        total_stake(stakes) > 3 * f,
        stake_of(malicious, stakes) <= f,
        rejecters.intersect(accepters).subset_of(malicious),
        stake_of(rejecters, stakes) >= total_stake(stakes) - f,
    ensures
        stake_of(accepters, stakes) < total_stake(stakes) - f,
{
    lemma_stake_of_union(rejecters, accepters, stakes);
    lemma_stake_within_total(rejecters.union(accepters), stakes);
    lemma_stake_monotone(rejecters.intersect(accepters), malicious, stakes);
}

/// Nothing at or below the GC round is known, and no later block brings it back.
pub proof fn lemma_gc_is_lasting(
    m: CertifierModel,
    gc_round: Round,
    blocks: Seq<(VerifiedBlock, Vec<TransactionIndex>)>,
    r: BlockRef,
)
    requires
        r.round <= gc_round,
    ensures
        !after_voted_blocks(after_gc(m, gc_round), blocks).votes.contains_key(r),
        after_voted_blocks(after_gc(m, gc_round), blocks).gc_round == gc_round,
    decreases blocks.len(),
{
    if blocks.len() > 0 {
        lemma_gc_is_lasting(m, gc_round, blocks.drop_last(), r);
    }
}

/// Garbage collection keeps everything above its round as it was.
pub proof fn lemma_gc_keeps_the_rest(m: CertifierModel, gc_round: Round, r: BlockRef)
    requires
        r.round > gc_round,
    ensures
        votes_on(after_gc(m, gc_round).votes, r) == votes_on(m.votes, r),
        after_gc(m, gc_round).votes.contains_key(r) <==> m.votes.contains_key(r),
{
}

/// Collecting in two steps is collecting at the later round.
pub proof fn lemma_gc_composes(m: CertifierModel, first: Round, second: Round)
    requires
        first <= second,
    ensures
        after_gc(after_gc(m, first), second) == after_gc(m, second),
{
    assert(after_gc(after_gc(m, first), second) =~~= after_gc(m, second));
}

/// Taking blocks leaves the GC round as it is.
pub proof fn lemma_gc_round_stays(
    m: CertifierModel,
    blocks: Seq<(VerifiedBlock, Vec<TransactionIndex>)>,
)
    ensures
        after_voted_blocks(m, blocks).gc_round == m.gc_round,
    decreases blocks.len(),
{
    if blocks.len() > 0 {
        lemma_gc_round_stays(m, blocks.drop_last());
    }
}

/// What a certifier goes through: a block with own votes on it, or a collection up to a round.
pub ghost enum Step {
    Block(VerifiedBlock, Seq<TransactionIndex>),
    Collect(Round),
}

/// The state after a step.
pub open spec fn after_step(m: CertifierModel, step: Step) -> CertifierModel {
    match step {
        Step::Block(block, own_rejects) => after_voted_block(m, block, own_rejects),
        Step::Collect(gc_round) => after_gc(m, gc_round),
    }
}

/// The state after several steps, one after the other.
pub open spec fn after_steps(m: CertifierModel, steps: Seq<Step>) -> CertifierModel
    decreases steps.len(),
{
    if steps.len() == 0 {
        m
    } else {
        after_step(after_steps(m, steps.drop_last()), steps.last())
    }
}

/// The GC round before step `k`.
pub open spec fn gc_round_before(m: CertifierModel, steps: Seq<Step>, k: int) -> Round {
    after_steps(m, steps.take(k)).gc_round
}

/// No collection is below the GC round at which it takes place.
pub open spec fn collects_forward(m: CertifierModel, steps: Seq<Step>) -> bool {
    forall|k: int|
        0 <= k < steps.len() ==> (#[trigger] steps[k] matches Step::Collect(gc_round) ==> gc_round
            >= gc_round_before(m, steps, k))
}

/// Step `k` is a block that is taken: it is above the GC round, and the first with its reference.
#[verifier::opaque]
pub open spec fn is_taken(m: CertifierModel, steps: Seq<Step>, k: int) -> bool {
    &&& 0 <= k < steps.len()
    &&& steps[k] is Block
    &&& steps[k]->Block_0.reference.round > gc_round_before(m, steps, k)
    &&& forall|j: int|
        0 <= j < k && #[trigger] steps[j] is Block ==> steps[j]->Block_0.reference
            != steps[k]->Block_0.reference
}

/// Step `k` is a block that is taken and rejects the transaction.
pub open spec fn is_rejection(
    m: CertifierModel,
    steps: Seq<Step>,
    k: int,
    r: BlockRef,
    txn: TransactionIndex,
) -> bool {
    is_taken(m, steps, k) && rejects_txn(steps[k]->Block_0.transaction_votes@, r, txn)
}

/// Some block that is taken is by `author` and rejects the transaction.
pub open spec fn rejected_by(
    m: CertifierModel,
    steps: Seq<Step>,
    author: AuthorityIndex,
    r: BlockRef,
    txn: TransactionIndex,
) -> bool {
    exists|k: int| #[trigger]
        is_rejection(m, steps, k, r, txn) && steps[k]->Block_0.reference.author == author
}

/// Some block that is taken rejects the transaction.
pub open spec fn rejected_by_some(
    m: CertifierModel,
    steps: Seq<Step>,
    r: BlockRef,
    txn: TransactionIndex,
) -> bool {
    exists|k: int| #[trigger] is_rejection(m, steps, k, r, txn)
}

/// A certifier that knows of nothing.
pub open spec fn fresh(gc_round: Round) -> CertifierModel {
    CertifierModel { votes: Map::empty(), gc_round }
}

/// Blocks that arrive one after the other are steps.
pub proof fn lemma_blocks_are_steps(
    m: CertifierModel,
    blocks: Seq<(VerifiedBlock, Vec<TransactionIndex>)>,
)
    ensures
        after_voted_blocks(m, blocks) == after_steps(
            m,
            blocks.map_values(
                |b: (VerifiedBlock, Vec<TransactionIndex>)| Step::Block(b.0, b.1@),
            ),
        ),
    decreases blocks.len(),
{
    let f = |b: (VerifiedBlock, Vec<TransactionIndex>)| Step::Block(b.0, b.1@);
    if blocks.len() > 0 {
        lemma_blocks_are_steps(m, blocks.drop_last());
        assert(blocks.map_values(f).drop_last() =~= blocks.drop_last().map_values(f));
    }
}

/// Every state that a certifier can reach is consistent.
pub proof fn lemma_steps_keep_consistent(m: CertifierModel, steps: Seq<Step>)
    requires
        consistent(m),
    ensures
        consistent(after_steps(m, steps)),
    decreases steps.len(),
{
    if steps.len() > 0 {
        let before = after_steps(m, steps.drop_last());
        lemma_steps_keep_consistent(m, steps.drop_last());
        match steps.last() {
            Step::Block(block, own_rejects) => {
                lemma_block_keeps_consistent(before, block, own_rejects);
            },
            Step::Collect(gc_round) => {
                lemma_gc_keeps_consistent(before, gc_round);
            },
        }
    }
}

/// What holds of the first steps holds of them as a list of their own.
proof fn lemma_first_steps(m: CertifierModel, steps: Seq<Step>)
    requires
        steps.len() > 0,
        collects_forward(m, steps),
    ensures
        collects_forward(m, steps.drop_last()),
        after_steps(m, steps).gc_round >= after_steps(m, steps.drop_last()).gc_round,
        gc_round_before(m, steps, steps.len() - 1) == after_steps(m, steps.drop_last()).gc_round,
        forall|k: int| #[trigger]
            is_taken(m, steps, k) && k < steps.len() - 1 <==> is_taken(m, steps.drop_last(), k),
{
    reveal(is_taken);
    let fewer = steps.drop_last();
    let last = steps.len() - 1;
    assert(steps.take(last) =~= fewer);
    assert forall|k: int| 0 <= k < fewer.len() implies gc_round_before(m, fewer, k)
        == #[trigger] gc_round_before(m, steps, k) && #[trigger] fewer[k] == steps[k] by {
        assert(fewer.take(k) =~= steps.take(k));
    }
    assert forall|k: int| 0 <= k < fewer.len() implies (
    #[trigger] fewer[k] matches Step::Collect(gc_round) ==> gc_round >= gc_round_before(
        m,
        fewer,
        k,
    )) by {
        assert(fewer[k] == steps[k]);
        let _ = gc_round_before(m, steps, k);
    }
    let _ = steps[last];
    assert forall|k: int| #[trigger]
        is_taken(m, steps, k) && k < last <==> is_taken(m, fewer, k) by {
        if 0 <= k < last {
            let _ = gc_round_before(m, steps, k);
            if is_taken(m, steps, k) {
                assert forall|j: int| 0 <= j < k && #[trigger] fewer[j] is Block implies
                    fewer[j]->Block_0.reference != fewer[k]->Block_0.reference by {
                    assert(fewer[j] == steps[j]);
                }
            }
            if is_taken(m, fewer, k) {
                assert forall|j: int| 0 <= j < k && #[trigger] steps[j] is Block implies
                    steps[j]->Block_0.reference != steps[k]->Block_0.reference by {
                    assert(fewer[j] == steps[j]);
                }
            }
        }
    }
}

/// Among the blocks with one reference, the first is taken, if one of them is above the GC round
/// when it arrives.
proof fn lemma_first_is_taken(m: CertifierModel, steps: Seq<Step>, j: int) -> (i: int)
    requires
        collects_forward(m, steps),
        0 <= j < steps.len(),
        steps[j] is Block,
        steps[j]->Block_0.reference.round > gc_round_before(m, steps, j),
    ensures
        i <= j,
        is_taken(m, steps, i),
        steps[i]->Block_0.reference == steps[j]->Block_0.reference,
    decreases j,
{
    reveal(is_taken);
    if is_taken(m, steps, j) {
        j
    } else {
        let k = choose|k: int|
            0 <= k < j && #[trigger] steps[k] is Block && steps[k]->Block_0.reference
                == steps[j]->Block_0.reference;
        lemma_gc_round_grows(m, steps, k, j);
        lemma_first_is_taken(m, steps, k)
    }
}

/// The GC round never goes down where collections go forward.
pub proof fn lemma_gc_round_grows(m: CertifierModel, steps: Seq<Step>, i: int, j: int)
    requires
        collects_forward(m, steps),
        0 <= i <= j <= steps.len(),
    ensures
        gc_round_before(m, steps, i) <= gc_round_before(m, steps, j),
    decreases j,
{
    if i < j {
        lemma_gc_round_grows(m, steps, i, j - 1);
        assert(steps.take(j).drop_last() =~= steps.take(j - 1));
        let _ = steps[j - 1];
    }
}

/// A block that is taken is a block, and the only one with its reference that is taken.
pub proof fn lemma_taken_once(m: CertifierModel, steps: Seq<Step>, k: int)
    requires
        is_taken(m, steps, k),
    ensures
        0 <= k < steps.len(),
        steps[k] is Block,
        forall|j: int| #[trigger]
            is_taken(m, steps, j) && steps[j]->Block_0.reference == steps[k]->Block_0.reference
                ==> j == k,
{
    reveal(is_taken);
    assert forall|j: int| #[trigger]
        is_taken(m, steps, j) && steps[j]->Block_0.reference
            == steps[k]->Block_0.reference implies j == k by {
        let _ = steps[j];
    }
}

/// Some block with this reference was taken.
pub open spec fn some_taken(m: CertifierModel, steps: Seq<Step>, r: BlockRef) -> bool {
    exists|k: int| #[trigger] is_taken(m, steps, k) && steps[k]->Block_0.reference == r
}

/// Whether the last step is taken, by what was taken before.
proof fn lemma_last_is_taken(m: CertifierModel, steps: Seq<Step>)
    requires
        steps.len() > 0,
        collects_forward(m, steps),
        steps.last() is Block,
    ensures
        is_taken(m, steps, steps.len() - 1) <==> steps.last()->Block_0.reference.round
            > after_steps(m, steps.drop_last()).gc_round && !some_taken(
            m,
            steps.drop_last(),
            steps.last()->Block_0.reference,
        ),
{
    let fewer = steps.drop_last();
    let last = steps.len() - 1;
    let r = steps[last]->Block_0.reference;
    lemma_first_steps(m, steps);
    if is_taken(m, steps, last) {
        assert(r.round > gc_round_before(m, steps, last)) by {
            reveal(is_taken);
        }
        if some_taken(m, fewer, r) {
            let k = choose|k: int| #[trigger]
                is_taken(m, fewer, k) && fewer[k]->Block_0.reference == r;
            lemma_taken_once(m, fewer, k);
            assert(is_taken(m, steps, k));
            assert(steps[k] == fewer[k]);
            lemma_taken_once(m, steps, last);
        }
    } else if r.round > after_steps(m, fewer).gc_round {
        let i = lemma_first_is_taken(m, steps, last);
        lemma_taken_once(m, steps, i);
        assert(is_taken(m, fewer, i));
        assert(fewer[i] == steps[i]);
    }
}

/// What one block changes.
proof fn lemma_block_step(
    m: CertifierModel,
    block: VerifiedBlock,
    own_rejects: Seq<TransactionIndex>,
    taken: bool,
    r: BlockRef,
    txn: TransactionIndex,
)
    requires
        r.round > m.gc_round,
        taken <==> block.reference.round > m.gc_round && votes_on(
            m.votes,
            block.reference,
        ).block is None,
    ensures
        ({
            let then = votes_on(m.votes, r);
            let now = votes_on(after_voted_block(m, block, own_rejects).votes, r);
            let rejects = taken && rejects_txn(block.transaction_votes@, r, txn);
            &&& now.block == if taken && r == block.reference {
                Some(block)
            } else {
                then.block
            }
            &&& now.own_rejects == if taken && r == block.reference {
                own_rejects
            } else {
                then.own_rejects
            }
            &&& now.rejecters.contains_key(txn) <==> then.rejecters.contains_key(txn) || rejects
            &&& rejecters_of(now, txn) == if rejects {
                rejecters_of(then, txn).insert(block.reference.author)
            } else {
                rejecters_of(then, txn)
            }
        }),
{
    if taken && rejects_txn(block.transaction_votes@, r, txn) {
        let i = choose|i: int|
            0 <= i < block.transaction_votes@.len() && (
            #[trigger] block.transaction_votes@[i]).block_ref == r
                && block.transaction_votes@[i].rejects@.contains(txn);
        assert(block.transaction_votes@[i].block_ref == r);
    }
    let then = votes_on(m.votes, r);
    let now = votes_on(after_voted_block(m, block, own_rejects).votes, r);
    assert(rejecters_of(now, txn) =~= if taken && rejects_txn(block.transaction_votes@, r, txn) {
        rejecters_of(then, txn).insert(block.reference.author)
    } else {
        rejecters_of(then, txn)
    });
}

/// The votes on a block above the GC round, as far as the laws below go.
proof fn lemma_one_more_step(
    gc_round: Round,
    steps: Seq<Step>,
    r: BlockRef,
    txn: TransactionIndex,
)
    requires
        steps.len() > 0,
        collects_forward(fresh(gc_round), steps),
        r.round > after_steps(fresh(gc_round), steps).gc_round,
        steps.last() is Block && steps.last()->Block_0.reference.round > after_steps(
            fresh(gc_round),
            steps.drop_last(),
        ).gc_round ==> (votes_on(
            after_steps(fresh(gc_round), steps.drop_last()).votes,
            steps.last()->Block_0.reference,
        ).block is Some <==> some_taken(
            fresh(gc_round),
            steps.drop_last(),
            steps.last()->Block_0.reference,
        )),
    ensures
        ({
            let last = steps.len() - 1;
            let then = votes_on(after_steps(fresh(gc_round), steps.drop_last()).votes, r);
            let now = votes_on(after_steps(fresh(gc_round), steps).votes, r);
            let taken = is_taken(fresh(gc_round), steps, last);
            let block = steps[last]->Block_0;
            let rejects = taken && rejects_txn(block.transaction_votes@, r, txn);
            &&& r.round > after_steps(fresh(gc_round), steps.drop_last()).gc_round
            &&& taken ==> steps[last] is Block
            &&& now.block == if taken && r == block.reference {
                Some(block)
            } else {
                then.block
            }
            &&& now.own_rejects == if taken && r == block.reference {
                steps[last]->Block_1
            } else {
                then.own_rejects
            }
            &&& now.rejecters.contains_key(txn) <==> then.rejecters.contains_key(txn) || rejects
            &&& rejecters_of(now, txn) == if rejects {
                rejecters_of(then, txn).insert(block.reference.author)
            } else {
                rejecters_of(then, txn)
            }
        }),
{
    let m = fresh(gc_round);
    let last = steps.len() - 1;
    lemma_first_steps(m, steps);
    match steps[last] {
        Step::Block(block, own_rejects) => {
            lemma_last_is_taken(m, steps);
            lemma_block_step(
                after_steps(m, steps.drop_last()),
                block,
                own_rejects,
                is_taken(m, steps, last),
                r,
                txn,
            );
        },
        Step::Collect(round) => {
            assert(!is_taken(m, steps, last)) by {
                reveal(is_taken);
            }
            lemma_gc_keeps_the_rest(after_steps(m, steps.drop_last()), round, r);
        },
    }
}

/// Blocks above the GC round are known to be received exactly if they were taken, and then with
/// the own votes that they were taken with, whatever was collected in between.
pub proof fn lemma_received_iff_taken(gc_round: Round, steps: Seq<Step>, r: BlockRef)
    requires
        collects_forward(fresh(gc_round), steps),
        r.round > after_steps(fresh(gc_round), steps).gc_round,
    ensures
        votes_on(after_steps(fresh(gc_round), steps).votes, r).block is Some <==> some_taken(
            fresh(gc_round),
            steps,
            r,
        ),
        forall|k: int| #[trigger]
            is_taken(fresh(gc_round), steps, k) && steps[k]->Block_0.reference == r ==> votes_on(
                after_steps(fresh(gc_round), steps).votes,
                r,
            ).block == Some(steps[k]->Block_0) && votes_on(
                after_steps(fresh(gc_round), steps).votes,
                r,
            ).own_rejects == steps[k]->Block_1,
    decreases steps.len(),
{
    let m = fresh(gc_round);
    if steps.len() == 0 {
        if some_taken(m, steps, r) {
            let k = choose|k: int| #[trigger]
                is_taken(m, steps, k) && steps[k]->Block_0.reference == r;
            lemma_taken_once(m, steps, k);
        }
        assert forall|k: int| !#[trigger] is_taken(m, steps, k) by {
            reveal(is_taken);
        }
    } else {
        let fewer = steps.drop_last();
        let last = steps.len() - 1;
        lemma_first_steps(m, steps);
        if steps[last] is Block && steps[last]->Block_0.reference.round > after_steps(
            m,
            fewer,
        ).gc_round {
            lemma_received_iff_taken(gc_round, fewer, steps[last]->Block_0.reference);
        }
        lemma_received_iff_taken(gc_round, fewer, r);
        lemma_one_more_step(gc_round, steps, r, 0);
        assert forall|k: int| #[trigger] is_taken(m, fewer, k) implies is_taken(m, steps, k)
            && steps[k] == fewer[k] by {
            lemma_taken_once(m, fewer, k);
            let _ = is_taken(m, steps, k);
        }
        assert forall|k: int| #[trigger] is_taken(m, steps, k) implies k == last || (is_taken(
            m,
            fewer,
            k,
        ) && steps[k] == fewer[k]) by {
            lemma_taken_once(m, steps, k);
        }
        if is_taken(m, steps, last) {
            lemma_taken_once(m, steps, last);
        }
    }
}

/// The rejecters of a transaction above the GC round are exactly the authors of those blocks,
/// among the ones taken so far, that reject it: none is missed, none is made up, the block with
/// the transaction need not be there, and it does not matter what was collected in between. The
/// transaction is listed exactly if there is such a block.
pub proof fn lemma_rejecters_are_the_voters(
    gc_round: Round,
    steps: Seq<Step>,
    r: BlockRef,
    txn: TransactionIndex,
)
    requires
        collects_forward(fresh(gc_round), steps),
        r.round > after_steps(fresh(gc_round), steps).gc_round,
    ensures
        forall|author: AuthorityIndex| #[trigger]
            rejecters_of(votes_on(after_steps(fresh(gc_round), steps).votes, r), txn).contains(
                author,
            ) <==> rejected_by(fresh(gc_round), steps, author, r, txn),
        votes_on(after_steps(fresh(gc_round), steps).votes, r).rejecters.contains_key(txn)
            <==> rejected_by_some(fresh(gc_round), steps, r, txn),
    decreases steps.len(),
{
    let m = fresh(gc_round);
    if steps.len() == 0 {
        assert forall|k: int| !#[trigger] is_taken(m, steps, k) by {
            reveal(is_taken);
        }
    } else {
        let fewer = steps.drop_last();
        let last = steps.len() - 1;
        lemma_first_steps(m, steps);
        if steps[last] is Block && steps[last]->Block_0.reference.round > after_steps(
            m,
            fewer,
        ).gc_round {
            lemma_received_iff_taken(gc_round, fewer, steps[last]->Block_0.reference);
        }
        lemma_one_more_step(gc_round, steps, r, txn);
        lemma_rejecters_are_the_voters(gc_round, fewer, r, txn);
        assert forall|k: int| #[trigger] is_rejection(m, fewer, k, r, txn) implies is_rejection(
            m,
            steps,
            k,
            r,
            txn,
        ) && steps[k] == fewer[k] by {
            lemma_taken_once(m, fewer, k);
            let _ = is_taken(m, steps, k);
        }
        assert forall|k: int| #[trigger] is_rejection(m, steps, k, r, txn) implies k == last || (
        is_rejection(m, fewer, k, r, txn) && steps[k] == fewer[k]) by {
            lemma_taken_once(m, steps, k);
            if k < last {
                assert(is_taken(m, fewer, k));
                assert(fewer[k] == steps[k]);
            }
        }
        assert(rejected_by_some(m, steps, r, txn) <==> rejected_by_some(m, fewer, r, txn)
            || is_rejection(m, steps, last, r, txn)) by {
            if rejected_by_some(m, fewer, r, txn) {
                let k = choose|k: int| #[trigger] is_rejection(m, fewer, k, r, txn);
                assert(is_rejection(m, steps, k, r, txn));
            }
            if rejected_by_some(m, steps, r, txn) {
                let k = choose|k: int| #[trigger] is_rejection(m, steps, k, r, txn);
                assert(k == last || is_rejection(m, fewer, k, r, txn));
            }
        }
        assert forall|author: AuthorityIndex| rejected_by(m, steps, author, r, txn)
            <==> #[trigger] rejected_by(m, fewer, author, r, txn) || (is_rejection(
            m,
            steps,
            last,
            r,
            txn,
        ) && steps[last]->Block_0.reference.author == author) by {
            if rejected_by(m, fewer, author, r, txn) {
                let k = choose|k: int| #[trigger]
                    is_rejection(m, fewer, k, r, txn) && fewer[k]->Block_0.reference.author
                        == author;
                assert(is_rejection(m, steps, k, r, txn));
            }
            if rejected_by(m, steps, author, r, txn) {
                let k = choose|k: int| #[trigger]
                    is_rejection(m, steps, k, r, txn) && steps[k]->Block_0.reference.author
                        == author;
                if k != last {
                    assert(is_rejection(m, fewer, k, r, txn));
                }
            }
        }
        assert forall|author: AuthorityIndex| #[trigger]
            rejecters_of(votes_on(after_steps(m, steps).votes, r), txn).contains(author)
                <==> rejected_by(m, steps, author, r, txn) by {
            let _ = rejected_by(m, fewer, author, r, txn);
            let _ = rejecters_of(votes_on(after_steps(m, fewer).votes, r), txn).contains(author);
        }
    }
}

} // verus!
