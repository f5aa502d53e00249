//! What the calls of a certifier answer, in terms of the blocks that it was given, and how they
//! relate.
//!
//! Each law speaks of every answer that a call can give. A certifier `c` before a call is
//! `*old(c)`, and after it `*final(c)`.
use crate::consensus::block::{
    total_stake, AuthorityIndex, BlockRef, BlockTransactionVotes, Committee, Round, Stake,
    TransactionIndex, VerifiedBlock,
};
use crate::consensus::certifier::{CertifierState, TransactionCertifier};
use crate::consensus::laws::{
    after_steps, collects_forward, fresh, gc_round_before, is_rejection, is_taken,
    lemma_blocks_are_steps, lemma_gc_round_stays, lemma_received_iff_taken,
    lemma_rejecters_are_the_voters, rejected_by, rejected_by_some, some_taken, Step,
};
use crate::consensus::model::{
    after_voted_block, after_voted_blocks, is_reject_tally, mentions, own_reject_counts, own_votes,
    rejecters_of, rejects_txn, votes_on, BlockVotes, CertifierModel, OwnRejectCount,
};
use crate::consensus::recovery::{
    due_vote_failed_at, due_votes, is_voted, is_voted_where_due, vote_failed, vote_failed_at, vote_on_blocks,
    vote_where_due, RecoveryPlan, VoteFailure,
};
use crate::consensus::stake_aggregator::{
    lemma_stake_monotone, lemma_stake_of_nobody, lemma_stake_of_one_more, stake_of, StakeAggregator,
};
use vstd::prelude::*;

verus! {

/// Blocks with own votes on them.
pub type Voted = (VerifiedBlock, Vec<TransactionIndex>);

/// Block `x` is above the round, and the first of the list with its reference.
pub open spec fn counts(blocks: Seq<Voted>, gc_round: Round, x: int) -> bool {
    &&& 0 <= x < blocks.len()
    &&& blocks[x].0.reference.round > gc_round
    &&& forall|y: int|
        0 <= y < x ==> (#[trigger] blocks[y]).0.reference != blocks[x].0.reference
}

/// Index `j` of list `i` of the votes in block `x` is this transaction of this block.
pub open spec fn names(
    blocks: Seq<Voted>,
    x: int,
    i: int,
    j: int,
    r: BlockRef,
    txn: TransactionIndex,
) -> bool {
    &&& 0 <= i < blocks[x].0.transaction_votes@.len()
    &&& blocks[x].0.transaction_votes@[i].block_ref == r
    &&& 0 <= j < blocks[x].0.transaction_votes@[i].rejects@.len()
    &&& blocks[x].0.transaction_votes@[i].rejects@[j] == txn
}

/// Somewhere in a block of `author` that counts, the transaction is named.
pub open spec fn names_somewhere(
    blocks: Seq<Voted>,
    gc_round: Round,
    author: AuthorityIndex,
    r: BlockRef,
    txn: TransactionIndex,
) -> bool {
    exists|x: int, i: int, j: int| #[trigger]
        names(blocks, x, i, j, r, txn) && counts(blocks, gc_round, x)
            && blocks[x].0.reference.author == author
}

/// Somewhere in a block that counts, the transaction is named.
pub open spec fn is_named(
    blocks: Seq<Voted>,
    gc_round: Round,
    r: BlockRef,
    txn: TransactionIndex,
) -> bool {
    exists|author: AuthorityIndex| #[trigger] names_somewhere(blocks, gc_round, author, r, txn)
}

/// The report has an entry for the transaction.
pub open spec fn is_listed(report: Seq<(TransactionIndex, Stake)>, txn: TransactionIndex) -> bool {
    exists|t: int| 0 <= t < report.len() && (#[trigger] report[t]).0 == txn
}

/// The authors of the blocks that name a transaction to reject.
pub open spec fn voters_against(
    blocks: Seq<Voted>,
    gc_round: Round,
    r: BlockRef,
    txn: TransactionIndex,
) -> Set<AuthorityIndex> {
    Set::new(|author: AuthorityIndex| names_somewhere(blocks, gc_round, author, r, txn))
}

/// Whatever a certifier knows, it counts every vote of a block that it takes: for each list of
/// votes in the block that is about a block above the GC round, and each index in that list, the
/// index is listed for that block, and the author of the votes is among those against it.
pub proof fn lemma_every_reject_is_counted(
    m: CertifierModel,
    block: VerifiedBlock,
    own_rejects: Seq<TransactionIndex>,
    i: int,
    j: int,
)
    requires
        block.reference.round > m.gc_round,
        m.votes.contains_key(block.reference) ==> m.votes[block.reference].block is None,
        0 <= i < block.transaction_votes@.len(),
        block.transaction_votes@[i].block_ref.round > m.gc_round,
        0 <= j < block.transaction_votes@[i].rejects@.len(),
    ensures
        ({
            let r = block.transaction_votes@[i].block_ref;
            let txn = block.transaction_votes@[i].rejects@[j];
            let now = after_voted_block(m, block, own_rejects).votes;
            &&& now.contains_key(r)
            &&& now[r].rejecters.contains_key(txn)
            &&& now[r].rejecters[txn].contains(block.reference.author)
        }),
{
    let r = block.transaction_votes@[i].block_ref;
    let txn = block.transaction_votes@[i].rejects@[j];
    assert(block.transaction_votes@[i].rejects@.contains(txn));
    assert(rejects_txn(block.transaction_votes@, r, txn));
}

/// A certifier makes nothing up: who is against a transaction after a block was before, or is the
/// author of the block, which then names the transaction.
pub proof fn lemma_no_reject_is_made_up(
    m: CertifierModel,
    block: VerifiedBlock,
    own_rejects: Seq<TransactionIndex>,
    r: BlockRef,
    txn: TransactionIndex,
    author: AuthorityIndex,
)
    requires
        ({
            let now = after_voted_block(m, block, own_rejects).votes;
            now.contains_key(r) && now[r].rejecters.contains_key(txn)
                && now[r].rejecters[txn].contains(author)
        }),
        !(m.votes.contains_key(r) && m.votes[r].rejecters.contains_key(txn)
            && m.votes[r].rejecters[txn].contains(author)),
    ensures
        author == block.reference.author,
        exists|i: int, j: int|
            0 <= i < block.transaction_votes@.len() && block.transaction_votes@[i].block_ref == r
                && 0 <= j < block.transaction_votes@[i].rejects@.len()
                && #[trigger] block.transaction_votes@[i].rejects@[j] == txn,
{
    let cast = block.transaction_votes@;
    assert(rejects_txn(cast, r, txn));
    let i = choose|i: int|
        0 <= i < cast.len() && #[trigger] cast[i].block_ref == r && cast[i].rejects@.contains(txn);
    let j = choose|j: int| 0 <= j < cast[i].rejects@.len() && cast[i].rejects@[j] == txn;
    assert(block.transaction_votes@[i].rejects@[j] == txn);
}

/// A block that is taken is kept with own votes on it, and changes neither the GC round nor what
/// was received of others; one that is too old or was received before changes nothing.
pub proof fn lemma_block_is_kept(
    m: CertifierModel,
    block: VerifiedBlock,
    own_rejects: Seq<TransactionIndex>,
    other: BlockRef,
)
    requires
        other != block.reference,
    ensures
        ({
            let now = after_voted_block(m, block, own_rejects);
            let known = m.votes.contains_key(block.reference)
                && m.votes[block.reference].block is Some;
            &&& now.gc_round == m.gc_round
            &&& block.reference.round <= m.gc_round || known ==> now == m
            &&& block.reference.round > m.gc_round && !known ==> {
                &&& now.votes.contains_key(block.reference)
                &&& now.votes[block.reference].block == Some(block)
                &&& now.votes[block.reference].own_rejects == own_rejects
            }
            &&& m.votes.contains_key(other) ==> {
                &&& now.votes.contains_key(other)
                &&& now.votes[other].block == m.votes[other].block
                &&& now.votes[other].own_rejects == m.votes[other].own_rejects
            }
            &&& now.votes.contains_key(other) && !m.votes.contains_key(other) ==> {
                &&& now.votes[other].block is None
                &&& now.votes[other].own_rejects.len() == 0
                &&& exists|i: int|
                    0 <= i < block.transaction_votes@.len() && (
                    #[trigger] block.transaction_votes@[i]).block_ref == other
            }
        }),
{
    let now = after_voted_block(m, block, own_rejects);
    if now.votes.contains_key(other) && !m.votes.contains_key(other) {
        let cast = block.transaction_votes@;
        let i = choose|i: int| 0 <= i < cast.len() && #[trigger] cast[i].block_ref == other;
        assert(block.transaction_votes@[i].block_ref == other);
    }
}

/// A block above the GC round that is voted on by a block that is taken is known from then on,
/// also where the vote rejects nothing.
pub proof fn lemma_voted_on_is_known(
    m: CertifierModel,
    block: VerifiedBlock,
    own_rejects: Seq<TransactionIndex>,
    i: int,
)
    requires
        block.reference.round > m.gc_round,
        m.votes.contains_key(block.reference) ==> m.votes[block.reference].block is None,
        0 <= i < block.transaction_votes@.len(),
        block.transaction_votes@[i].block_ref.round > m.gc_round,
    ensures
        after_voted_block(m, block, own_rejects).votes.contains_key(
            block.transaction_votes@[i].block_ref,
        ),
{
    let r = block.transaction_votes@[i].block_ref;
    assert(mentions(block.transaction_votes@, r));
}

/// One block is a list of one, and none changes nothing.
pub proof fn lemma_lists_of_one(m: CertifierModel, block: Voted)
    ensures
        after_voted_blocks(m, Seq::empty()) == m,
        after_voted_blocks(m, seq![block]) == after_voted_block(m, block.0, block.1@),
{
    reveal_with_fuel(after_voted_blocks, 2);
    assert(seq![block].drop_last() =~= Seq::<Voted>::empty());
}

/// Steps for a list of blocks are taken exactly where the blocks count.
proof fn lemma_counts_is_taken(blocks: Seq<Voted>, gc_round: Round)
    ensures
        ({
            let steps = blocks.map_values(|b: Voted| Step::Block(b.0, b.1@));
            &&& collects_forward(fresh(gc_round), steps)
            &&& after_steps(fresh(gc_round), steps) == after_voted_blocks(fresh(gc_round), blocks)
            &&& after_voted_blocks(fresh(gc_round), blocks).gc_round == gc_round
            &&& forall|x: int| #[trigger]
                is_taken(fresh(gc_round), steps, x) <==> counts(blocks, gc_round, x)
        }),
{
    let m = fresh(gc_round);
    let f = |b: Voted| Step::Block(b.0, b.1@);
    let steps = blocks.map_values(f);
    lemma_blocks_are_steps(m, blocks);
    lemma_gc_round_stays(m, blocks);
    assert forall|x: int| 0 <= x < steps.len() implies #[trigger] gc_round_before(m, steps, x)
        == gc_round by {
        assert(steps.take(x) =~= blocks.take(x).map_values(f));
        lemma_blocks_are_steps(m, blocks.take(x));
        lemma_gc_round_stays(m, blocks.take(x));
    }
    assert forall|x: int| #[trigger] is_taken(m, steps, x) <==> counts(blocks, gc_round, x) by {
        reveal(is_taken);
        if 0 <= x < blocks.len() {
            let _ = gc_round_before(m, steps, x);
            if counts(blocks, gc_round, x) {
                assert forall|y: int| 0 <= y < x && #[trigger] steps[y] is Block implies
                    steps[y]->Block_0.reference != steps[x]->Block_0.reference by {
                    assert(blocks[y].0.reference != blocks[x].0.reference);
                }
            }
            if is_taken(m, steps, x) {
                assert forall|y: int| 0 <= y < x implies (#[trigger] blocks[y]).0.reference
                    != blocks[x].0.reference by {
                    assert(steps[y] is Block);
                }
            }
        }
    }
}

/// After a list of blocks, those against a transaction above the GC round are the authors of the
/// blocks that name it.
proof fn lemma_against(blocks: Seq<Voted>, gc_round: Round, r: BlockRef, txn: TransactionIndex)
    requires
        r.round > gc_round,
    ensures
        ({
            let votes = votes_on(after_voted_blocks(fresh(gc_round), blocks).votes, r);
            &&& rejecters_of(votes, txn) == voters_against(blocks, gc_round, r, txn)
            &&& votes.rejecters.contains_key(txn) <==> is_named(blocks, gc_round, r, txn)
        }),
{
    let m = fresh(gc_round);
    let f = |b: Voted| Step::Block(b.0, b.1@);
    let steps = blocks.map_values(f);
    lemma_counts_is_taken(blocks, gc_round);
    lemma_rejecters_are_the_voters(gc_round, steps, r, txn);
    assert forall|x: int| #[trigger] is_rejection(m, steps, x, r, txn) implies names_somewhere(
        blocks,
        gc_round,
        blocks[x].0.reference.author,
        r,
        txn,
    ) && steps[x]->Block_0 == blocks[x].0 by {
        assert(counts(blocks, gc_round, x));
        let cast = blocks[x].0.transaction_votes@;
        let i = choose|i: int|
            0 <= i < cast.len() && #[trigger] cast[i].block_ref == r && cast[i].rejects@.contains(
                txn,
            );
        let j = choose|j: int| 0 <= j < cast[i].rejects@.len() && cast[i].rejects@[j] == txn;
        assert(names(blocks, x, i, j, r, txn));
    }
    assert forall|author: AuthorityIndex| #[trigger]
        names_somewhere(blocks, gc_round, author, r, txn) <==> rejected_by(
        m,
        steps,
        author,
        r,
        txn,
    ) by {
        if names_somewhere(blocks, gc_round, author, r, txn) {
            let (x, i, j) = choose|x: int, i: int, j: int| #[trigger]
                names(blocks, x, i, j, r, txn) && counts(blocks, gc_round, x)
                    && blocks[x].0.reference.author == author;
            let cast = blocks[x].0.transaction_votes@;
            assert(cast[i].rejects@.contains(txn));
            assert(cast[i].block_ref == r);
            assert(rejects_txn(cast, r, txn));
            assert(is_taken(m, steps, x));
            assert(is_rejection(m, steps, x, r, txn));
        }
        if rejected_by(m, steps, author, r, txn) {
            let x = choose|x: int| #[trigger]
                is_rejection(m, steps, x, r, txn) && steps[x]->Block_0.reference.author == author;
            assert(names_somewhere(blocks, gc_round, blocks[x].0.reference.author, r, txn));
        }
    }
    let votes = votes_on(after_voted_blocks(m, blocks).votes, r);
    assert(rejecters_of(votes, txn) =~= voters_against(blocks, gc_round, r, txn)) by {
        assert forall|author: AuthorityIndex| #[trigger]
            rejecters_of(votes, txn).contains(author) <==> voters_against(
            blocks,
            gc_round,
            r,
            txn,
        ).contains(author) by {
            let _ = names_somewhere(blocks, gc_round, author, r, txn);
        }
    }
    if votes.rejecters.contains_key(txn) {
        assert(rejected_by_some(m, steps, r, txn));
        let x = choose|x: int| #[trigger] is_rejection(m, steps, x, r, txn);
        assert(names_somewhere(blocks, gc_round, blocks[x].0.reference.author, r, txn));
    }
    if is_named(blocks, gc_round, r, txn) {
        let author = choose|author: AuthorityIndex| #[trigger]
            names_somewhere(blocks, gc_round, author, r, txn);
        assert(rejected_by(m, steps, author, r, txn));
        let x = choose|x: int| #[trigger]
            is_rejection(m, steps, x, r, txn) && steps[x]->Block_0.reference.author == author;
        assert(rejected_by_some(m, steps, r, txn));
    }
}

/// What a certifier reports of a block is exactly what the blocks say: the transactions that some
/// block names, in order and each once, with the stake of the authors of the blocks that name it.
pub proof fn lemma_report_is_exact(
    committee: Committee,
    c: &mut TransactionCertifier,
    blocks: Vec<Voted>,
    metrics: Vec<OwnRejectCount>,
    seen: &TransactionCertifier,
    r: BlockRef,
    report: Vec<(TransactionIndex, Stake)>,
)
    requires
        call_ensures(TransactionCertifier::new, (committee,), *old(c)),
        call_ensures(TransactionCertifier::add_voted_blocks, (c, blocks), metrics),
        *seen == *final(c),
        call_ensures(TransactionCertifier::get_reject_votes, (seen, &r), Some(report)),
        r.round > 0,
    ensures
        forall|t: int, u: int| 0 <= t < u < report@.len() ==> report@[t].0 < report@[u].0,
        forall|t: int|
            #![trigger report@[t]]
            0 <= t < report@.len() ==> report@[t].1 == stake_of(
                voters_against(blocks@, 0, r, report@[t].0),
                committee.stakes(),
            ),
        forall|txn: TransactionIndex| #[trigger]
            is_listed(report@, txn) <==> is_named(blocks@, 0, r, txn),
{
    let votes = votes_on(after_voted_blocks(fresh(0), blocks@).votes, r);
    assert(is_reject_tally(report@, votes, committee.stakes()));
    assert forall|t: int|
        #![trigger report@[t]]
        0 <= t < report@.len() implies report@[t].1 == stake_of(
        voters_against(blocks@, 0, r, report@[t].0),
        committee.stakes(),
    ) by {
        lemma_against(blocks@, 0, r, report@[t].0);
    }
    assert forall|txn: TransactionIndex| #[trigger] is_listed(report@, txn) <==> is_named(
        blocks@,
        0,
        r,
        txn,
    ) by {
        lemma_against(blocks@, 0, r, txn);
        if is_listed(report@, txn) {
            let t = choose|t: int| 0 <= t < report@.len() && (#[trigger] report@[t]).0 == txn;
            assert(votes.rejecters.contains_key(report@[t].0));
        }
        if votes.rejecters.contains_key(txn) {
            let t = choose|t: int| 0 <= t < report@.len() && #[trigger] report@[t].0 == txn;
            let _ = report@[t];
        }
    }
}

/// Every index that a block names is reported for the block that it is about, with at least the
/// stake of the author who names it: for every block that is taken, every list of votes in it and
/// every index in that list.
pub proof fn lemma_every_reject_is_reported(
    committee: Committee,
    c: &mut TransactionCertifier,
    blocks: Vec<Voted>,
    metrics: Vec<OwnRejectCount>,
    seen: &TransactionCertifier,
    x: int,
    i: int,
    j: int,
    report: Option<Vec<(TransactionIndex, Stake)>>,
) -> (t: int)
    requires
        committee.wf(),
        call_ensures(TransactionCertifier::new, (committee,), *old(c)),
        call_ensures(TransactionCertifier::add_voted_blocks, (c, blocks), metrics),
        *seen == *final(c),
        0 <= x < blocks@.len(),
        blocks@[x].0.reference.round > 0,
        blocks@[x].0.reference.author < committee.stakes().len(),
        forall|y: int|
            0 <= y < x ==> (#[trigger] blocks@[y]).0.reference != blocks@[x].0.reference,
        0 <= i < blocks@[x].0.transaction_votes@.len(),
        blocks@[x].0.transaction_votes@[i].block_ref.round > 0,
        0 <= j < blocks@[x].0.transaction_votes@[i].rejects@.len(),
        call_ensures(
            TransactionCertifier::get_reject_votes,
            (seen, &blocks@[x].0.transaction_votes@[i].block_ref),
            report,
        ),
    ensures
        report is Some,
        0 <= t < report->0@.len(),
        report->0@[t].0 == blocks@[x].0.transaction_votes@[i].rejects@[j],
        report->0@[t].1 >= committee.stakes()[blocks@[x].0.reference.author as int],
{
    let author = blocks@[x].0.reference.author;
    let r = blocks@[x].0.transaction_votes@[i].block_ref;
    let txn = blocks@[x].0.transaction_votes@[i].rejects@[j];
    lemma_against(blocks@, 0, r, txn);
    assert(names(blocks@, x, i, j, r, txn));
    assert(counts(blocks@, 0, x));
    assert(names_somewhere(blocks@, 0, author, r, txn));
    let votes = votes_on(after_voted_blocks(fresh(0), blocks@).votes, r);
    assert(votes.rejecters.contains_key(txn));
    let tally = report->0@;
    let t = choose|t: int| 0 <= t < tally.len() && #[trigger] tally[t].0 == txn;
    let _ = tally[t];
    let one = Set::<AuthorityIndex>::empty().insert(author);
    lemma_stake_of_nobody(committee.stakes());
    lemma_stake_of_one_more(Set::empty(), author, committee.stakes());
    assert(voters_against(blocks@, 0, r, txn).contains(author));
    lemma_stake_monotone(one, votes.rejecters[txn], committee.stakes());
    t
}

/// A block is reported on exactly if it was given to the certifier or is voted on by a block that
/// counts, and is not of the first round of all.
pub proof fn lemma_reported_if_heard_of(
    committee: Committee,
    c: &mut TransactionCertifier,
    blocks: Vec<Voted>,
    metrics: Vec<OwnRejectCount>,
    seen: &TransactionCertifier,
    r: BlockRef,
    report: Option<Vec<(TransactionIndex, Stake)>>,
)
    requires
        call_ensures(TransactionCertifier::new, (committee,), *old(c)),
        call_ensures(TransactionCertifier::add_voted_blocks, (c, blocks), metrics),
        *seen == *final(c),
        call_ensures(TransactionCertifier::get_reject_votes, (seen, &r), report),
    ensures
        report is Some <==> heard_of(blocks@, 0, r),
{
    lemma_heard_of(blocks@, 0, r);
}

/// The block was given, or is voted on by a block that counts.
pub open spec fn heard_of(blocks: Seq<Voted>, gc_round: Round, r: BlockRef) -> bool {
    r.round > gc_round && ((exists|x: int|
        0 <= x < blocks.len() && (#[trigger] blocks[x]).0.reference == r) || (exists|x: int, i: int|
        counts(blocks, gc_round, x) && 0 <= i < blocks[x].0.transaction_votes@.len() && (
        #[trigger] blocks[x].0.transaction_votes@[i]).block_ref == r))
}

proof fn lemma_heard_of(blocks: Seq<Voted>, gc_round: Round, r: BlockRef)
    ensures
        after_voted_blocks(fresh(gc_round), blocks).votes.contains_key(r) <==> heard_of(
            blocks,
            gc_round,
            r,
        ),
    decreases blocks.len(),
{
    let m = fresh(gc_round);
    if blocks.len() > 0 {
        let fewer = blocks.drop_last();
        let last = blocks.len() - 1;
        let block = blocks[last].0;
        let before = after_voted_blocks(m, fewer);
        lemma_heard_of(fewer, gc_round, r);
        lemma_gc_round_stays(m, fewer);
        lemma_counts_is_taken(fewer, gc_round);
        assert forall|x: int| 0 <= x < last implies counts(blocks, gc_round, x) == #[trigger] counts(
            fewer,
            gc_round,
            x,
        ) by {
            if counts(blocks, gc_round, x) {
                assert forall|y: int| 0 <= y < x implies (#[trigger] fewer[y]).0.reference
                    != fewer[x].0.reference by {
                    assert(blocks[y].0.reference != blocks[x].0.reference);
                }
            }
            if counts(fewer, gc_round, x) {
                assert forall|y: int| 0 <= y < x implies (#[trigger] blocks[y]).0.reference
                    != blocks[x].0.reference by {
                    assert(fewer[y].0.reference != fewer[x].0.reference);
                }
            }
        }
        let taken = block.reference.round > gc_round && votes_on(
            before.votes,
            block.reference,
        ).block is None;
        assert(taken <==> counts(blocks, gc_round, last)) by {
            if block.reference.round > gc_round {
                lemma_received(fewer, gc_round, block.reference);
                if counts(blocks, gc_round, last) {
                    assert forall|y: int| 0 <= y < fewer.len() implies (
                    #[trigger] fewer[y]).0.reference != block.reference by {
                        assert(blocks[y].0.reference != blocks[last].0.reference);
                    }
                } else {
                    let y = choose|y: int|
                        0 <= y < last && (#[trigger] blocks[y]).0.reference
                            == blocks[last].0.reference;
                    assert(fewer[y].0.reference == block.reference);
                }
            }
        }
        let now = after_voted_blocks(m, blocks);
        let cast = block.transaction_votes@;
        assert(now.votes.contains_key(r) <==> before.votes.contains_key(r) || (taken && (r
            == block.reference || (r.round > gc_round && mentions(
            cast,
            r,
        )))));
        if heard_of(fewer, gc_round, r) {
            if exists|x: int| 0 <= x < fewer.len() && (#[trigger] fewer[x]).0.reference == r {
                let x = choose|x: int|
                    0 <= x < fewer.len() && (#[trigger] fewer[x]).0.reference == r;
                assert(blocks[x].0.reference == r);
            } else {
                let (x, i) = choose|x: int, i: int|
                    counts(fewer, gc_round, x) && 0 <= i < fewer[x].0.transaction_votes@.len() && (
                    #[trigger] fewer[x].0.transaction_votes@[i]).block_ref == r;
                assert(counts(blocks, gc_round, x));
                assert(blocks[x].0.transaction_votes@[i].block_ref == r);
            }
        }
        if now.votes.contains_key(r) && !before.votes.contains_key(r) {
            if r == block.reference {
                assert(blocks[last].0.reference == r);
            } else {
                let i = choose|i: int| 0 <= i < cast.len() && #[trigger] cast[i].block_ref == r;
                assert(blocks[last].0.transaction_votes@[i].block_ref == r);
            }
        }
        if heard_of(blocks, gc_round, r) {
            if exists|x: int| 0 <= x < blocks.len() && (#[trigger] blocks[x]).0.reference == r {
                let x = choose|x: int|
                    0 <= x < blocks.len() && (#[trigger] blocks[x]).0.reference == r;
                if x < last {
                    assert(fewer[x].0.reference == r);
                } else if !taken {
                    let y = choose|y: int|
                        0 <= y < last && (#[trigger] blocks[y]).0.reference
                            == blocks[last].0.reference;
                    assert(fewer[y].0.reference == r);
                }
            } else {
                let (x, i) = choose|x: int, i: int|
                    counts(blocks, gc_round, x) && 0 <= i < blocks[x].0.transaction_votes@.len()
                        && (#[trigger] blocks[x].0.transaction_votes@[i]).block_ref == r;
                if x < last {
                    assert(counts(fewer, gc_round, x));
                    assert(fewer[x].0.transaction_votes@[i].block_ref == r);
                } else {
                    assert(cast[i].block_ref == r);
                }
            }
        }
    }
}

/// A block above the GC round was received exactly if it is in the list.
proof fn lemma_received(blocks: Seq<Voted>, gc_round: Round, r: BlockRef)
    requires
        r.round > gc_round,
    ensures
        votes_on(after_voted_blocks(fresh(gc_round), blocks).votes, r).block is Some
            <==> exists|x: int| 0 <= x < blocks.len() && (#[trigger] blocks[x]).0.reference == r,
        forall|x: int| #[trigger]
            counts(blocks, gc_round, x) && blocks[x].0.reference == r ==> votes_on(
                after_voted_blocks(fresh(gc_round), blocks).votes,
                r,
            ).own_rejects == blocks[x].1@,
{
    let m = fresh(gc_round);
    let f = |b: Voted| Step::Block(b.0, b.1@);
    let steps = blocks.map_values(f);
    lemma_counts_is_taken(blocks, gc_round);
    lemma_received_iff_taken(gc_round, steps, r);
    assert forall|x: int| #[trigger]
        counts(blocks, gc_round, x) && blocks[x].0.reference == r implies votes_on(
        after_voted_blocks(m, blocks).votes,
        r,
    ).own_rejects == blocks[x].1@ by {
        assert(is_taken(m, steps, x));
    }
    if some_taken(m, steps, r) {
        let x = choose|x: int| #[trigger]
            is_taken(m, steps, x) && steps[x]->Block_0.reference == r;
        assert(counts(blocks, gc_round, x));
        assert(blocks[x].0.reference == r);
    }
    if exists|x: int| 0 <= x < blocks.len() && (#[trigger] blocks[x]).0.reference == r {
        let x = choose|x: int| 0 <= x < blocks.len() && (#[trigger] blocks[x]).0.reference == r;
        let y = lemma_first_counts(blocks, gc_round, x);
        assert(is_taken(m, steps, y));
    }
}

proof fn lemma_first_counts(blocks: Seq<Voted>, gc_round: Round, x: int) -> (y: int)
    requires
        0 <= x < blocks.len(),
        blocks[x].0.reference.round > gc_round,
    ensures
        counts(blocks, gc_round, y),
        blocks[y].0.reference == blocks[x].0.reference,
    decreases x,
{
    if counts(blocks, gc_round, x) {
        x
    } else {
        let z = choose|z: int|
            0 <= z < x && (#[trigger] blocks[z]).0.reference == blocks[x].0.reference;
        lemma_first_counts(blocks, gc_round, z)
    }
}

/// Own votes on a block are answered as they were given with it, for every block of the list that
/// counts: all of them, in their order, under the reference of the block, and nothing where there
/// are none.
pub proof fn lemma_own_votes_are_answered(
    committee: Committee,
    c: &mut TransactionCertifier,
    blocks: Vec<Voted>,
    metrics: Vec<OwnRejectCount>,
    seen: &TransactionCertifier,
    x: int,
    refs: Vec<BlockRef>,
    answer: Vec<BlockTransactionVotes>,
)
    requires
        call_ensures(TransactionCertifier::new, (committee,), *old(c)),
        call_ensures(TransactionCertifier::add_voted_blocks, (c, blocks), metrics),
        *seen == *final(c),
        0 <= x < blocks@.len(),
        blocks@[x].0.reference.round > 0,
        forall|y: int|
            0 <= y < x ==> (#[trigger] blocks@[y]).0.reference != blocks@[x].0.reference,
        refs@ == seq![blocks@[x].0.reference],
        call_ensures(TransactionCertifier::get_own_votes, (seen, refs), answer),
    ensures
        blocks@[x].1@.len() == 0 ==> answer@.len() == 0,
        blocks@[x].1@.len() > 0 ==> answer@.len() == 1 && answer@[0].block_ref
            == blocks@[x].0.reference && answer@[0].rejects@ == blocks@[x].1@,
{
    let r = blocks@[x].0.reference;
    assert(counts(blocks@, 0, x));
    lemma_received(blocks@, 0, r);
    lemma_gc_round_stays(fresh(0), blocks@);
    lemma_own_votes_of_one(seen.model(), r);
    assert(blocks@[x].0.reference == r);
}

/// Own votes on one block are those that were kept, if the block is above the GC round.
pub proof fn lemma_own_votes_of_one(m: CertifierModel, r: BlockRef)
    ensures
        own_votes(m, Seq::empty()).len() == 0,
        own_votes(m, seq![r]) == if r.round > m.gc_round && m.votes[r].own_rejects.len() > 0 {
            seq![(r, m.votes[r].own_rejects)]
        } else {
            Seq::empty()
        },
{
    reveal_with_fuel(Seq::filter, 2);
    assert(seq![r].drop_last() =~= Seq::<BlockRef>::empty());
    assert(own_votes(m, seq![r]) =~= if r.round > m.gc_round && m.votes[r].own_rejects.len() > 0 {
        seq![(r, m.votes[r].own_rejects)]
    } else {
        Seq::empty()
    });
}

/// The same votes, one after the other.
pub open spec fn same_lists(
    a: Seq<BlockTransactionVotes>,
    b: Seq<BlockTransactionVotes>,
) -> bool {
    &&& a.len() == b.len()
    &&& forall|i: int|
        #![trigger a[i]]
        0 <= i < a.len() ==> a[i].block_ref == b[i].block_ref && a[i].rejects@ == b[i].rejects@
}

/// Asking about two lists of blocks one after the other is asking about them as one.
pub proof fn lemma_own_votes_of_lists_join(
    c: &TransactionCertifier,
    first: Vec<BlockRef>,
    second: Vec<BlockRef>,
    both: Vec<BlockRef>,
    of_first: Vec<BlockTransactionVotes>,
    of_second: Vec<BlockTransactionVotes>,
    of_both: Vec<BlockTransactionVotes>,
)
    requires
        both@ == first@ + second@,
        call_ensures(TransactionCertifier::get_own_votes, (c, first), of_first),
        call_ensures(TransactionCertifier::get_own_votes, (c, second), of_second),
        call_ensures(TransactionCertifier::get_own_votes, (c, both), of_both),
    ensures
        same_lists(of_both@, of_first@ + of_second@),
{
    let m = c.model();
    let p = |r: BlockRef| r.round > m.gc_round && m.votes[r].own_rejects.len() > 0;
    Seq::filter_distributes_over_add(first@, second@, p);
    assert(own_votes(m, both@) =~= own_votes(m, first@) + own_votes(m, second@));
    let joined = of_first@ + of_second@;
    assert forall|i: int|
        #![trigger of_both@[i]]
        0 <= i < of_both@.len() implies of_both@[i].block_ref == joined[i].block_ref
        && of_both@[i].rejects@ == joined[i].rejects@ by {
        if i < of_first@.len() {
            let _ = of_first@[i];
        } else {
            let _ = of_second@[i - of_first@.len()];
        }
    }
}

/// For each block above the GC round, the metrics get its author and how many of its transactions
/// were rejected; where all blocks are, these are as many entries as blocks.
pub proof fn lemma_metrics_of_blocks(
    c: &mut TransactionCertifier,
    blocks: Vec<Voted>,
    metrics: Vec<OwnRejectCount>,
)
    requires
        call_ensures(TransactionCertifier::add_voted_blocks, (c, blocks), metrics),
        forall|x: int|
            0 <= x < blocks@.len() ==> (#[trigger] blocks@[x]).0.reference.round
                > old(c).model().gc_round && blocks@[x].1@.len() <= u64::MAX,
    ensures
        metrics@.len() == blocks@.len(),
        forall|x: int|
            #![trigger metrics@[x]]
            0 <= x < metrics@.len() ==> metrics@[x].author == blocks@[x].0.reference.author
                && metrics@[x].count == blocks@[x].1@.len(),
{
    let gc_round = old(c).model().gc_round;
    let p = |b: Voted| b.0.reference.round > gc_round;
    lemma_filter_all(blocks@, p);
}

proof fn lemma_filter_all(s: Seq<Voted>, p: spec_fn(Voted) -> bool)
    requires
        forall|k: int| 0 <= k < s.len() ==> p(#[trigger] s[k]),
    ensures
        s.filter(p) == s,
    decreases s.len(),
{
    reveal(Seq::filter);
    if s.len() > 0 {
        let last = s[s.len() - 1];
        assert(p(last));
        assert forall|k: int| 0 <= k < s.drop_last().len() implies p(
            #[trigger] s.drop_last()[k],
        ) by {
            assert(p(s[k]));
        }
        lemma_filter_all(s.drop_last(), p);
        assert(s.drop_last().push(last) =~= s);
    }
    assert(s.filter(p) =~= s);
}

/// The metrics of two lists of blocks are those of the two together; a block at or below the GC
/// round has none, and one above it an entry of its own.
pub proof fn lemma_metrics_of_lists_join(gc_round: Round, first: Seq<Voted>, second: Seq<Voted>)
    ensures
        own_reject_counts(gc_round, first + second)
            == own_reject_counts(gc_round, first)
            + own_reject_counts(gc_round, second),
        first.len() == 1 && first[0].0.reference.round <= gc_round
            ==> own_reject_counts(gc_round, first).len() == 0,
        first.len() == 1 && first[0].0.reference.round > gc_round ==> own_reject_counts(
            gc_round,
            first,
        ).len() == 1 && own_reject_counts(gc_round, first)[0].author
            == first[0].0.reference.author,
{
    let p = |b: Voted| b.0.reference.round > gc_round;
    Seq::filter_distributes_over_add(first, second, p);
    assert(own_reject_counts(gc_round, first + second)
        =~= own_reject_counts(gc_round, first)
        + own_reject_counts(gc_round, second));
    reveal_with_fuel(Seq::filter, 2);
}

/// One block alone does what a list of one does, and gives its entry for the metrics if it is above
/// the GC round, and only then.
pub proof fn lemma_one_block(
    s: &mut CertifierState,
    block: VerifiedBlock,
    own_rejects: Vec<TransactionIndex>,
    r: Option<OwnRejectCount>,
)
    requires
        call_ensures(CertifierState::add_voted_block, (s, block, own_rejects), r),
        own_rejects@.len() <= u64::MAX,
    ensures
        final(s).stakes() == old(s).stakes(),
        final(s).model() == after_voted_blocks(old(s).model(), seq![(block, own_rejects)]),
        r is Some <==> block.reference.round > old(s).model().gc_round,
        r matches Some(entry) ==> entry.author == block.reference.author && entry.count
            == own_rejects@.len(),
{
    lemma_lists_of_one(old(s).model(), (block, own_rejects));
}

/// Garbage collection leaves nothing up to its round, and above it every report as it was.
pub proof fn lemma_reports_after_gc(
    c: &mut TransactionCertifier,
    gc_round: Round,
    dag_gc_round: Round,
    before: &TransactionCertifier,
    after: &TransactionCertifier,
    r: BlockRef,
    report_before: Option<Vec<(TransactionIndex, Stake)>>,
    report_after: Option<Vec<(TransactionIndex, Stake)>>,
    round: Round,
)
    requires
        call_ensures(TransactionCertifier::run_gc, (c, gc_round, dag_gc_round), ()),
        *before == *old(c),
        *after == *final(c),
        call_ensures(TransactionCertifier::get_reject_votes, (before, &r), report_before),
        call_ensures(TransactionCertifier::get_reject_votes, (after, &r), report_after),
        call_ensures(TransactionCertifier::gc_round, (after,), round),
    ensures
        round == gc_round,
        r.round <= gc_round ==> report_after is None,
        r.round > gc_round ==> (report_after is Some <==> report_before is Some),
        r.round > gc_round && report_after is Some ==> report_after->0@ == report_before->0@,
{
    if r.round > gc_round && report_after is Some {
        lemma_tally_is_unique(
            report_before->0@,
            report_after->0@,
            before.model().votes[r],
            before.stakes(),
        );
    }
}

/// There is one tally of the votes on a block.
pub proof fn lemma_tally_is_unique(
    a: Seq<(TransactionIndex, Stake)>,
    b: Seq<(TransactionIndex, Stake)>,
    votes: BlockVotes,
    stakes: Seq<Stake>,
)
    requires
        is_reject_tally(a, votes, stakes),
        is_reject_tally(b, votes, stakes),
    ensures
        a == b,
{
    lemma_tally_prefix(a, b, votes, stakes, a.len() as int);
    if a.len() < b.len() {
        let txn = b[a.len() as int].0;
        let _ = b[a.len() as int];
        let t = choose|t: int| 0 <= t < a.len() && #[trigger] a[t].0 == txn;
        assert(a[t] == b[t]);
    }
    assert(a =~= b);
}

proof fn lemma_tally_prefix(
    a: Seq<(TransactionIndex, Stake)>,
    b: Seq<(TransactionIndex, Stake)>,
    votes: BlockVotes,
    stakes: Seq<Stake>,
    n: int,
)
    requires
        is_reject_tally(a, votes, stakes),
        is_reject_tally(b, votes, stakes),
        0 <= n <= a.len(),
    ensures
        n <= b.len(),
        forall|i: int| 0 <= i < n ==> #[trigger] a[i] == b[i],
    decreases n,
{
    if n > 0 {
        lemma_tally_prefix(a, b, votes, stakes, n - 1);
        let txn = a[n - 1].0;
        let _ = a[n - 1];
        let t = choose|t: int| 0 <= t < b.len() && #[trigger] b[t].0 == txn;
        if t < n - 1 {
            assert(a[t] == b[t]);
        }
        let _ = b[t];
        if t > n - 1 {
            let other = b[n - 1].0;
            let _ = b[n - 1];
            let u = choose|u: int| 0 <= u < a.len() && #[trigger] a[u].0 == other;
            if u < n - 1 {
                assert(a[u] == b[u]);
            }
        }
    }
}

/// A certifier starts before the first round that counts.
pub proof fn lemma_new_certifier(
    committee: Committee,
    c: &TransactionCertifier,
    round: Round,
    r: BlockRef,
    report: Option<Vec<(TransactionIndex, Stake)>>,
)
    requires
        call_ensures(TransactionCertifier::new, (committee,), *c),
        call_ensures(TransactionCertifier::gc_round, (c,), round),
        call_ensures(TransactionCertifier::get_reject_votes, (c, &r), report),
    ensures
        round == 0,
        report is None,
        c.stakes() == committee.stakes(),
{
}

/// A committee has the stakes that it was made of: each authority its own, as many as there are,
/// named from zero on. It cannot be had exactly where there are too many of them, or too much
/// stake.
pub proof fn lemma_committee(
    stakes: Vec<Stake>,
    made: Option<Committee>,
    size: usize,
    a: AuthorityIndex,
    stake: Stake,
    named: Vec<AuthorityIndex>,
)
    requires
        call_ensures(Committee::new, (stakes,), made),
        made matches Some(c) ==> call_ensures(Committee::size, (&c,), size),
        made matches Some(c) ==> (a < stakes@.len() ==> call_ensures(
            Committee::stake,
            (&c, a),
            stake,
        )),
        made matches Some(c) ==> call_ensures(Committee::authorities, (&c,), named),
    ensures
        made is Some <==> stakes@.len() <= u32::MAX && stakes@.fold_left(
            0int,
            |sum: int, s: Stake| sum + s,
        ) <= u64::MAX,
        made is Some ==> size == stakes@.len(),
        made is Some && a < stakes@.len() ==> stake == stakes@[a as int],
        made is Some ==> named@.len() == stakes@.len() && forall|k: int|
            0 <= k < named@.len() ==> #[trigger] named@[k] == k,
{
    lemma_total_is_the_sum(stakes@);
}

proof fn lemma_total_is_the_sum(stakes: Seq<Stake>)
    ensures
        total_stake(stakes) == stakes.fold_left(
            0int,
            |sum: int, s: Stake| sum + s,
        ),
    decreases stakes.len(),
{
    if stakes.len() > 0 {
        lemma_total_is_the_sum(stakes.drop_last());
    }
}

/// A vote that is added counts once, with the stake of the authority that cast it.
pub proof fn lemma_stake_adds_up(
    a: &mut StakeAggregator,
    vote: AuthorityIndex,
    committee: &Committee,
    added: bool,
    before: &StakeAggregator,
    after: &StakeAggregator,
    stake_before: Stake,
    stake_after: Stake,
)
    requires
        committee.wf(),
        old(a).wf(committee.stakes()),
        vote < committee.stakes().len(),
        call_ensures(StakeAggregator::add_unique, (a, vote, committee), added),
        *before == *old(a),
        *after == *final(a),
        call_ensures(StakeAggregator::stake, (before,), stake_before),
        call_ensures(StakeAggregator::stake, (after,), stake_after),
    ensures
        added <==> !before.voters().contains(vote),
        after.voters().contains(vote),
        stake_after == stake_before + if added {
            committee.stakes()[vote as int] as int
        } else {
            0
        },
{
    before.lemma_stake_of_voters(committee.stakes());
    after.lemma_stake_of_voters(committee.stakes());
    if added {
        lemma_stake_of_one_more(before.voters(), vote, committee.stakes());
    } else {
        assert(before.voters().insert(vote) =~= before.voters());
    }
}

/// Where nobody has voted there is no stake, and nobody is among the voters.
pub proof fn lemma_nobody_has_voted(
    a: StakeAggregator,
    stake: Stake,
    authority: AuthorityIndex,
    stakes: Seq<Stake>,
)
    requires
        call_ensures(StakeAggregator::new, (), a),
        call_ensures(StakeAggregator::stake, (&a,), stake),
    ensures
        a.wf(stakes),
        !a.voters().contains(authority),
        stake == 0,
{
    a.lemma_stake_of_voters(stakes);
    lemma_stake_of_nobody(stakes);
}

/// A vote is due on every block above the GC round of the DAG that can only be said not to be
/// included, whoever its author is; and on no block that is not above that round, or that can only
/// be said to be included. Where it can be said either way, what was said decides.
pub proof fn lemma_due_votes<I>(
    blocks: &Vec<VerifiedBlock>,
    dag_gc_round: Round,
    has_been_included: I,
    due: Vec<bool>,
) where I: Fn(&BlockRef) -> bool
    requires
        call_ensures(due_votes::<I>, (blocks, dag_gc_round, has_been_included), due),
    ensures
        due@.len() == blocks@.len(),
        forall|i: int|
            #![trigger due@[i]]
            0 <= i < due@.len() && blocks@[i].reference.round > dag_gc_round && !call_ensures(
                has_been_included,
                (&blocks@[i].reference,),
                true,
            ) ==> due@[i],
        forall|i: int|
            #![trigger due@[i]]
            0 <= i < due@.len() && (blocks@[i].reference.round <= dag_gc_round || !call_ensures(
                has_been_included,
                (&blocks@[i].reference,),
                false,
            )) ==> !due@[i],
        forall|i: int|
            #![trigger due@[i]]
            0 <= i < due@.len() && due@[i] ==> blocks@[i].reference.round > dag_gc_round
                && call_ensures(has_been_included, (&blocks@[i].reference,), false),
        forall|i: int|
            #![trigger due@[i]]
            0 <= i < due@.len() && !due@[i] ==> blocks@[i].reference.round <= dag_gc_round
                || call_ensures(has_been_included, (&blocks@[i].reference,), true),
{
}

/// Where votes are cast as they are due, every block stays where it is, with what `vote` said of
/// that very block if a vote was due, and with no votes otherwise.
pub proof fn lemma_votes_cast<V, E>(
    blocks: Vec<VerifiedBlock>,
    due: &Vec<bool>,
    vote: V,
    r: Result<Vec<Voted>, VoteFailure<E>>,
) where V: Fn(&VerifiedBlock) -> Result<Vec<TransactionIndex>, E>
    requires
        due@.len() == blocks@.len(),
        call_ensures(vote_where_due::<V, E>, (blocks, due, vote), r),
    ensures
        r matches Ok(voted) ==> voted@.len() == blocks@.len(),
        r matches Ok(voted) ==> forall|i: int|
            #![trigger voted@[i]]
            0 <= i < voted@.len() ==> {
                &&& voted@[i].0 == blocks@[i]
                &&& due@[i] ==> call_ensures(vote, (&blocks@[i],), Ok(voted@[i].1))
                &&& !due@[i] ==> voted@[i].1@.len() == 0
            },
        r matches Err(failure) ==> failed_where_due(blocks@, due@, vote, failure),
{
    if let Err(failure) = r {
        let i = choose|i: int| #[trigger]
            due_vote_failed_at(blocks@, due@, i, failure, vote);
        let voted = choose|voted: Seq<Voted>| #[trigger]
            is_voted_where_due(blocks@.take(i), due@, voted, vote);
        let _ = blocks@[i];
        assert forall|j: int| 0 <= j < i && #[trigger] due@[j] implies can_be_voted_on(
            vote,
            blocks@[j],
        ) by {
            assert(voted[j].0 == blocks@.take(i)[j]);
            assert(call_ensures(vote, (&blocks@[j],), Ok::<Vec<TransactionIndex>, E>(voted[j].1)));
        }
    }
}

/// `vote` may give votes on the block.
pub open spec fn can_be_voted_on<V, E>(vote: V, block: VerifiedBlock) -> bool where
    V: Fn(&VerifiedBlock) -> Result<Vec<TransactionIndex>, E>,
 {
    exists|rejects: Vec<TransactionIndex>| #[trigger]
        call_ensures(vote, (&block,), Ok::<Vec<TransactionIndex>, E>(rejects))
}

/// `vote` failed on one of the blocks on which a vote was due, as the failure says, and gave votes
/// on all of those before it.
pub open spec fn failed_where_due<V, E>(
    blocks: Seq<VerifiedBlock>,
    due: Seq<bool>,
    vote: V,
    failure: VoteFailure<E>,
) -> bool where V: Fn(&VerifiedBlock) -> Result<Vec<TransactionIndex>, E> {
    exists|i: int|
        0 <= i < blocks.len() && due[i] && failure.block_ref == (#[trigger] blocks[i]).reference
            && call_ensures(vote, (&blocks[i],), Err(failure.error)) && forall|j: int|
            0 <= j < i && #[trigger] due[j] ==> can_be_voted_on(vote, blocks[j])
}

/// A recovered block has the votes that `vote` gave on it if it is above the GC round of the DAG
/// and was said not to be included, whoever its author is; and none if it is not above that round,
/// or was said to be included.
pub open spec fn has_recovered_votes<I, V, E>(
    block: VerifiedBlock,
    rejects: Vec<TransactionIndex>,
    dag_gc_round: Round,
    has_been_included: I,
    vote: V,
) -> bool where
    I: Fn(&BlockRef) -> bool,
    V: Fn(&VerifiedBlock) -> Result<Vec<TransactionIndex>, E>,
 {
    if block.reference.round <= dag_gc_round {
        rejects@.len() == 0
    } else {
        ||| call_ensures(has_been_included, (&block.reference,), false) && call_ensures(
            vote,
            (&block,),
            Ok(rejects),
        )
        ||| call_ensures(has_been_included, (&block.reference,), true) && rejects@.len() == 0
    }
}

/// Voting on recovered blocks keeps every block in its place with its votes, and fails only where
/// `vote` fails on one of them that is above the GC round of the DAG.
pub proof fn lemma_recovered_votes<I, V, E>(
    blocks: Vec<VerifiedBlock>,
    dag_gc_round: Round,
    has_been_included: I,
    vote: V,
    r: Result<Vec<Voted>, VoteFailure<E>>,
) where
    I: Fn(&BlockRef) -> bool,
    V: Fn(&VerifiedBlock) -> Result<Vec<TransactionIndex>, E>,

    requires
        call_ensures(
            vote_on_blocks::<I, V, E>,
            (blocks, dag_gc_round, has_been_included, vote),
            r,
        ),
    ensures
        r matches Ok(voted) ==> voted@.len() == blocks@.len(),
        r matches Ok(voted) ==> forall|i: int|
            #![trigger voted@[i]]
            0 <= i < voted@.len() ==> voted@[i].0 == blocks@[i] && has_recovered_votes(
                blocks@[i],
                voted@[i].1,
                dag_gc_round,
                has_been_included,
                vote,
            ),
        r matches Err(failure) ==> failed_on_one(
            blocks@,
            dag_gc_round,
            has_been_included,
            vote,
            failure,
        ),
{
    if let Err(failure) = r {
        lemma_failed_on_one(blocks@, dag_gc_round, has_been_included, vote, failure);
    }
}

/// A recovered block can have the votes that are due to it.
pub open spec fn can_be_recovered<I, V, E>(
    block: VerifiedBlock,
    dag_gc_round: Round,
    has_been_included: I,
    vote: V,
) -> bool where
    I: Fn(&BlockRef) -> bool,
    V: Fn(&VerifiedBlock) -> Result<Vec<TransactionIndex>, E>,
 {
    exists|rejects: Vec<TransactionIndex>| #[trigger]
        has_recovered_votes::<I, V, E>(block, rejects, dag_gc_round, has_been_included, vote)
}

/// `vote` failed on one of the blocks above the round that was said not to be included, as the
/// failure says, and not on any block before it.
pub open spec fn failed_on_one<I, V, E>(
    blocks: Seq<VerifiedBlock>,
    dag_gc_round: Round,
    has_been_included: I,
    vote: V,
    failure: VoteFailure<E>,
) -> bool where
    I: Fn(&BlockRef) -> bool,
    V: Fn(&VerifiedBlock) -> Result<Vec<TransactionIndex>, E>,
 {
    exists|i: int|
        0 <= i < blocks.len() && failure.block_ref == (#[trigger] blocks[i]).reference
            && blocks[i].reference.round > dag_gc_round && call_ensures(
            has_been_included,
            (&blocks[i].reference,),
            false,
        ) && call_ensures(vote, (&blocks[i],), Err(failure.error)) && forall|j: int|
            0 <= j < i ==> can_be_recovered::<I, V, E>(
                #[trigger] blocks[j],
                dag_gc_round,
                has_been_included,
                vote,
            )
}

proof fn lemma_failed_on_one<I, V, E>(
    blocks: Seq<VerifiedBlock>,
    dag_gc_round: Round,
    has_been_included: I,
    vote: V,
    failure: VoteFailure<E>,
) where
    I: Fn(&BlockRef) -> bool,
    V: Fn(&VerifiedBlock) -> Result<Vec<TransactionIndex>, E>,

    requires
        vote_failed(blocks, failure, dag_gc_round, has_been_included, vote),
    ensures
        failed_on_one(blocks, dag_gc_round, has_been_included, vote, failure),
{
    let i = choose|i: int| #[trigger]
        vote_failed_at(blocks, i, failure, dag_gc_round, has_been_included, vote);
    let voted = choose|voted: Seq<Voted>| #[trigger]
        is_voted(blocks.take(i), voted, dag_gc_round, has_been_included, vote);
    let _ = blocks[i];
    assert forall|j: int| 0 <= j < i implies can_be_recovered::<I, V, E>(
        #[trigger] blocks[j],
        dag_gc_round,
        has_been_included,
        vote,
    ) by {
        assert(voted[j].0 == blocks.take(i)[j]);
        assert(has_recovered_votes::<I, V, E>(
            blocks[j],
            voted[j].1,
            dag_gc_round,
            has_been_included,
            vote,
        ));
    }
}

/// After a recovery into a new certifier, each block that is the first with its reference has the
/// own votes that are due to it. Where the recovery fails, `vote` failed on one of the blocks, and
/// nothing is known.
pub proof fn lemma_recovery_keeps_votes<I, V, E>(
    committee: Committee,
    c: &mut TransactionCertifier,
    blocks: Vec<VerifiedBlock>,
    dag_gc_round: Round,
    has_been_included: I,
    vote: V,
    r: Result<Vec<OwnRejectCount>, VoteFailure<E>>,
    seen: &TransactionCertifier,
    i: int,
    refs: Vec<BlockRef>,
    answer: Vec<BlockTransactionVotes>,
) -> (rejects: Vec<TransactionIndex>) where
    I: Fn(&BlockRef) -> bool,
    V: Fn(&VerifiedBlock) -> Result<Vec<TransactionIndex>, E>,

    requires
        call_ensures(TransactionCertifier::new, (committee,), *old(c)),
        call_ensures(
            TransactionCertifier::recover_and_vote_on_blocks::<I, V, E>,
            (c, blocks, dag_gc_round, has_been_included, vote),
            r,
        ),
        *seen == *final(c),
        0 <= i < blocks@.len(),
        blocks@[i].reference.round > 0,
        forall|y: int|
            0 <= y < i ==> (#[trigger] blocks@[y]).reference != blocks@[i].reference,
        refs@ == seq![blocks@[i].reference],
        call_ensures(TransactionCertifier::get_own_votes, (seen, refs), answer),
    ensures
        r is Ok ==> has_recovered_votes(
            blocks@[i],
            rejects,
            dag_gc_round,
            has_been_included,
            vote,
        ),
        r is Ok && rejects@.len() == 0 ==> answer@.len() == 0,
        r is Ok && rejects@.len() > 0 ==> answer@.len() == 1 && answer@[0].block_ref
            == blocks@[i].reference && answer@[0].rejects@ == rejects@,
        r matches Err(failure) ==> failed_on_one(
            blocks@,
            dag_gc_round,
            has_been_included,
            vote,
            failure,
        ),
        r is Err ==> seen.model() == old(c).model(),
{
    let b = blocks@[i].reference;
    match r {
        Ok(metrics) => {
            let voted = choose|voted: Seq<Voted>|
                #![trigger after_voted_blocks(old(c).model(), voted)]
                is_voted(blocks@, voted, dag_gc_round, has_been_included, vote)
                    && seen.model() == after_voted_blocks(old(c).model(), voted)
                    && metrics@ == own_reject_counts(
                    old(c).model().gc_round,
                    voted,
                );
            assert(voted[i].0 == blocks@[i]);
            assert(counts(voted, 0, i)) by {
                assert forall|y: int| 0 <= y < i implies (#[trigger] voted[y]).0.reference
                    != voted[i].0.reference by {
                    assert(blocks@[y].reference != blocks@[i].reference);
                }
            }
            lemma_received(voted, 0, b);
            lemma_gc_round_stays(fresh(0), voted);
            lemma_own_votes_of_one(seen.model(), b);
            assert(voted[i].0.reference == b);
            voted[i].1
        },
        Err(failure) => {
            lemma_failed_on_one(blocks@, dag_gc_round, has_been_included, vote, failure);
            arbitrary()
        },
    }
}

/// Whatever a certifier knows, a recovery takes every block in its place, with the votes that are
/// due to it, as if they had been given to it; a recovery that fails changes nothing.
pub proof fn lemma_recovery_takes_every_block<I, V, E>(
    c: &mut TransactionCertifier,
    blocks: Vec<VerifiedBlock>,
    dag_gc_round: Round,
    has_been_included: I,
    vote: V,
    r: Result<Vec<OwnRejectCount>, VoteFailure<E>>,
    seen: &TransactionCertifier,
) -> (voted: Seq<Voted>) where
    I: Fn(&BlockRef) -> bool,
    V: Fn(&VerifiedBlock) -> Result<Vec<TransactionIndex>, E>,

    requires
        call_ensures(
            TransactionCertifier::recover_and_vote_on_blocks::<I, V, E>,
            (c, blocks, dag_gc_round, has_been_included, vote),
            r,
        ),
        *seen == *final(c),
    ensures
        seen.stakes() == old(c).stakes(),
        r is Ok ==> voted.len() == blocks@.len() && seen.model() == after_voted_blocks(
            old(c).model(),
            voted,
        ),
        r matches Ok(metrics) ==> metrics@ == own_reject_counts(old(c).model().gc_round, voted),
        r is Ok ==> forall|i: int|
            #![trigger voted[i]]
            0 <= i < voted.len() ==> voted[i].0 == blocks@[i] && has_recovered_votes(
                blocks@[i],
                voted[i].1,
                dag_gc_round,
                has_been_included,
                vote,
            ),
        r matches Err(failure) ==> failed_on_one(
            blocks@,
            dag_gc_round,
            has_been_included,
            vote,
            failure,
        ),
        r is Err ==> seen.model() == old(c).model(),
{
    match r {
        Ok(metrics) => {
            choose|voted: Seq<Voted>|
                #![trigger after_voted_blocks(old(c).model(), voted)]
                is_voted(blocks@, voted, dag_gc_round, has_been_included, vote) && seen.model()
                    == after_voted_blocks(old(c).model(), voted) && metrics@ == own_reject_counts(
                    old(c).model().gc_round,
                    voted,
                )
        },
        Err(failure) => {
            lemma_failed_on_one(blocks@, dag_gc_round, has_been_included, vote, failure);
            Seq::empty()
        },
    }
}

/// Blocks are recovered exactly where transactions are voted on: from the round after the given one
/// on, of every authority in turn.
pub proof fn lemma_recovery_plan(
    c: &TransactionCertifier,
    enabled: bool,
    after_round: Round,
    r: Option<RecoveryPlan>,
)
    requires
        c.wf(),
        after_round < u32::MAX,
        call_ensures(
            TransactionCertifier::recover_blocks_after_round,
            (c, enabled, after_round),
            r,
        ),
    ensures
        r is Some <==> enabled,
        r matches Some(plan) ==> plan.start_round == after_round + 1,
        r matches Some(plan) ==> plan.authorities@.len() == c.stakes().len(),
        r matches Some(plan) ==> forall|k: int|
            0 <= k < plan.authorities@.len() ==> #[trigger] plan.authorities@[k] == k,
{
    c.lemma_consistent();
}

/// Own votes on one block, whatever the certifier knows: those that were kept with the block, under
/// its reference, if it is above the GC round and there are any; else none.
pub proof fn lemma_own_votes_on_one_block(
    c: &TransactionCertifier,
    r: BlockRef,
    refs: Vec<BlockRef>,
    answer: Vec<BlockTransactionVotes>,
)
    requires
        refs@ == seq![r],
        call_ensures(TransactionCertifier::get_own_votes, (c, refs), answer),
    ensures
        r.round <= c.model().gc_round ==> answer@.len() == 0,
        r.round > c.model().gc_round && c.model().votes[r].own_rejects.len() == 0
            ==> answer@.len() == 0,
        r.round > c.model().gc_round && c.model().votes[r].own_rejects.len() > 0
            ==> answer@.len() == 1 && answer@[0].block_ref == r && answer@[0].rejects@
            == c.model().votes[r].own_rejects,
{
    lemma_own_votes_of_one(c.model(), r);
}

/// The report on a block, whatever the certifier knows: every transaction that somebody is against,
/// in order and each once, with the stake of those who are; nothing of a block that was not heard
/// of.
pub proof fn lemma_report_on_one_block(
    c: &TransactionCertifier,
    r: BlockRef,
    report: Option<Vec<(TransactionIndex, Stake)>>,
    txn: TransactionIndex,
)
    requires
        call_ensures(TransactionCertifier::get_reject_votes, (c, &r), report),
    ensures
        report is Some <==> c.model().votes.contains_key(r),
        report is Some ==> (is_listed(report->0@, txn)
            <==> c.model().votes[r].rejecters.contains_key(txn)),
        report is Some ==> forall|t: int|
            #![trigger report->0@[t]]
            0 <= t < report->0@.len() ==> report->0@[t].1 == stake_of(
                c.model().votes[r].rejecters[report->0@[t].0],
                c.stakes(),
            ),
        report is Some ==> forall|t: int, u: int|
            0 <= t < u < report->0@.len() ==> (#[trigger] report->0@[t]).0 < (
            #[trigger] report->0@[u]).0,
{
    if report is Some {
        let tally = report->0@;
        let votes = c.model().votes[r];
        if is_listed(tally, txn) {
            let t = choose|t: int| 0 <= t < tally.len() && (#[trigger] tally[t]).0 == txn;
            assert(votes.rejecters.contains_key(tally[t].0));
        }
        if votes.rejecters.contains_key(txn) {
            let t = choose|t: int| 0 <= t < tally.len() && #[trigger] tally[t].0 == txn;
            let _ = tally[t];
        }
    }
}

/// No vote is ever taken back by a block: whoever is against a transaction stays against it.
pub proof fn lemma_no_reject_is_taken_back(
    m: CertifierModel,
    block: VerifiedBlock,
    own_rejects: Seq<TransactionIndex>,
    r: BlockRef,
    txn: TransactionIndex,
    author: AuthorityIndex,
)
    requires
        m.votes.contains_key(r),
        m.votes[r].rejecters.contains_key(txn),
        m.votes[r].rejecters[txn].contains(author),
    ensures
        ({
            let now = after_voted_block(m, block, own_rejects).votes;
            now.contains_key(r) && now[r].rejecters.contains_key(txn)
                && now[r].rejecters[txn].contains(author)
        }),
{
}

/// Garbage collection keeps all that is known of a block above its round, and nothing of others.
pub proof fn lemma_kept_by_gc(
    c: &mut TransactionCertifier,
    gc_round: Round,
    dag_gc_round: Round,
    r: BlockRef,
)
    requires
        call_ensures(TransactionCertifier::run_gc, (c, gc_round, dag_gc_round), ()),
    ensures
        final(c).model().gc_round == gc_round,
        final(c).stakes() == old(c).stakes(),
        final(c).model().votes.contains_key(r) <==> old(c).model().votes.contains_key(r) && r.round
            > gc_round,
        final(c).model().votes.contains_key(r) ==> final(c).model().votes[r]
            == old(c).model().votes[r],
{
}

/// Blocks are taken in the order of the list, each with its entry for the metrics, and the stakes
/// stay as they are.
pub proof fn lemma_blocks_are_taken_in_order(
    c: &mut TransactionCertifier,
    blocks: Vec<Voted>,
    metrics: Vec<OwnRejectCount>,
)
    requires
        call_ensures(TransactionCertifier::add_voted_blocks, (c, blocks), metrics),
    ensures
        final(c).stakes() == old(c).stakes(),
        metrics@ == own_reject_counts(old(c).model().gc_round, blocks@),
        blocks@.len() == 0 ==> final(c).model() == old(c).model(),
        blocks@.len() > 0 ==> final(c).model() == after_voted_block(
            after_voted_blocks(old(c).model(), blocks@.drop_last()),
            blocks@.last().0,
            blocks@.last().1@,
        ),
{
}

/// A state starts with nothing, at round zero; several blocks do to it what they do one by one; and
/// a new GC round forgets what is not above it, and nothing else.
pub proof fn lemma_state_of_a_certifier(
    committee: Committee,
    made: CertifierState,
    s: &mut CertifierState,
    blocks: Vec<Voted>,
    metrics: Vec<OwnRejectCount>,
    t: &mut CertifierState,
    gc_round: Round,
    r: BlockRef,
)
    requires
        call_ensures(CertifierState::new, (committee,), made),
        call_ensures(CertifierState::add_voted_blocks, (s, blocks), metrics),
        call_ensures(CertifierState::update_gc_round, (t, gc_round), ()),
    ensures
        made.stakes() == committee.stakes(),
        made.model().gc_round == 0,
        !made.model().votes.contains_key(r),
        final(s).stakes() == old(s).stakes(),
        metrics@ == own_reject_counts(old(s).model().gc_round, blocks@),
        blocks@.len() == 0 ==> final(s).model() == old(s).model(),
        blocks@.len() > 0 ==> final(s).model() == after_voted_block(
            after_voted_blocks(old(s).model(), blocks@.drop_last()),
            blocks@.last().0,
            blocks@.last().1@,
        ),
        final(t).stakes() == old(t).stakes(),
        final(t).model().gc_round == gc_round,
        final(t).model().votes.contains_key(r) <==> old(t).model().votes.contains_key(r) && r.round
            > gc_round,
        final(t).model().votes.contains_key(r) ==> final(t).model().votes[r]
            == old(t).model().votes[r],
{
}

/// A block answers by its reference.
pub proof fn lemma_block_answers_by_its_reference(
    block: &VerifiedBlock,
    round: Round,
    author: AuthorityIndex,
    reference: BlockRef,
)
    requires
        call_ensures(VerifiedBlock::round, (block,), round),
        call_ensures(VerifiedBlock::author, (block,), author),
        call_ensures(VerifiedBlock::reference, (block,), reference),
    ensures
        reference == block.reference,
        round == reference.round,
        author == reference.author,
{
}

/// Of a certifier one may ask the report on any block, and own votes on blocks that it knows of or
/// forgot; it may forget up to any round that the DAG is done with.
pub proof fn lemma_what_may_be_asked(
    c: &TransactionCertifier,
    r: BlockRef,
    refs: Vec<BlockRef>,
    m: &mut TransactionCertifier,
    gc_round: Round,
    dag_gc_round: Round,
)
    requires
        c.wf(),
        forall|i: int|
            0 <= i < refs@.len() ==> (#[trigger] refs@[i]).round <= c.model().gc_round
                || c.model().votes.contains_key(refs@[i]),
        old(m).wf(),
        gc_round <= dag_gc_round,
    ensures
        call_requires(TransactionCertifier::get_reject_votes, (c, &r)),
        call_requires(TransactionCertifier::get_own_votes, (c, refs)),
        call_requires(TransactionCertifier::run_gc, (m, gc_round, dag_gc_round)),
{
}

/// A certifier takes blocks of the members of its committee, whatever else they hold, and blocks
/// at or below the GC round whoever their authors are.
pub proof fn lemma_what_may_be_given(c: &mut TransactionCertifier, blocks: Vec<Voted>)
    requires
        old(c).wf(),
        forall|i: int|
            0 <= i < blocks@.len() ==> (#[trigger] blocks@[i]).0.reference.round
                <= old(c).model().gc_round || blocks@[i].0.reference.author < old(
                c,
            ).stakes().len(),
    ensures
        call_requires(TransactionCertifier::add_voted_blocks, (c, blocks)),
{
}

/// Whatever a certifier was given, what it knows is above its GC round; it has own votes only on
/// blocks that it received; a block is known by its own reference; and a transaction is listed only
/// if somebody is against it.
pub proof fn lemma_what_is_known(c: &TransactionCertifier, r: BlockRef, txn: TransactionIndex)
    requires
        c.wf(),
        c.model().votes.contains_key(r),
    ensures
        r.round > c.model().gc_round,
        c.model().votes[r].own_rejects.len() > 0 ==> c.model().votes[r].block is Some,
        c.model().votes[r].block matches Some(block) ==> block.reference == r,
        c.model().votes[r].rejecters.contains_key(txn) ==> exists|author: AuthorityIndex|
            #[trigger] c.model().votes[r].rejecters[txn].contains(author),
{
    c.lemma_consistent();
}

} // verus!
