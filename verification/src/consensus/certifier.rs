//! Keeping own votes on transactions, and adding up the reject votes of others.
use crate::consensus::block::{
    valid_stakes, AuthorityIndex, BlockKey, BlockRef, BlockTransactionVotes, Committee, Round,
    Stake, TransactionIndex, VerifiedBlock, GENESIS_ROUND,
};
use crate::consensus::model::{
    after_gc, after_voted_block, after_voted_blocks, authors_known, consistent, counted,
    is_reject_tally, lemma_block_keeps_consistent, lemma_gc_keeps_consistent, mentions, no_votes,
    own_reject_counts, own_votes, rejecters_of, rejects_txn, same_votes, votes_on, with_rejects,
    BlockVotes, CertifierModel, OwnRejectCount,
};
use crate::consensus::recovery::{
    is_voted, to_be_voted_on, vote_failed, vote_on_blocks, RecoveryPlan, VoteFailure,
};
use crate::consensus::stake_aggregator::{stake_of, StakeAggregator};
use crate::ordered_keys::{keys_in_order, lemma_keys_in_order};
use std::collections::BTreeMap;
use vstd::prelude::*;
use vstd::std_specs::cmp::OrdSpec;
use vstd::std_specs::iter::IteratorSpec;

verus! {

broadcast use vstd::laws_cmp::group_laws_cmp;

/// Votes received for each transaction of a block, possibly before the block itself.
struct VoteInfo {
    block: Option<VerifiedBlock>,
    own_reject_txn_votes: Vec<TransactionIndex>,
    reject_txn_votes: BTreeMap<TransactionIndex, StakeAggregator>,
}

impl VoteInfo {
    spec fn model(self) -> BlockVotes {
        BlockVotes {
            block: self.block,
            own_rejects: self.own_reject_txn_votes@,
            rejecters: self.reject_txn_votes@.map_values(|a: StakeAggregator| a.voters()),
        }
    }

    spec fn wf(self, stakes: Seq<Stake>) -> bool {
        forall|txn: TransactionIndex| #[trigger]
            self.reject_txn_votes@.contains_key(txn) ==> self.reject_txn_votes@[txn].wf(stakes)
    }

    fn new() -> (r: Self)
        ensures
            r.model() == no_votes(),
            forall|stakes: Seq<Stake>| #[trigger] r.wf(stakes),
    {
        let r = VoteInfo {
            block: None,
            own_reject_txn_votes: Vec::new(),
            reject_txn_votes: BTreeMap::new(),
        };
        assert(r.model() =~= no_votes());
        r
    }

    /// Counts the votes of `author` against transactions of this block.
    fn add_rejects(
        &mut self,
        rejects: &Vec<TransactionIndex>,
        author: AuthorityIndex,
        committee: &Committee,
    )
        requires
            old(self).wf(committee.stakes()),
            committee.wf(),
            author < committee.stakes().len(),
        ensures
            final(self).wf(committee.stakes()),
            final(self).model() == with_rejects(
                old(self).model(),
                |txn: TransactionIndex| rejects@.contains(txn),
                author,
            ),
    {
        let ghost before = self.model();
        let mut i: usize = 0;
        assert(self.model() =~= with_rejects(
            before,
            |txn: TransactionIndex| rejects@.take(0).contains(txn),
            author,
        ));
        while i < rejects.len()
            invariant
                i <= rejects@.len(),
                self.wf(committee.stakes()),
                committee.wf(),
                author < committee.stakes().len(),
                self.model() == with_rejects(
                    before,
                    |txn: TransactionIndex| rejects@.take(i as int).contains(txn),
                    author,
                ),
            decreases rejects@.len() - i,
        {
            let reject = rejects[i];
            let ghost step = self.model();
            let mut aggregator = match self.reject_txn_votes.remove(&reject) {
                Some(a) => a,
                None => StakeAggregator::new(),
            };
            let ghost voters = aggregator.voters();
            assert(voters == rejecters_of(step, reject));
            aggregator.add_unique(author, committee);
            self.reject_txn_votes.insert(reject, aggregator);
            proof {
                let now = rejects@.take(i + 1);
                assert(now =~= rejects@.take(i as int).push(reject));
                assert forall|txn: TransactionIndex| #[trigger] now.contains(txn) <==> rejects@.take(
                    i as int,
                ).contains(txn) || txn == reject by {
                    lemma_push_contains(rejects@.take(i as int), reject, txn);
                }
                assert(self.model().rejecters =~= step.rejecters.insert(
                    reject,
                    rejecters_of(step, reject).insert(author),
                ));
                assert(self.model() =~~= with_rejects(
                    before,
                    |txn: TransactionIndex| now.contains(txn),
                    author,
                ));
            }
            i = i + 1;
        }
        assert(rejects@.take(i as int) =~= rejects@);
    }
}

proof fn lemma_push_contains<A>(s: Seq<A>, x: A, y: A)
    ensures
        s.push(x).contains(y) <==> s.contains(y) || y == x,
{
    if s.contains(y) {
        let i = choose|i: int| 0 <= i < s.len() && s[i] == y;
        assert(s.push(x)[i] == y);
    }
    if y == x {
        assert(s.push(x)[s.len() as int] == y);
    }
}

/// The votes of a table that is keyed by integers.
spec fn table_model(table: Map<BlockKey, VoteInfo>) -> Map<BlockRef, BlockVotes> {
    Map::new(
        |r: BlockRef| table.contains_key(r.spec_key()),
        |r: BlockRef| table[r.spec_key()].model(),
    )
}

proof fn lemma_table_insert(table: Map<BlockKey, VoteInfo>, r: BlockRef, info: VoteInfo)
    ensures
        table_model(table.insert(r.spec_key(), info)) == table_model(table).insert(r, info.model()),
{
    assert(table_model(table.insert(r.spec_key(), info)) =~= table_model(table).insert(
        r,
        info.model(),
    ));
}

/// Counting one more list of votes.
proof fn lemma_counted_push(
    votes: Map<BlockRef, BlockVotes>,
    gc_round: Round,
    author: AuthorityIndex,
    cast: Seq<BlockTransactionVotes>,
    more: BlockTransactionVotes,
)
    ensures
        more.block_ref.round <= gc_round ==> counted(votes, gc_round, author, cast.push(more))
            == counted(votes, gc_round, author, cast),
        more.block_ref.round > gc_round ==> counted(votes, gc_round, author, cast.push(more))
            == counted(votes, gc_round, author, cast).insert(
            more.block_ref,
            with_rejects(
                votes_on(counted(votes, gc_round, author, cast), more.block_ref),
                |txn: TransactionIndex| more.rejects@.contains(txn),
                author,
            ),
        ),
{
    let next = cast.push(more);
    assert forall|r: BlockRef| #[trigger] mentions(next, r) <==> mentions(cast, r) || r
        == more.block_ref by {
        if mentions(cast, r) {
            let i = choose|i: int| 0 <= i < cast.len() && #[trigger] cast[i].block_ref == r;
            assert(next[i].block_ref == r);
        }
        if r == more.block_ref {
            assert(next[cast.len() as int].block_ref == r);
        }
    }
    assert forall|r: BlockRef, txn: TransactionIndex| #[trigger]
        rejects_txn(next, r, txn) <==> rejects_txn(cast, r, txn) || (r == more.block_ref
        && more.rejects@.contains(txn)) by {
        if rejects_txn(cast, r, txn) {
            let i = choose|i: int|
                0 <= i < cast.len() && #[trigger] cast[i].block_ref == r
                    && cast[i].rejects@.contains(txn);
            assert(next[i].block_ref == r);
        }
        if r == more.block_ref && more.rejects@.contains(txn) {
            assert(next[cast.len() as int].block_ref == r);
        }
    }
    let before = counted(votes, gc_round, author, cast);
    let after = counted(votes, gc_round, author, next);
    if more.block_ref.round <= gc_round {
        assert(after =~~= before);
    } else {
        let here = votes_on(before, more.block_ref);
        assert forall|txn: TransactionIndex| #[trigger]
            rejecters_of(here, txn) =~= if rejects_txn(cast, more.block_ref, txn) {
                rejecters_of(votes_on(votes, more.block_ref), txn).insert(author)
            } else {
                rejecters_of(votes_on(votes, more.block_ref), txn)
            } by {
            if !before.contains_key(more.block_ref) {
                assert(!rejects_txn(cast, more.block_ref, txn));
            }
        }
        assert(after =~~= before.insert(
            more.block_ref,
            with_rejects(
                here,
                |txn: TransactionIndex| more.rejects@.contains(txn),
                author,
            ),
        ));
    }
}

/// The votes received by each transaction and block.
///
/// Reject votes can add up even before the block that they are about is received.
pub struct CertifierState {
    committee: Committee,
    votes: BTreeMap<BlockKey, VoteInfo>,
    gc_round: Round,
}

impl CertifierState {
    /// What the state stands for.
    pub closed spec fn model(&self) -> CertifierModel {
        CertifierModel { votes: table_model(self.votes@), gc_round: self.gc_round }
    }

    /// The stakes by which votes are weighed.
    pub closed spec fn stakes(&self) -> Seq<Stake> {
        self.committee.stakes()
    }

    /// Votes are weighed by the stakes, and nothing is kept that is at or below the GC round.
    spec fn table_wf(&self) -> bool {
        &&& self.committee.wf()
        &&& forall|k: BlockKey| #[trigger]
            self.votes@.contains_key(k) ==> self.votes@[k].wf(self.committee.stakes()) && k.0
                > self.gc_round
    }

    /// The invariant of the type: votes are weighed by the stakes, and the state is consistent.
    pub closed spec fn wf(&self) -> bool {
        self.table_wf() && consistent(self.model())
    }

    /// What the invariant says of the state.
    pub proof fn lemma_consistent(&self)
        requires
            self.wf(),
        ensures
            consistent(self.model()),
            valid_stakes(self.stakes()),
    {
    }

    /// No votes yet.
    pub fn new(committee: Committee) -> (r: Self)
        requires
            committee.wf(),
        ensures
            r.wf(),
            r.stakes() == committee.stakes(),
            r.model() == (CertifierModel { votes: Map::empty(), gc_round: GENESIS_ROUND }),
    {
        let r = CertifierState { committee, votes: BTreeMap::new(), gc_round: GENESIS_ROUND };
        assert(r.model().votes =~= Map::<BlockRef, BlockVotes>::empty());
        r
    }

    /// Takes what is known of a block out of the table.
    fn take_info(&mut self, block_ref: &BlockRef) -> (info: VoteInfo)
        requires
            old(self).table_wf(),
        ensures
            final(self).table_wf(),
            final(self).committee == old(self).committee,
            final(self).gc_round == old(self).gc_round,
            info.wf(old(self).stakes()),
            info.model() == votes_on(old(self).model().votes, *block_ref),
            final(self).votes@ == old(self).votes@.remove(block_ref.spec_key()),
    {
        match self.votes.remove(&block_ref.key()) {
            Some(info) => info,
            None => VoteInfo::new(),
        }
    }

    /// Puts what is known of a block into the table.
    fn put_info(&mut self, block_ref: &BlockRef, info: VoteInfo)
        requires
            old(self).table_wf(),
            info.wf(old(self).stakes()),
            block_ref.round > old(self).gc_round,
        ensures
            final(self).table_wf(),
            final(self).committee == old(self).committee,
            final(self).gc_round == old(self).gc_round,
            final(self).votes@ == old(self).votes@.insert(block_ref.spec_key(), info),
            final(self).model().votes == old(self).model().votes.insert(*block_ref, info.model()),
    {
        proof {
            lemma_table_insert(self.votes@, *block_ref, info);
        }
        self.votes.insert(block_ref.key(), info);
    }

    /// Takes a block with own votes on it, and counts the votes that the block itself carries.
    pub fn add_voted_block(
        &mut self,
        voted_block: VerifiedBlock,
        reject_txn_votes: Vec<TransactionIndex>,
    ) -> (r: Option<OwnRejectCount>)
        requires
            old(self).wf(),
            voted_block.reference.round > old(self).model().gc_round
                ==> voted_block.reference.author < old(self).stakes().len(),
        ensures
            final(self).wf(),
            final(self).stakes() == old(self).stakes(),
            final(self).model() == after_voted_block(
                old(self).model(),
                voted_block,
                reject_txn_votes@,
            ),
            r == if voted_block.reference.round <= old(self).model().gc_round {
                None
            } else {
                Some(
                    OwnRejectCount {
                        author: voted_block.reference.author,
                        count: reject_txn_votes@.len() as u64,
                    },
                )
            },
    {
        if voted_block.round() <= self.gc_round {
            // Outside of the GC bound of the certifier: ignore the block and own votes on it.
            return None;
        }
        let block_ref = voted_block.reference();
        let author = voted_block.author();
        let counted_rejects = OwnRejectCount { author, count: reject_txn_votes.len() as u64 };
        let ghost m = self.model();
        let ghost known = votes_on(m.votes, block_ref);
        let mut info = self.take_info(&block_ref);
        proof {
            lemma_table_remove(old(self).votes@, block_ref);
        }
        if info.block.is_some() {
            // Already processed and added to the state.
            self.put_info(&block_ref, info);
            assert(self.model().votes =~= m.votes);
            return Some(counted_rejects);
        }
        info.own_reject_txn_votes = reject_txn_votes;
        let ghost own = info.model();
        self.put_info(&block_ref, info);
        let ghost start = m.votes.insert(block_ref, own);
        assert(self.model().votes =~= start);
        let ghost cast = voted_block.transaction_votes@;
        let mut i: usize = 0;
        assert(self.model().votes =~~= counted(start, m.gc_round, author, cast.take(0)));
        while i < voted_block.transaction_votes.len()
            invariant
                i <= cast.len(),
                cast == voted_block.transaction_votes@,
                self.table_wf(),
                self.gc_round == m.gc_round,
                self.stakes() == old(self).stakes(),
                author < self.stakes().len(),
                self.model().votes == counted(start, m.gc_round, author, cast.take(i as int)),
            decreases cast.len() - i,
        {
            let block_votes = &voted_block.transaction_votes[i];
            let ghost votes = self.model().votes;
            proof {
                assert(cast.take(i + 1) =~= cast.take(i as int).push(*block_votes));
                lemma_counted_push(start, m.gc_round, author, cast.take(i as int), *block_votes);
            }
            if block_votes.block_ref.round > self.gc_round {
                let ghost table = self.votes@;
                let mut info = self.take_info(&block_votes.block_ref);
                info.add_rejects(&block_votes.rejects, author, &self.committee);
                self.put_info(&block_votes.block_ref, info);
                proof {
                    lemma_table_remove(table, block_votes.block_ref);
                    assert(self.model().votes =~= votes.insert(
                        block_votes.block_ref,
                        info.model(),
                    ));
                }
            }
            i = i + 1;
        }
        assert(cast.take(i as int) =~= cast);
        let ghost votes = self.model().votes;
        let ghost table = self.votes@;
        let mut info = self.take_info(&block_ref);
        info.block = Some(voted_block);
        self.put_info(&block_ref, info);
        proof {
            lemma_table_remove(table, block_ref);
            lemma_counted_block(start, m.gc_round, author, cast, block_ref, voted_block);
            assert(self.model().votes =~= votes.insert(block_ref, info.model()));
            assert(start.insert(block_ref, BlockVotes { block: Some(voted_block), ..own })
                =~= m.votes.insert(
                block_ref,
                BlockVotes { block: Some(voted_block), own_rejects: own.own_rejects, ..known },
            ));
            assert(self.model() =~= after_voted_block(m, voted_block, own.own_rejects));
            lemma_block_keeps_consistent(m, voted_block, own.own_rejects);
        }
        Some(counted_rejects)
    }

    /// Takes several blocks, one after the other.
    pub fn add_voted_blocks(
        &mut self,
        voted_blocks: Vec<(VerifiedBlock, Vec<TransactionIndex>)>,
    ) -> (r: Vec<OwnRejectCount>)
        requires
            old(self).wf(),
            authors_known(old(self).model().gc_round, old(self).stakes(), voted_blocks@),
        ensures
            final(self).wf(),
            final(self).stakes() == old(self).stakes(),
            final(self).model() == after_voted_blocks(old(self).model(), voted_blocks@),
            r@ == own_reject_counts(old(self).model().gc_round, voted_blocks@),
    {
        let ghost m = self.model();
        let ghost all = voted_blocks@;
        let mut counts: Vec<OwnRejectCount> = Vec::new();
        assert(all.take(0) =~= Seq::<(VerifiedBlock, Vec<TransactionIndex>)>::empty());
        proof {
            reveal(Seq::filter);
            assert(own_reject_counts(m.gc_round, all.take(0)) =~= Seq::<OwnRejectCount>::empty());
        }
        for entry in it: voted_blocks.into_iter()
            invariant
                it.seq() == all,
                self.wf(),
                self.stakes() == old(self).stakes(),
                self.model() == after_voted_blocks(m, all.take(it.index())),
                self.model().gc_round == m.gc_round,
                authors_known(m.gc_round, self.stakes(), all),
                counts@ == own_reject_counts(m.gc_round, all.take(it.index())),
        {
            proof {
                let i = it.index();
                let done = all.take(i);
                assert(entry == all[i]);
                assert(all.take(i + 1).drop_last() =~= done);
                assert(all.take(i + 1) =~= done.push(entry));
                lemma_own_reject_counts_push(m.gc_round, done, entry);
            }
            let (voted_block, reject_txn_votes) = entry;
            match self.add_voted_block(voted_block, reject_txn_votes) {
                Some(count) => {
                    counts.push(count);
                },
                None => {},
            }
        }
        assert(all.take(all.len() as int) =~= all);
        counts
    }

    /// Sets the GC round, and forgets everything up to it.
    pub fn update_gc_round(&mut self, gc_round: Round)
        requires
            old(self).wf(),
        ensures
            final(self).wf(),
            final(self).stakes() == old(self).stakes(),
            final(self).model() == after_gc(old(self).model(), gc_round),
    {
        let ghost table = self.votes@;
        let obsolete = self.keys_up_to(gc_round);
        self.gc_round = gc_round;
        let mut i: usize = 0;
        while i < obsolete.len()
            invariant
                i <= obsolete@.len(),
                self.committee == old(self).committee,
                self.gc_round == gc_round,
                forall|k: BlockKey| #[trigger]
                    self.votes@.contains_key(k) <==> table.contains_key(k) && !obsolete@.take(
                        i as int,
                    ).contains(k),
                forall|k: BlockKey| #[trigger]
                    self.votes@.contains_key(k) ==> self.votes@[k] == table[k],
            decreases obsolete@.len() - i,
        {
            let key = obsolete[i];
            self.votes.remove(&key);
            proof {
                assert(obsolete@.take(i + 1) =~= obsolete@.take(i as int).push(key));
                assert forall|k: BlockKey| #[trigger]
                    obsolete@.take(i + 1).contains(k) <==> obsolete@.take(i as int).contains(k)
                    || k == key by {
                    lemma_push_contains(obsolete@.take(i as int), key, k);
                }
            }
            i = i + 1;
        }
        assert(obsolete@.take(i as int) =~= obsolete@);
        assert(self.model() =~~= after_gc(old(self).model(), gc_round));
        proof {
            lemma_gc_keeps_consistent(old(self).model(), gc_round);
        }
    }

    /// The keys of the blocks up to a round.
    #[verifier::spinoff_prover]
    fn keys_up_to(&self, gc_round: Round) -> (r: Vec<BlockKey>)
        ensures
            forall|k: BlockKey| #[trigger]
                r@.contains(k) <==> self.votes@.contains_key(k) && k.0 <= gc_round,
    {
        let mut r: Vec<BlockKey> = Vec::new();
        let ghost all = self.votes.keys().remaining();
        proof {
            lemma_keys_in_order(&self.votes);
        }
        for key in it: self.votes.keys()
            invariant
                it.seq() == all,
                all == self.votes.keys().remaining(),
                keys_in_order(all, self.votes@.dom()),
                r@.len() == it.index(),
                forall|i: int| 0 <= i < r@.len() ==> r@[i] == *all[i] && r@[i].0 <= gc_round,
        {
            assert(key == all[it.index()]);
            if key.0 > gc_round {
                proof {
                    lemma_prefix_of_keys(all, self.votes@.dom(), r@, gc_round);
                }
                return r;
            }
            r.push(*key);
        }
        proof {
            lemma_prefix_of_keys(all, self.votes@.dom(), r@, gc_round);
        }
        r
    }
}

proof fn lemma_own_reject_counts_push(
    gc_round: Round,
    blocks: Seq<(VerifiedBlock, Vec<TransactionIndex>)>,
    more: (VerifiedBlock, Vec<TransactionIndex>),
)
    ensures
        own_reject_counts(gc_round, blocks.push(more)) == if more.0.reference.round > gc_round {
            own_reject_counts(gc_round, blocks).push(
                OwnRejectCount {
                    author: more.0.reference.author,
                    count: more.1@.len() as u64,
                },
            )
        } else {
            own_reject_counts(gc_round, blocks)
        },
{
    reveal(Seq::filter);
    assert(blocks.push(more).drop_last() =~= blocks);
    assert(own_reject_counts(gc_round, blocks.push(more)) =~= if more.0.reference.round > gc_round {
        own_reject_counts(gc_round, blocks).push(
            OwnRejectCount { author: more.0.reference.author, count: more.1@.len() as u64 },
        )
    } else {
        own_reject_counts(gc_round, blocks)
    });
}

/// Keys in order are in the order of their rounds.
proof fn lemma_rounds_in_order(keys: Seq<&BlockKey>, dom: Set<BlockKey>)
    requires
        keys_in_order(keys, dom),
    ensures
        forall|i: int, j: int|
            0 <= i < j < keys.len() ==> (#[trigger] keys[i]).0 <= (#[trigger] keys[j]).0,
{
    assert forall|i: int, j: int| 0 <= i < j < keys.len() implies (#[trigger] keys[i]).0 <= (
    #[trigger] keys[j]).0 by {
        assert(OrdSpec::cmp_spec(keys[i], keys[j]) is Less);
    }
}

/// The longest prefix of keys up to a round holds all of them.
proof fn lemma_prefix_of_keys(
    keys: Seq<&BlockKey>,
    dom: Set<BlockKey>,
    prefix: Seq<BlockKey>,
    gc_round: Round,
)
    requires
        keys_in_order(keys, dom),
        prefix.len() <= keys.len(),
        forall|i: int| 0 <= i < prefix.len() ==> prefix[i] == *keys[i] && prefix[i].0 <= gc_round,
        prefix.len() < keys.len() ==> keys[prefix.len() as int].0 > gc_round,
    ensures
        forall|k: BlockKey| #[trigger]
            prefix.contains(k) <==> dom.contains(k) && k.0 <= gc_round,
{
    lemma_rounds_in_order(keys, dom);
    assert forall|k: BlockKey| #[trigger] prefix.contains(k) <==> dom.contains(k) && k.0
        <= gc_round by {
        if dom.contains(k) && k.0 <= gc_round {
            let i = choose|i: int| 0 <= i < keys.len() && *#[trigger] keys[i] == k;
            assert(i < prefix.len());
            assert(prefix[i] == k);
        }
        if prefix.contains(k) {
            let i = choose|i: int| 0 <= i < prefix.len() && prefix[i] == k;
            assert(dom.contains(*keys[i]));
        }
    }
}

proof fn lemma_table_remove(table: Map<BlockKey, VoteInfo>, r: BlockRef)
    ensures
        table_model(table.remove(r.spec_key())) == table_model(table).remove(r),
{
    assert(table_model(table.remove(r.spec_key())) =~= table_model(table).remove(r));
}

/// Whether a block is received before its votes are counted or after makes no difference.
proof fn lemma_counted_block(
    votes: Map<BlockRef, BlockVotes>,
    gc_round: Round,
    author: AuthorityIndex,
    cast: Seq<BlockTransactionVotes>,
    r: BlockRef,
    block: VerifiedBlock,
)
    requires
        votes.contains_key(r),
    ensures
        counted(
            votes.insert(r, BlockVotes { block: Some(block), ..votes[r] }),
            gc_round,
            author,
            cast,
        ) == counted(votes, gc_round, author, cast).insert(
            r,
            BlockVotes { block: Some(block), ..counted(votes, gc_round, author, cast)[r] },
        ),
{
    let received = votes.insert(r, BlockVotes { block: Some(block), ..votes[r] });
    assert(counted(received, gc_round, author, cast) =~~= counted(
        votes,
        gc_round,
        author,
        cast,
    ).insert(r, BlockVotes { block: Some(block), ..counted(votes, gc_round, author, cast)[r] }));
}

/// Keeps own votes on transactions, until the core asks for them, and adds up the reject votes
/// of all authorities, until commits are finalized.
pub struct TransactionCertifier {
    certifier_state: CertifierState,
}

impl TransactionCertifier {
    /// What the certifier knows.
    pub closed spec fn model(&self) -> CertifierModel {
        self.certifier_state.model()
    }

    /// The stakes by which votes are weighed.
    pub closed spec fn stakes(&self) -> Seq<Stake> {
        self.certifier_state.stakes()
    }

    /// The invariant of the type.
    pub closed spec fn wf(&self) -> bool {
        self.certifier_state.wf()
    }

    /// What the invariant says of the state.
    pub proof fn lemma_consistent(&self)
        requires
            self.wf(),
        ensures
            consistent(self.model()),
            valid_stakes(self.stakes()),
    {
        self.certifier_state.lemma_consistent();
    }

    /// A certifier that knows of no votes.
    pub fn new(committee: Committee) -> (r: Self)
        requires
            committee.wf(),
        ensures
            r.wf(),
            r.stakes() == committee.stakes(),
            r.model() == (CertifierModel { votes: Map::empty(), gc_round: GENESIS_ROUND }),
    {
        TransactionCertifier { certifier_state: CertifierState::new(committee) }
    }

    /// The round up to which everything was forgotten.
    pub fn gc_round(&self) -> (r: Round)
        ensures
            r == self.model().gc_round,
    {
        self.certifier_state.gc_round
    }

    /// Stores own reject votes on the blocks, and counts the reject votes in the blocks.
    ///
    /// Returns how many transactions of each block were rejected, for the metrics.
    pub fn add_voted_blocks(
        &mut self,
        voted_blocks: Vec<(VerifiedBlock, Vec<TransactionIndex>)>,
    ) -> (r: Vec<OwnRejectCount>)
        requires
            old(self).wf(),
            authors_known(old(self).model().gc_round, old(self).stakes(), voted_blocks@),
        ensures
            final(self).wf(),
            final(self).stakes() == old(self).stakes(),
            final(self).model() == after_voted_blocks(old(self).model(), voted_blocks@),
            r@ == own_reject_counts(old(self).model().gc_round, voted_blocks@),
    {
        self.certifier_state.add_voted_blocks(voted_blocks)
    }

    /// Own votes on the transactions of other blocks, which must all be known unless they are at
    /// or below the GC round.
    pub fn get_own_votes(&self, block_refs: Vec<BlockRef>) -> (r: Vec<BlockTransactionVotes>)
        requires
            self.wf(),
            forall|i: int|
                0 <= i < block_refs@.len() && #[trigger] block_refs@[i].round
                    > self.model().gc_round ==> self.model().votes.contains_key(block_refs@[i]),
        ensures
            same_votes(r@, own_votes(self.model(), block_refs@)),
    {
        let ghost m = self.model();
        let mut votes: Vec<BlockTransactionVotes> = Vec::new();
        let mut i: usize = 0;
        proof {
            lemma_own_votes_of_none(m);
            assert(block_refs@.take(0) =~= Seq::<BlockRef>::empty());
        }
        while i < block_refs.len()
            invariant
                i <= block_refs@.len(),
                m == self.model(),
                forall|i: int|
                    0 <= i < block_refs@.len() && #[trigger] block_refs@[i].round > m.gc_round
                        ==> m.votes.contains_key(block_refs@[i]),
                same_votes(votes@, own_votes(m, block_refs@.take(i as int))),
            decreases block_refs@.len() - i,
        {
            let block_ref = block_refs[i];
            proof {
                assert(block_refs@.take(i + 1) =~= block_refs@.take(i as int).push(block_ref));
                lemma_own_votes_push(m, block_refs@.take(i as int), block_ref);
            }
            if block_ref.round > self.certifier_state.gc_round {
                match self.certifier_state.votes.get(&block_ref.key()) {
                    Some(vote_info) => {
                        if vote_info.own_reject_txn_votes.len() > 0 {
                            votes.push(
                                BlockTransactionVotes {
                                    block_ref,
                                    rejects: vote_info.own_reject_txn_votes.clone(),
                                },
                            );
                        }
                    },
                    None => {},
                }
            }
            i = i + 1;
        }
        assert(block_refs@.take(i as int) =~= block_refs@);
        votes
    }

    /// The transactions of a block that have reject votes, with the stake of the votes; a
    /// transaction that is not listed has none. `None` if the block was not heard of.
    pub fn get_reject_votes(&self, block_ref: &BlockRef) -> (r: Option<
        Vec<(TransactionIndex, Stake)>,
    >)
        requires
            self.wf(),
        ensures
            r is Some <==> self.model().votes.contains_key(*block_ref),
            r matches Some(tally) ==> is_reject_tally(
                tally@,
                self.model().votes[*block_ref],
                self.stakes(),
            ),
    {
        match self.certifier_state.votes.get(&block_ref.key()) {
            Some(vote_info) => {
                let tally = vote_info.tally(Ghost(self.stakes()));
                Some(tally)
            },
            None => None,
        }
    }

    /// Forgets everything up to `gc_round`.
    ///
    /// The round can trail `dag_state_gc_round`, that of the DAG, but never be ahead of it:
    /// commits that the DAG is done with may yet be finalized.
    pub fn run_gc(&mut self, gc_round: Round, dag_state_gc_round: Round)
        requires
            old(self).wf(),
            gc_round <= dag_state_gc_round,
        ensures
            final(self).wf(),
            final(self).stakes() == old(self).stakes(),
            final(self).model() == after_gc(old(self).model(), gc_round),
    {
        self.certifier_state.update_gc_round(gc_round);
    }

    /// Which blocks are to be recovered after a restart, from the round after `after_round` on;
    /// none where transactions are not voted on.
    pub fn recover_blocks_after_round(
        &self,
        transaction_voting_enabled: bool,
        after_round: Round,
    ) -> (r: Option<RecoveryPlan>)
        requires
            self.wf(),
            transaction_voting_enabled ==> after_round < Round::MAX,
        ensures
            r is Some <==> transaction_voting_enabled,
            r matches Some(plan) ==> plan.start_round == after_round + 1 && plan.authorities@
                == Seq::new(self.stakes().len(), |i: int| i as AuthorityIndex),
    {
        if !transaction_voting_enabled {
            return None;
        }
        Some(
            RecoveryPlan {
                start_round: after_round + 1,
                authorities: self.certifier_state.committee.authorities(),
            },
        )
    }

    /// Takes recovered blocks, voting anew on those that this authority may yet include.
    ///
    /// Where a vote fails, nothing is taken.
    #[verifier::spinoff_prover]
    pub fn recover_and_vote_on_blocks<I, V, E>(
        &mut self,
        blocks: Vec<VerifiedBlock>,
        dag_gc_round: Round,
        has_been_included: I,
        vote: V,
    ) -> (r: Result<Vec<OwnRejectCount>, VoteFailure<E>>) where
        I: Fn(&BlockRef) -> bool,
        V: Fn(&VerifiedBlock) -> Result<Vec<TransactionIndex>, E>,

        requires
            old(self).wf(),
            forall|i: int|
                #![trigger blocks@[i]]
                0 <= i < blocks@.len() && blocks@[i].reference.round > old(self).model().gc_round
                    ==> blocks@[i].reference.author < old(self).stakes().len(),
            forall|i: int|
                #![trigger blocks@[i]]
                0 <= i < blocks@.len() && blocks@[i].reference.round > dag_gc_round
                    ==> call_requires(has_been_included, (&blocks@[i].reference,)),
            forall|i: int|
                #![trigger blocks@[i]]
                0 <= i < blocks@.len() && to_be_voted_on(
                    blocks@[i],
                    dag_gc_round,
                    has_been_included,
                ) ==> call_requires(vote, (&blocks@[i],)),
        ensures
            final(self).wf(),
            final(self).stakes() == old(self).stakes(),
            r matches Ok(counts) ==> exists|voted: Seq<(VerifiedBlock, Vec<TransactionIndex>)>|
                #![trigger after_voted_blocks(old(self).model(), voted)]
                is_voted(blocks@, voted, dag_gc_round, has_been_included, vote)
                    && final(self).model() == after_voted_blocks(old(self).model(), voted)
                    && counts@ == own_reject_counts(old(self).model().gc_round, voted),
            r matches Err(failure) ==> vote_failed(
                blocks@,
                failure,
                dag_gc_round,
                has_been_included,
                vote,
            ) && final(self).model() == old(self).model(),
    {
        match vote_on_blocks(blocks, dag_gc_round, has_been_included, vote) {
            Ok(voted) => {
                proof {
                    assert forall|i: int|
                        #![trigger voted@[i]]
                        0 <= i < voted@.len() && voted@[i].0.reference.round
                            > self.model().gc_round implies voted@[i].0.reference.author
                        < self.stakes().len() by {
                        assert(voted@[i].0 == blocks@[i]);
                    }
                }
                let counts = self.certifier_state.add_voted_blocks(voted);
                assert(self.model() == after_voted_blocks(old(self).model(), voted@));
                Ok(counts)
            },
            Err(failure) => Err(failure),
        }
    }
}

impl VoteInfo {
    /// The stake against each rejected transaction, in order.
    fn tally(&self, Ghost(stakes): Ghost<Seq<Stake>>) -> (r: Vec<(TransactionIndex, Stake)>)
        requires
            self.wf(stakes),
        ensures
            is_reject_tally(r@, self.model(), stakes),
    {
        let mut r: Vec<(TransactionIndex, Stake)> = Vec::new();
        let votes = self.reject_txn_votes.iter();
        let ghost all = votes.remaining();
        let ghost txns = all.map_values(|kv: (&TransactionIndex, &StakeAggregator)| *kv.0);
        assert(vstd::std_specs::btree::increasing_seq(txns));
        for entry in it: votes
            invariant
                it.seq() == all,
                all == self.reject_txn_votes.iter().remaining(),
                self.wf(stakes),
                r@.len() == it.index(),
                forall|i: int|
                    #![trigger r@[i]]
                    0 <= i < r@.len() ==> r@[i].0 == *all[i].0 && r@[i].1 == stake_of(
                        all[i].1.voters(),
                        stakes,
                    ),
        {
            let (txn, aggregator) = entry;
            proof {
                assert(entry == all[it.index()]);
                assert(self.reject_txn_votes@.contains_key(*txn));
                assert(self.reject_txn_votes@[*txn] == *aggregator);
                assert(aggregator.wf(stakes));
            }
            r.push((*txn, aggregator.stake()));
        }
        proof {
            assert forall|i: int, j: int| 0 <= i < j < r@.len() implies r@[i].0 < r@[j].0 by {
                assert(OrdSpec::cmp_spec(&txns[i], &txns[j]) is Less);
            }
            assert forall|i: int|
                #![trigger r@[i]]
                0 <= i < r@.len() implies self.model().rejecters.contains_key(r@[i].0) && r@[i].1
                == stake_of(self.model().rejecters[r@[i].0], stakes) by {
                assert(self.reject_txn_votes@.contains_key(*all[i].0));
            }
            assert forall|txn: TransactionIndex| #[trigger]
                self.model().rejecters.contains_key(txn) implies exists|i: int|
                0 <= i < r@.len() && #[trigger] r@[i].0 == txn by {
                assert(self.reject_txn_votes@.contains_key(txn));
                let pair = (&txn, &self.reject_txn_votes@[txn]);
                assert(all.contains(pair));
                let i = choose|i: int| 0 <= i < all.len() && all[i] == pair;
                assert(r@[i].0 == txn);
            }
        }
        r
    }
}

proof fn lemma_own_votes_of_none(m: CertifierModel)
    ensures
        own_votes(m, Seq::empty()) == Seq::<(BlockRef, Seq<TransactionIndex>)>::empty(),
{
    reveal(Seq::filter);
    assert(own_votes(m, Seq::empty()) =~= Seq::<(BlockRef, Seq<TransactionIndex>)>::empty());
}

proof fn lemma_own_votes_push(m: CertifierModel, refs: Seq<BlockRef>, r: BlockRef)
    ensures
        own_votes(m, refs.push(r)) == if r.round > m.gc_round && m.votes[r].own_rejects.len() > 0 {
            own_votes(m, refs).push((r, m.votes[r].own_rejects))
        } else {
            own_votes(m, refs)
        },
{
    reveal(Seq::filter);
    assert(refs.push(r).drop_last() =~= refs);
    assert(own_votes(m, refs.push(r)) =~= if r.round > m.gc_round && m.votes[r].own_rejects.len()
        > 0 {
        own_votes(m, refs).push((r, m.votes[r].own_rejects))
    } else {
        own_votes(m, refs)
    });
}

} // verus!
