use sui_services::consensus::block::{
    BlockRef, BlockTransactionVotes, Committee, VerifiedBlock, GENESIS_ROUND,
};
use sui_services::consensus::certifier::{CertifierState, TransactionCertifier};
use sui_services::consensus::model::OwnRejectCount;
use sui_services::consensus::recovery::{
    due_votes, vote_on_blocks, vote_where_due, RecoveryPlan, VoteFailure,
};
use sui_services::consensus::stake_aggregator::StakeAggregator;
use sui_services::ids::Bytes32;

fn block_ref(round: u32, author: u32) -> BlockRef {
    BlockRef { round, author, digest: Bytes32 { hi: round as u128, lo: author as u128 } }
}

fn votes(block_ref: BlockRef, rejects: &[u16]) -> BlockTransactionVotes {
    BlockTransactionVotes { block_ref, rejects: rejects.to_vec() }
}

fn block(reference: BlockRef, transaction_votes: Vec<BlockTransactionVotes>) -> VerifiedBlock {
    VerifiedBlock { reference, transaction_votes }
}

fn certifier() -> TransactionCertifier {
    TransactionCertifier::new(Committee::new(vec![10, 20, 30, 40]).unwrap())
}

#[test]
fn committee_needs_stakes_that_add_up() {
    let committee = Committee::new(vec![1, 2, 3]).unwrap();
    assert_eq!(committee.size(), 3);
    assert_eq!(committee.stake(2), 3);
    assert_eq!(committee.authorities(), vec![0, 1, 2]);
    assert!(Committee::new(vec![u64::MAX]).is_some());
    assert!(Committee::new(vec![u64::MAX, 1]).is_none());
}

#[test]
fn stake_of_an_authority_counts_once() {
    let committee = Committee::new(vec![5, 7]).unwrap();
    let mut aggregator = StakeAggregator::new();
    assert_eq!(aggregator.stake(), 0);
    assert!(aggregator.add_unique(1, &committee));
    assert!(!aggregator.add_unique(1, &committee));
    assert_eq!(aggregator.stake(), 7);
    assert!(aggregator.add_unique(0, &committee));
    assert_eq!(aggregator.stake(), 12);
}

#[test]
fn a_new_certifier_knows_nothing() {
    let c = certifier();
    assert_eq!(c.gc_round(), GENESIS_ROUND);
    assert_eq!(c.get_reject_votes(&block_ref(1, 0)), None);
    assert!(c.get_own_votes(vec![block_ref(0, 2)]).is_empty());
}

#[test]
fn own_votes_are_read_back() {
    let mut c = certifier();
    let a = block_ref(1, 0);
    let b = block_ref(1, 1);
    let counts = c.add_voted_blocks(vec![
        (block(a, vec![]), vec![3, 1]),
        (block(b, vec![]), vec![]),
    ]);
    assert_eq!(
        counts,
        vec![
            OwnRejectCount { author: 0, count: 2 },
            OwnRejectCount { author: 1, count: 0 },
        ]
    );
    // In the order of the question, as they were given, and without those that reject nothing.
    assert_eq!(c.get_own_votes(vec![b, a, a]), vec![votes(a, &[3, 1]), votes(a, &[3, 1])]);
    assert_eq!(c.get_reject_votes(&a), Some(vec![]));
}

#[test]
fn a_block_is_taken_once() {
    let mut c = certifier();
    let a = block_ref(1, 0);
    let target = block_ref(1, 2);
    c.add_voted_blocks(vec![(block(a, vec![]), vec![1])]);
    let counts = c.add_voted_blocks(vec![(block(a, vec![votes(target, &[0])]), vec![2])]);
    // The attempt still counts for the metrics.
    assert_eq!(counts, vec![OwnRejectCount { author: 0, count: 1 }]);
    assert_eq!(c.get_own_votes(vec![a]), vec![votes(a, &[1])]);
    assert_eq!(c.get_reject_votes(&target), None);
}

#[test]
fn reject_votes_add_up_before_the_block_is_there() {
    let mut c = certifier();
    let target = block_ref(1, 0);
    c.add_voted_blocks(vec![
        (block(block_ref(2, 1), vec![votes(target, &[5, 2])]), vec![]),
        (block(block_ref(2, 3), vec![votes(target, &[2])]), vec![]),
    ]);
    assert_eq!(c.get_reject_votes(&target), Some(vec![(2, 60), (5, 20)]));
    assert!(c.get_own_votes(vec![target]).is_empty());
    c.add_voted_blocks(vec![(block(target, vec![]), vec![7])]);
    assert_eq!(c.get_reject_votes(&target), Some(vec![(2, 60), (5, 20)]));
    assert_eq!(c.get_own_votes(vec![target]), vec![votes(target, &[7])]);
}

#[test]
fn an_authority_that_repeats_itself_counts_once() {
    let mut c = certifier();
    let target = block_ref(1, 0);
    c.add_voted_blocks(vec![
        (block(block_ref(2, 1), vec![votes(target, &[4, 4]), votes(target, &[4])]), vec![]),
        (block(block_ref(3, 1), vec![votes(target, &[4])]), vec![]),
    ]);
    assert_eq!(c.get_reject_votes(&target), Some(vec![(4, 20)]));
}

#[test]
fn a_vote_that_rejects_nothing_makes_the_block_known() {
    let mut c = certifier();
    let target = block_ref(1, 0);
    c.add_voted_blocks(vec![(block(block_ref(2, 1), vec![votes(target, &[])]), vec![])]);
    assert_eq!(c.get_reject_votes(&target), Some(vec![]));
}

#[test]
fn a_block_can_reject_its_own_transactions() {
    let mut c = certifier();
    let a = block_ref(1, 3);
    c.add_voted_blocks(vec![(block(a, vec![votes(a, &[9])]), vec![8])]);
    assert_eq!(c.get_reject_votes(&a), Some(vec![(9, 40)]));
    assert_eq!(c.get_own_votes(vec![a]), vec![votes(a, &[8])]);
}

#[test]
fn the_order_of_blocks_makes_no_difference() {
    let target = block_ref(1, 0);
    let one = || (block(block_ref(2, 1), vec![votes(target, &[1])]), vec![]);
    let two = || (block(target, vec![votes(block_ref(2, 1), &[6])]), vec![2u16]);
    let mut c = certifier();
    c.add_voted_blocks(vec![one(), two()]);
    let mut d = certifier();
    d.add_voted_blocks(vec![two(), one()]);
    for r in [target, block_ref(2, 1)] {
        assert_eq!(c.get_reject_votes(&r), d.get_reject_votes(&r));
        assert_eq!(c.get_own_votes(vec![r]), d.get_own_votes(vec![r]));
    }
    assert_eq!(c.get_reject_votes(&target), Some(vec![(1, 20)]));
    assert_eq!(c.get_reject_votes(&block_ref(2, 1)), Some(vec![(6, 10)]));
}

#[test]
fn garbage_collection_forgets_for_good() {
    let mut c = certifier();
    let old = block_ref(2, 0);
    let kept = block_ref(3, 0);
    c.add_voted_blocks(vec![
        (block(old, vec![]), vec![1]),
        (block(kept, vec![]), vec![2]),
        (block(block_ref(4, 1), vec![votes(old, &[1]), votes(kept, &[1])]), vec![]),
    ]);
    c.run_gc(2, 5);
    assert_eq!(c.gc_round(), 2);
    assert_eq!(c.get_reject_votes(&old), None);
    assert_eq!(c.get_reject_votes(&kept), Some(vec![(1, 20)]));
    assert_eq!(c.get_own_votes(vec![old, kept]), vec![votes(kept, &[2])]);

    // Neither the old block nor votes on it come back.
    let counts = c.add_voted_blocks(vec![
        (block(old, vec![]), vec![1]),
        (block(block_ref(5, 2), vec![votes(old, &[1])]), vec![]),
    ]);
    assert_eq!(counts, vec![OwnRejectCount { author: 2, count: 0 }]);
    assert_eq!(c.get_reject_votes(&old), None);

    // In two steps as in one.
    c.run_gc(4, 5);
    assert_eq!(c.get_reject_votes(&kept), None);
    assert_eq!(c.get_reject_votes(&block_ref(5, 2)), Some(vec![]));
}

#[test]
fn state_counts_and_collects_by_itself() {
    let mut state = CertifierState::new(Committee::new(vec![1, 1]).unwrap());
    assert_eq!(
        state.add_voted_block(block(block_ref(3, 1), vec![]), vec![4]),
        Some(OwnRejectCount { author: 1, count: 1 })
    );
    assert_eq!(state.add_voted_block(block(block_ref(0, 1), vec![]), vec![4]), None);
    state.update_gc_round(3);
    assert_eq!(state.add_voted_block(block(block_ref(3, 1), vec![]), vec![4]), None);
}

#[test]
fn recovery_starts_after_the_round() {
    let c = certifier();
    assert_eq!(c.recover_blocks_after_round(false, 7), None);
    assert_eq!(
        c.recover_blocks_after_round(true, 7),
        Some(RecoveryPlan { start_round: 8, authorities: vec![0, 1, 2, 3] })
    );
}

#[test]
fn recovery_votes_where_a_vote_is_due() {
    let mut c = certifier();
    let included = block_ref(5, 1);
    let due = block_ref(5, 2);
    let old = block_ref(4, 0);
    let blocks = vec![block(old, vec![]), block(included, vec![votes(due, &[3])]), block(due, vec![])];
    let has_been_included = |r: &BlockRef| {
        assert!(r.round > 4, "asked about a block at the GC round of the DAG");
        *r == included
    };
    let vote = |b: &VerifiedBlock| -> Result<Vec<u16>, String> {
        assert_eq!(b.reference, due);
        Ok(vec![6])
    };
    let counts = c.recover_and_vote_on_blocks(blocks, 4, has_been_included, vote).unwrap();
    assert_eq!(
        counts,
        vec![
            OwnRejectCount { author: 0, count: 0 },
            OwnRejectCount { author: 1, count: 0 },
            OwnRejectCount { author: 2, count: 1 },
        ]
    );
    assert_eq!(c.get_own_votes(vec![old, included, due]), vec![votes(due, &[6])]);
    assert_eq!(c.get_reject_votes(&due), Some(vec![(3, 20)]));
}

#[test]
fn recovery_stops_at_the_first_failure() {
    let mut c = certifier();
    let first = block_ref(5, 0);
    let second = block_ref(5, 1);
    let blocks = || vec![block(first, vec![]), block(second, vec![]), block(block_ref(5, 2), vec![])];
    let vote = |b: &VerifiedBlock| if b.reference == first { Ok(vec![1]) } else { Err("broken") };
    assert_eq!(
        c.recover_and_vote_on_blocks(blocks(), 0, |_: &BlockRef| false, vote),
        Err(VoteFailure { block_ref: second, error: "broken" })
    );
    assert_eq!(c.get_reject_votes(&first), None);
    let voted = vote_on_blocks(blocks(), 5, |_: &BlockRef| false, vote).unwrap();
    assert!(voted.iter().all(|(_, rejects)| rejects.is_empty()));
}

#[test]
fn a_rejected_transaction_cannot_be_certified() {
    // Four authorities of equal stake, one of them malicious: three reject, so that at most the
    // one that does not and the malicious one accept.
    let committee = Committee::new(vec![1, 1, 1, 1]).unwrap();
    let mut c = TransactionCertifier::new(committee);
    let target = block_ref(1, 0);
    let voters = (1..4).map(|a| (block(block_ref(2, a), vec![votes(target, &[0])]), vec![]));
    c.add_voted_blocks(voters.collect());
    let rejecting = c.get_reject_votes(&target).unwrap()[0].1;
    let (total, f) = (4, 1);
    assert!(rejecting >= total - f);
    assert!((total - rejecting) + f < total - f);
}

#[test]
fn votes_that_are_due_are_found_first_and_cast_later() {
    let included = block_ref(5, 1);
    let blocks = vec![
        block(block_ref(4, 0), vec![]),
        block(included, vec![]),
        block(block_ref(6, 2), vec![]),
    ];
    let due = due_votes(&blocks, 4, |r: &BlockRef| *r == included);
    assert_eq!(due, vec![false, false, true]);
    let voted = vote_where_due(blocks, &due, |_: &VerifiedBlock| Ok::<_, ()>(vec![9])).unwrap();
    let rejects: Vec<Vec<u16>> = voted.into_iter().map(|(_, rejects)| rejects).collect();
    assert_eq!(rejects, vec![vec![], vec![], vec![9]]);
    let failed = vote_where_due(
        vec![block(included, vec![])],
        &vec![true],
        |_: &VerifiedBlock| Err("broken"),
    );
    assert_eq!(failed.unwrap_err(), VoteFailure { block_ref: included, error: "broken" });
}

#[test]
fn many_blocks_in_any_order_and_any_lists() {
    let target = block_ref(1, 0);
    let make = |a: u32| {
        (block(block_ref(2, a), vec![votes(target, &[a as u16, 7])]), vec![a as u16])
    };
    let mut c = certifier();
    c.add_voted_blocks(vec![make(0), make(1), make(2), make(3)]);
    let mut d = certifier();
    d.add_voted_blocks(vec![make(3), make(1)]);
    d.add_voted_blocks(vec![make(0), make(2)]);
    assert_eq!(c.get_reject_votes(&target), d.get_reject_votes(&target));
    assert_eq!(
        c.get_reject_votes(&target),
        Some(vec![(0, 10), (1, 20), (2, 30), (3, 40), (7, 100)])
    );
    for a in 0..4 {
        let r = block_ref(2, a);
        assert_eq!(c.get_own_votes(vec![r]), d.get_own_votes(vec![r]));
    }
}

#[test]
fn votes_of_collected_blocks_still_count() {
    let mut c = certifier();
    let target = block_ref(9, 0);
    c.add_voted_blocks(vec![(block(block_ref(2, 1), vec![votes(target, &[3])]), vec![])]);
    c.run_gc(2, 8);
    c.add_voted_blocks(vec![
        // Too old by now, so that its votes do not count.
        (block(block_ref(2, 2), vec![votes(target, &[3])]), vec![]),
        (block(block_ref(3, 3), vec![votes(target, &[3, 4])]), vec![]),
    ]);
    assert_eq!(c.get_reject_votes(&target), Some(vec![(3, 60), (4, 40)]));
    // Not received, so that there are no own votes on it.
    assert!(c.get_own_votes(vec![target]).is_empty());
}
