//! What the calls of a subscription answer, item by item.
//!
//! Each law speaks of every answer `r` that a call can give.
use crate::subscription::stream::{
    are_verdicts, broadcast_error, filter_or_default, give, selected, Checkpoint, Emitted,
    ProcessedCheckpoint, ProcessedTransaction, Received, RecvError, RpcError, Subscription,
    Transaction,
};
use crate::text::{decimal, lemma_decimal_is_read_back, number_of};
use std::sync::Arc;
use vstd::prelude::*;

verus! {

/// A checkpoint that is received is streamed, with its number and with all that was received; a
/// message that is not ends the stream.
pub proof fn lemma_checkpoint_is_streamed<C, O>(
    s: &Subscription,
    received: Received<C, O>,
    r: Emitted<Checkpoint<C, O>>,
)
    requires
        call_ensures(Subscription::checkpoints::<C, O>, (s, received), r),
    ensures
        received matches Ok(processed) ==> (r matches Emitted::Items(items) && items@.len() == 1
            && items@[0].sequence_number == processed.sequence_number && items@[0].streamed_data
            == Some(processed)),
        received is Err ==> r is Last,
{
}

/// The transactions that are streamed stand at these positions of the checkpoint: in order, each
/// once, with their digests and with clones of the rest. At these positions the filter said yes,
/// and at all others no.
pub open spec fn streamed_at<C: Clone, O: Clone, F: Fn(&C) -> bool>(
    items: Seq<Transaction<C, O>>,
    txs: Seq<ProcessedTransaction<C, O>>,
    matches: F,
    positions: Seq<int>,
) -> bool {
    &&& positions.len() == items.len()
    &&& forall|i: int, j: int| 0 <= i < j < positions.len() ==> positions[i] < positions[j]
    &&& forall|i: int|
        #![trigger positions[i]]
        0 <= i < positions.len() ==> {
            &&& 0 <= positions[i] < txs.len()
            &&& items[i].digest == txs[positions[i]].digest
            &&& items[i].contents matches Some(c) && cloned(txs[positions[i]].contents, *c)
            &&& cloned(txs[positions[i]].execution_objects, items[i].execution_objects)
        }
    &&& forall|k: int|
        #![trigger txs[k]]
        0 <= k < txs.len() ==> call_ensures(
            matches,
            (&txs[k].contents,),
            positions.contains(k),
        )
}

/// Of a checkpoint that is received, exactly the transactions that the filter accepts are streamed,
/// wherever they stand and however many they are; a message that is not received ends the stream.
pub proof fn lemma_transactions_are_streamed<C: Clone, O: Clone, F: Fn(&C) -> bool>(
    s: &Subscription,
    received: Received<C, O>,
    matches: F,
    r: Emitted<Transaction<C, O>>,
) -> (positions: Seq<int>)
    requires
        call_ensures(Subscription::transactions::<C, O, F>, (s, received, &matches), r),
    ensures
        received matches Ok(processed) ==> (r matches Emitted::Items(items) && streamed_at(
            items@,
            processed.transactions@,
            matches,
            positions,
        )),
        received is Err ==> r is Last,
{
    match received {
        Ok(processed) => {
            let txs = processed.transactions@;
            let items = r->Items_0@;
            let verdicts = choose|verdicts: Seq<bool>| #[trigger]
                are_verdicts(matches, txs, verdicts) && give(items, selected(txs, verdicts));
            let positions = lemma_selected_positions(txs, verdicts);
            assert forall|i: int|
                #![trigger positions[i]]
                0 <= i < positions.len() implies {
                &&& 0 <= positions[i] < txs.len()
                &&& items[i].digest == txs[positions[i]].digest
                &&& items[i].contents matches Some(c) && cloned(txs[positions[i]].contents, *c)
                &&& cloned(txs[positions[i]].execution_objects, items[i].execution_objects)
            } by {
                let _ = items[i];
            }
            assert forall|k: int|
                #![trigger txs[k]]
                0 <= k < txs.len() implies call_ensures(
                matches,
                (&txs[k].contents,),
                positions.contains(k),
            ) by {
                let _ = verdicts[k];
            }
            positions
        },
        Err(_) => Seq::empty(),
    }
}

/// What is selected is what has the verdict for it, in order and each once.
proof fn lemma_selected_positions<C, O>(
    txs: Seq<ProcessedTransaction<C, O>>,
    verdicts: Seq<bool>,
) -> (positions: Seq<int>)
    ensures
        positions.len() == selected(txs, verdicts).len(),
        forall|i: int, j: int| 0 <= i < j < positions.len() ==> positions[i] < positions[j],
        forall|i: int|
            #![trigger positions[i]]
            0 <= i < positions.len() ==> 0 <= positions[i] < txs.len() && selected(
                txs,
                verdicts,
            )[i] == txs[positions[i]],
        forall|k: int|
            #![trigger verdicts[k]]
            0 <= k < txs.len() ==> (positions.contains(k) <==> verdicts[k]),
    decreases txs.len(),
{
    if txs.len() == 0 {
        Seq::empty()
    } else {
        let last = txs.len() - 1;
        let before = lemma_selected_positions(txs.drop_last(), verdicts);
        let positions = if verdicts[last] {
            before.push(last)
        } else {
            before
        };
        assert forall|k: int|
            #![trigger verdicts[k]]
            0 <= k < txs.len() implies (positions.contains(k) <==> verdicts[k]) by {
            if before.contains(k) {
                let i = choose|i: int| 0 <= i < before.len() && before[i] == k;
                assert(positions[i] == k);
            }
            if positions.contains(k) {
                let i = choose|i: int| 0 <= i < positions.len() && positions[i] == k;
                if i < before.len() {
                    assert(before[i] == k);
                }
            }
            if k == last && verdicts[last] {
                assert(positions[before.len() as int] == last);
            }
        }
        positions
    }
}

/// Whatever the filter can only accept is streamed, and what it can only refuse is not.
pub proof fn lemma_filter_is_obeyed<C: Clone, O: Clone, F: Fn(&C) -> bool>(
    s: &Subscription,
    processed: Arc<ProcessedCheckpoint<C, O>>,
    matches: F,
    items: Vec<Transaction<C, O>>,
    k: int,
)
    requires
        call_ensures(
            Subscription::transactions::<C, O, F>,
            (s, Ok(processed), &matches),
            Emitted::Items(items),
        ),
        0 <= k < processed.transactions@.len(),
    ensures
        !call_ensures(matches, (&processed.transactions@[k].contents,), false) ==> exists|i: int|
            0 <= i < items@.len() && (#[trigger] items@[i]).digest
                == processed.transactions@[k].digest,
        (forall|t: int|
            0 <= t < processed.transactions@.len() ==> !call_ensures(
                matches,
                (&(#[trigger] processed.transactions@[t]).contents,),
                false,
            )) ==> items@.len() == processed.transactions@.len(),
        (forall|t: int|
            0 <= t < processed.transactions@.len() ==> !call_ensures(
                matches,
                (&(#[trigger] processed.transactions@[t]).contents,),
                true,
            )) ==> items@.len() == 0,
{
    let txs = processed.transactions@;
    let positions = lemma_transactions_are_streamed(
        s,
        Ok(processed),
        matches,
        Emitted::Items(items),
    );
    let _ = txs[k];
    if !call_ensures(matches, (&txs[k].contents,), false) {
        assert(positions.contains(k));
        let i = choose|i: int| 0 <= i < positions.len() && positions[i] == k;
        let _ = items@[i];
    }
    if forall|t: int|
        0 <= t < txs.len() ==> !call_ensures(
            matches,
            (&(#[trigger] txs[t]).contents,),
            false,
        ) {
        assert forall|t: int| 0 <= t < txs.len() implies #[trigger] positions.contains(t) by {
            let _ = txs[t];
        }
        lemma_all_positions(positions, txs.len() as int);
    }
    if forall|t: int|
        0 <= t < txs.len() ==> !call_ensures(
            matches,
            (&(#[trigger] txs[t]).contents,),
            true,
        ) {
        if items@.len() > 0 {
            let t = positions[0];
            let _ = txs[t];
            assert(positions.contains(t));
        }
    }
}

/// Positions in order that leave out none are as many as there are.
proof fn lemma_all_positions(positions: Seq<int>, n: int)
    requires
        n >= 0,
        forall|i: int, j: int| 0 <= i < j < positions.len() ==> positions[i] < positions[j],
        forall|i: int| 0 <= i < positions.len() ==> 0 <= #[trigger] positions[i] < n,
        forall|t: int| 0 <= t < n ==> #[trigger] positions.contains(t),
    ensures
        positions.len() == n,
    decreases n,
{
    if n > 0 {
        assert(positions.contains(n - 1));
        let at = choose|i: int| 0 <= i < positions.len() && positions[i] == n - 1;
        if at < positions.len() - 1 {
            assert(positions[at] < positions[positions.len() - 1]);
        }
        let fewer = positions.drop_last();
        assert forall|t: int| 0 <= t < n - 1 implies #[trigger] fewer.contains(t) by {
            assert(positions.contains(t));
            let i = choose|i: int| 0 <= i < positions.len() && positions[i] == t;
            assert(fewer[i] == t);
        }
        assert forall|i: int| 0 <= i < fewer.len() implies 0 <= #[trigger] fewer[i] < n - 1 by {
            assert(positions[i] < positions[positions.len() - 1]);
        }
        lemma_all_positions(fewer, n - 1);
    } else if positions.len() > 0 {
        let _ = positions[0];
    }
}

/// The error for a receiver that was too slow says how many checkpoints it missed, in digits that
/// read as that number and between the same words for every number.
pub proof fn lemma_lag_is_reported(missed: u64, r: RpcError) -> (digits: Seq<char>)
    requires
        call_ensures(broadcast_error, (RecvError::Lagged(missed),), r),
    ensures
        number_of(digits) == missed,
        r matches RpcError::InternalError(text) && text@ == "Subscription too slow: missed "@
            + digits
            + " checkpoints. Please reconnect and use the query API to backfill from your last seen sequenceNumber."@,
{
    lemma_decimal_is_read_back(missed as nat);
    decimal(missed as nat)
}

/// The error for a broadcast that is over.
pub proof fn lemma_end_is_reported(r: RpcError)
    requires
        call_ensures(broadcast_error, (RecvError::Closed,), r),
    ensures
        r matches RpcError::InternalError(text) && text@
            == "Checkpoint stream has been shut down. Please reconnect."@,
{
}

/// Both streams report what was not received in the same words.
pub proof fn lemma_errors_of_both_streams<C: Clone, O: Clone, F: Fn(&C) -> bool>(
    s: &Subscription,
    e: RecvError,
    matches: F,
    a: Emitted<Checkpoint<C, O>>,
    b: Emitted<Transaction<C, O>>,
    c: RpcError,
)
    requires
        call_ensures(Subscription::checkpoints::<C, O>, (s, Err(e)), a),
        call_ensures(Subscription::transactions::<C, O, F>, (s, Err(e), &matches), b),
        call_ensures(broadcast_error, (e,), c),
    ensures
        a matches Emitted::Last(RpcError::InternalError(x)) && c matches RpcError::InternalError(z)
            && x@ == z@,
        b matches Emitted::Last(RpcError::InternalError(y)) && c matches RpcError::InternalError(z)
            && y@ == z@,
{
}

/// A filter that is asked for is the one that is used; else a default one is.
pub proof fn lemma_filter_that_is_used<F: Default>(filter: Option<F>, r: F)
    requires
        call_ensures(filter_or_default::<F>, (filter,), r),
    ensures
        filter matches Some(f) ==> r == f,
        filter is None ==> call_ensures(F::default, (), r),
{
}

} // verus!
