//! What a subscriber sees over time.
use crate::subscription::stream::{
    error_text, is_chosen, selected, Checkpoint, ProcessedCheckpoint, ProcessedTransaction, Received,
    RecvError,
};
use std::sync::Arc;
use vstd::prelude::*;

verus! {

/// An item of a stream, or the text of the error that ends it.
pub type Yielded<T> = Result<T, Seq<char>>;

/// What a stream of checkpoints yields for these messages.
pub open spec fn checkpoint_stream<C, O>(received: Seq<Received<C, O>>) -> Seq<
    Yielded<Checkpoint<C, O>>,
>
    decreases received.len(),
{
    if received.len() == 0 {
        Seq::empty()
    } else {
        match received[0] {
            Ok(processed) => seq![Ok(checkpoint_of(processed))] + checkpoint_stream(
                received.drop_first(),
            ),
            Err(e) => seq![Err(error_text(e))],
        }
    }
}

/// The item for a checkpoint.
pub open spec fn checkpoint_of<C, O>(processed: Arc<ProcessedCheckpoint<C, O>>) -> Checkpoint<
    C,
    O,
> {
    Checkpoint { sequence_number: processed.sequence_number, streamed_data: Some(processed) }
}

/// The transactions of a checkpoint that are accepted, in order.
pub open spec fn matching<C, O>(
    processed: Arc<ProcessedCheckpoint<C, O>>,
    accepts: spec_fn(C) -> bool,
) -> Seq<ProcessedTransaction<C, O>> {
    processed.transactions@.filter(|tx: ProcessedTransaction<C, O>| accepts(tx.contents))
}

/// What a stream of transactions yields for these messages.
pub open spec fn transaction_stream<C, O>(
    received: Seq<Received<C, O>>,
    accepts: spec_fn(C) -> bool,
) -> Seq<Yielded<ProcessedTransaction<C, O>>>
    decreases received.len(),
{
    if received.len() == 0 {
        Seq::empty()
    } else {
        match received[0] {
            Ok(processed) => as_items(matching(processed, accepts)) + transaction_stream(
                received.drop_first(),
                accepts,
            ),
            Err(e) => seq![Err(error_text(e))],
        }
    }
}

/// Items, none of them an error.
pub open spec fn as_items<T>(items: Seq<T>) -> Seq<Yielded<T>> {
    items.map_values(|item: T| -> Yielded<T> { Ok(item) })
}

/// Everything up to here was received.
pub open spec fn all_received<C, O>(received: Seq<Received<C, O>>) -> bool {
    forall|i: int| 0 <= i < received.len() ==> #[trigger] received[i] is Ok
}

/// The first message that was not received is this one.
pub open spec fn fails_first_at<C, O>(received: Seq<Received<C, O>>, k: int, e: RecvError) -> bool {
    &&& 0 <= k < received.len()
    &&& received[k] matches Err(found) && found == e
    &&& forall|i: int| 0 <= i < k ==> #[trigger] received[i] is Ok
}

/// While everything is received, there is one checkpoint for each message, in order.
pub proof fn lemma_checkpoints_one_by_one<C, O>(received: Seq<Received<C, O>>)
    requires
        all_received(received),
    ensures
        checkpoint_stream(received).len() == received.len(),
        forall|i: int|
            0 <= i < received.len() ==> #[trigger] checkpoint_stream(received)[i] == Ok::<
                Checkpoint<C, O>,
                Seq<char>,
            >(checkpoint_of(received[i]->Ok_0)),
    decreases received.len(),
{
    if received.len() > 0 {
        assert(received[0] is Ok);
        let rest = received.drop_first();
        assert forall|i: int| 0 <= i < rest.len() implies #[trigger] rest[i] is Ok by {
            assert(rest[i] == received[i + 1]);
        }
        lemma_checkpoints_one_by_one(rest);
        assert forall|i: int| 0 <= i < received.len() implies #[trigger] checkpoint_stream(
            received,
        )[i] == Ok::<Checkpoint<C, O>, Seq<char>>(checkpoint_of(received[i]->Ok_0)) by {
            if i > 0 {
                assert(checkpoint_stream(received)[i] == checkpoint_stream(rest)[i - 1]);
                assert(rest[i - 1] == received[i]);
            }
        }
    }
}

/// A checkpoint stream ends with the first message that is not received: after the checkpoints
/// before it comes one error, and nothing that is broadcast later.
pub proof fn lemma_checkpoint_stream_ends<C, O>(
    received: Seq<Received<C, O>>,
    k: int,
    e: RecvError,
)
    requires
        fails_first_at(received, k, e),
    ensures
        checkpoint_stream(received) == checkpoint_stream(received.take(k)).push(
            Err(error_text(e)),
        ),
    decreases received.len(),
{
    if k > 0 {
        assert(received[0] is Ok);
        let rest = received.drop_first();
        assert(rest[k - 1] == received[k]);
        assert forall|i: int| 0 <= i < k - 1 implies #[trigger] rest[i] is Ok by {
            assert(rest[i] == received[i + 1]);
        }
        lemma_checkpoint_stream_ends(rest, k - 1, e);
        assert(received.take(k).drop_first() =~= rest.take(k - 1));
    }
    assert(checkpoint_stream(received) =~= checkpoint_stream(received.take(k)).push(
        Err(error_text(e)),
    ));
}

/// While everything is received, the transactions come ordered by checkpoint, then by position
/// within the checkpoint, and are those that are accepted: the accepted ones of each checkpoint,
/// one checkpoint after the other.
pub proof fn lemma_transactions_in_order<C, O>(
    received: Seq<Received<C, O>>,
    accepts: spec_fn(C) -> bool,
)
    requires
        all_received(received),
    ensures
        transaction_stream(received, accepts) == as_items(
            received.map_values(|r: Received<C, O>| matching(r->Ok_0, accepts)).flatten(),
        ),
    decreases received.len(),
{
    let by_checkpoint = received.map_values(|r: Received<C, O>| matching(r->Ok_0, accepts));
    if received.len() > 0 {
        assert(received[0] is Ok);
        let rest = received.drop_first();
        assert forall|i: int| 0 <= i < rest.len() implies #[trigger] rest[i] is Ok by {
            assert(rest[i] == received[i + 1]);
        }
        lemma_transactions_in_order(rest, accepts);
        assert(by_checkpoint.drop_first() =~= rest.map_values(
            |r: Received<C, O>| matching(r->Ok_0, accepts),
        ));
        assert(by_checkpoint.first() == matching(received[0]->Ok_0, accepts));
        assert(by_checkpoint.flatten() == by_checkpoint.first()
            + by_checkpoint.drop_first().flatten());
    }
    assert(transaction_stream(received, accepts) =~= as_items(by_checkpoint.flatten()));
}

/// Accepts every transaction.
pub open spec fn everything<C>() -> spec_fn(C) -> bool {
    |contents: C| true
}

/// What is left of an unfiltered stream: the transactions that are accepted, and the error that
/// ends it.
pub open spec fn stays<C, O>(accepts: spec_fn(C) -> bool) -> spec_fn(
    Yielded<ProcessedTransaction<C, O>>,
) -> bool {
    |yielded: Yielded<ProcessedTransaction<C, O>>|
        match yielded {
            Ok(tx) => accepts(tx.contents),
            Err(_) => true,
        }
}

/// A filtered stream is the matching part of the unfiltered one, in the same order, and ends with
/// the same error, if with any.
pub proof fn lemma_filtered_is_matching_part<C, O>(
    received: Seq<Received<C, O>>,
    accepts: spec_fn(C) -> bool,
)
    ensures
        transaction_stream(received, accepts) == transaction_stream(
            received,
            everything(),
        ).filter(stays(accepts)),
    decreases received.len(),
{
    let p = stays::<C, O>(accepts);
    if received.len() == 0 {
        reveal(Seq::filter);
        assert(transaction_stream(received, accepts) =~= transaction_stream(
            received,
            everything(),
        ).filter(p));
    } else {
        let rest = received.drop_first();
        match received[0] {
            Ok(processed) => {
                lemma_filtered_is_matching_part(rest, accepts);
                let txs = processed.transactions@;
                lemma_filter_everything(txs);
                lemma_filter_items(txs, accepts);
                Seq::filter_distributes_over_add(
                    as_items(matching(processed, everything())),
                    transaction_stream(rest, everything()),
                    p,
                );
            },
            Err(e) => {
                reveal_with_fuel(Seq::filter, 2);
                let last = seq![Err::<ProcessedTransaction<C, O>, Seq<char>>(error_text(e))];
                assert(last.drop_last() =~= Seq::empty());
                assert(last.filter(p) =~= last);
            },
        }
    }
}

/// The same for the transactions alone, while everything is received: those of all checkpoints,
/// one checkpoint after the other, without those that are not accepted.
pub proof fn lemma_filtered_transactions<C, O>(
    received: Seq<Received<C, O>>,
    accepts: spec_fn(C) -> bool,
)
    ensures
        received.map_values(|r: Received<C, O>| matching(r->Ok_0, accepts)).flatten()
            == received.map_values(
            |r: Received<C, O>| matching(r->Ok_0, everything()),
        ).flatten().filter(|tx: ProcessedTransaction<C, O>| accepts(tx.contents)),
    decreases received.len(),
{
    let p = |tx: ProcessedTransaction<C, O>| accepts(tx.contents);
    let some = received.map_values(|r: Received<C, O>| matching(r->Ok_0, accepts));
    let all = received.map_values(|r: Received<C, O>| matching(r->Ok_0, everything()));
    if received.len() == 0 {
        reveal(Seq::filter);
        assert(some.flatten() =~= all.flatten().filter(p));
    } else {
        let rest = received.drop_first();
        lemma_filtered_transactions(rest, accepts);
        assert(some.drop_first() =~= rest.map_values(
            |r: Received<C, O>| matching(r->Ok_0, accepts),
        ));
        assert(all.drop_first() =~= rest.map_values(
            |r: Received<C, O>| matching(r->Ok_0, everything()),
        ));
        assert(some.flatten() == some.first() + some.drop_first().flatten());
        assert(all.flatten() == all.first() + all.drop_first().flatten());
        lemma_filter_everything(received[0]->Ok_0.transactions@);
        Seq::filter_distributes_over_add(all.first(), all.drop_first().flatten(), p);
    }
}

proof fn lemma_filter_everything<C, O>(txs: Seq<ProcessedTransaction<C, O>>)
    ensures
        txs.filter(|tx: ProcessedTransaction<C, O>| everything::<C>()(tx.contents)) == txs,
    decreases txs.len(),
{
    reveal(Seq::filter);
    if txs.len() > 0 {
        lemma_filter_everything(txs.drop_last());
        assert(txs.drop_last().push(txs.last()) =~= txs);
    }
    assert(txs.filter(|tx: ProcessedTransaction<C, O>| everything::<C>()(tx.contents)) =~= txs);
}

proof fn lemma_filter_items<C, O>(
    txs: Seq<ProcessedTransaction<C, O>>,
    accepts: spec_fn(C) -> bool,
)
    ensures
        as_items(txs).filter(stays(accepts)) == as_items(
            txs.filter(|tx: ProcessedTransaction<C, O>| accepts(tx.contents)),
        ),
    decreases txs.len(),
{
    reveal(Seq::filter);
    if txs.len() > 0 {
        lemma_filter_items(txs.drop_last(), accepts);
        assert(as_items(txs).drop_last() =~= as_items(txs.drop_last()));
    }
    assert(as_items(txs).filter(stays(accepts)) =~= as_items(
        txs.filter(|tx: ProcessedTransaction<C, O>| accepts(tx.contents)),
    ));
}

/// `part` is made of the items of `whole` at these positions, each of them once and in order.
pub open spec fn taken_at<T>(part: Seq<T>, whole: Seq<T>, positions: Seq<int>) -> bool {
    &&& positions.len() == part.len()
    &&& forall|i: int|
        #![trigger positions[i]]
        0 <= i < positions.len() ==> 0 <= positions[i] < whole.len() && part[i]
            == whole[positions[i]]
    &&& forall|i: int, j: int| 0 <= i < j < positions.len() ==> positions[i] < positions[j]
}

/// No item of the unfiltered stream comes twice in a filtered one, and exactly those come that the
/// filter leaves: there are positions of the unfiltered stream, in order, that the items are at.
pub proof fn lemma_filtered_repeats_nothing<C, O>(
    received: Seq<Received<C, O>>,
    accepts: spec_fn(C) -> bool,
) -> (positions: Seq<int>)
    ensures
        taken_at(
            transaction_stream(received, accepts),
            transaction_stream(received, everything()),
            positions,
        ),
        forall|k: int|
            0 <= k < transaction_stream(received, everything()).len() ==> (positions.contains(k)
                <==> stays(accepts)(#[trigger] transaction_stream(received, everything())[k])),
{
    lemma_filtered_is_matching_part(received, accepts);
    lemma_filter_positions(transaction_stream(received, everything()), stays(accepts))
}

/// A filter keeps the items that satisfy it, in order and each once.
pub proof fn lemma_filter_positions<T>(s: Seq<T>, p: spec_fn(T) -> bool) -> (positions: Seq<int>)
    ensures
        taken_at(s.filter(p), s, positions),
        forall|k: int| 0 <= k < s.len() ==> (positions.contains(k) <==> p(#[trigger] s[k])),
    decreases s.len(),
{
    reveal(Seq::filter);
    if s.len() == 0 {
        Seq::empty()
    } else {
        let last = s.len() - 1;
        let before = lemma_filter_positions(s.drop_last(), p);
        let positions = if p(s[last]) {
            before.push(last)
        } else {
            before
        };
        assert forall|k: int| 0 <= k < s.len() implies (positions.contains(k) <==> p(
            #[trigger] s[k],
        )) by {
            if k < last {
                assert(s.drop_last()[k] == s[k]);
                if before.contains(k) {
                    let i = choose|i: int| 0 <= i < before.len() && before[i] == k;
                    assert(positions[i] == k);
                }
                if positions.contains(k) {
                    let i = choose|i: int| 0 <= i < positions.len() && positions[i] == k;
                    assert(before[i] == k);
                }
            } else {
                if p(s[last]) {
                    assert(positions[before.len() as int] == last);
                }
                if positions.contains(last) && !p(s[last]) {
                    let i = choose|i: int| 0 <= i < before.len() && before[i] == last;
                    assert(before[i] < last);
                }
            }
        }
        positions
    }
}

/// A checkpoint without a match yields nothing and does not end the stream: the stream goes on as
/// if it had not been there.
pub proof fn lemma_no_match_is_passed_over<C, O>(
    earlier: Seq<Received<C, O>>,
    processed: Arc<ProcessedCheckpoint<C, O>>,
    later: Seq<Received<C, O>>,
    accepts: spec_fn(C) -> bool,
)
    requires
        forall|i: int|
            0 <= i < processed.transactions@.len() ==> !accepts(
                (#[trigger] processed.transactions@[i]).contents,
            ),
    ensures
        matching(processed, accepts).len() == 0,
        transaction_stream(earlier.push(Ok(processed)) + later, accepts) == transaction_stream(
            earlier + later,
            accepts,
        ),
    decreases earlier.len(),
{
    let with = earlier.push(Ok(processed)) + later;
    let without = earlier + later;
    if matching(processed, accepts).len() > 0 {
        let tx = matching(processed, accepts)[0];
        let p = |tx: ProcessedTransaction<C, O>| accepts(tx.contents);
        assert(p(processed.transactions@.filter(p)[0]));
        assert(processed.transactions@.filter(p).contains(tx));
        processed.transactions@.lemma_filter_contains_rev(p, tx);
        let i = choose|i: int|
            0 <= i < processed.transactions@.len() && processed.transactions@[i] == tx;
        assert(!accepts(processed.transactions@[i].contents));
    }
    if earlier.len() == 0 {
        assert(with.drop_first() =~= without);
        assert(transaction_stream(with, accepts) =~= transaction_stream(without, accepts));
    } else {
        let fewer = earlier.drop_first();
        assert(with.drop_first() =~= fewer.push(Ok(processed)) + later);
        assert(without.drop_first() =~= fewer + later);
        lemma_no_match_is_passed_over(fewer, processed, later, accepts);
    }
}

/// A subscription with this filter can yield this, where `meaning` says what a filter accepts.
pub open spec fn can_yield<C, O, F: Default>(
    filter: Option<F>,
    meaning: spec_fn(F) -> spec_fn(C) -> bool,
    received: Seq<Received<C, O>>,
    yielded: Seq<Yielded<ProcessedTransaction<C, O>>>,
) -> bool {
    exists|chosen: F| #[trigger]
        is_chosen(filter, chosen) && yielded == transaction_stream(received, meaning(chosen))
}

/// No filter acts as the default one.
pub proof fn lemma_no_filter_is_the_default<C, O, F: Default>(
    meaning: spec_fn(F) -> spec_fn(C) -> bool,
    received: Seq<Received<C, O>>,
    yielded: Seq<Yielded<ProcessedTransaction<C, O>>>,
)
    ensures
        can_yield(None::<F>, meaning, received, yielded) <==> exists|default: F| #[trigger]
            call_ensures(F::default, (), default) && can_yield(
                Some(default),
                meaning,
                received,
                yielded,
            ),
{
    if can_yield(None::<F>, meaning, received, yielded) {
        let chosen = choose|chosen: F| #[trigger]
            is_chosen(None::<F>, chosen) && yielded == transaction_stream(
                received,
                meaning(chosen),
            );
        assert(is_chosen(Some(chosen), chosen));
        assert(call_ensures(F::default, (), chosen));
    }
    if exists|default: F| #[trigger]
        call_ensures(F::default, (), default) && can_yield(
            Some(default),
            meaning,
            received,
            yielded,
        ) {
        let default = choose|default: F| #[trigger]
            call_ensures(F::default, (), default) && can_yield(
                Some(default),
                meaning,
                received,
                yielded,
            );
        assert(is_chosen(None::<F>, default));
    }
}

/// A transaction stream ends with the first message that is not received: after the transactions
/// before it comes one error, and nothing that is broadcast later.
pub proof fn lemma_transaction_stream_ends<C, O>(
    received: Seq<Received<C, O>>,
    accepts: spec_fn(C) -> bool,
    k: int,
    e: RecvError,
)
    requires
        fails_first_at(received, k, e),
    ensures
        transaction_stream(received, accepts) == transaction_stream(
            received.take(k),
            accepts,
        ).push(Err(error_text(e))),
    decreases received.len(),
{
    if k > 0 {
        assert(received[0] is Ok);
        let rest = received.drop_first();
        assert(rest[k - 1] == received[k]);
        assert forall|i: int| 0 <= i < k - 1 implies #[trigger] rest[i] is Ok by {
            assert(rest[i] == received[i + 1]);
        }
        lemma_transaction_stream_ends(rest, accepts, k - 1, e);
        assert(received.take(k).drop_first() =~= rest.take(k - 1));
    }
    assert(transaction_stream(received, accepts) =~= transaction_stream(
        received.take(k),
        accepts,
    ).push(Err(error_text(e))));
}

/// Where the filter goes by the contents alone, what is selected from a checkpoint is what the
/// filter accepts.
pub proof fn lemma_selected_is_matching<C, O>(
    processed: Arc<ProcessedCheckpoint<C, O>>,
    accepts: spec_fn(C) -> bool,
    verdicts: Seq<bool>,
)
    requires
        verdicts.len() == processed.transactions@.len(),
        forall|i: int|
            0 <= i < verdicts.len() ==> #[trigger] verdicts[i] == accepts(
                processed.transactions@[i].contents,
            ),
    ensures
        selected(processed.transactions@, verdicts) == matching(processed, accepts),
{
    lemma_selected_is_filter(processed.transactions@, accepts, verdicts);
}

proof fn lemma_selected_is_filter<C, O>(
    txs: Seq<ProcessedTransaction<C, O>>,
    accepts: spec_fn(C) -> bool,
    verdicts: Seq<bool>,
)
    requires
        forall|i: int|
            0 <= i < txs.len() ==> #[trigger] verdicts[i] == accepts(txs[i].contents),
    ensures
        selected(txs, verdicts) == txs.filter(
            |tx: ProcessedTransaction<C, O>| accepts(tx.contents),
        ),
    decreases txs.len(),
{
    reveal(Seq::filter);
    if txs.len() > 0 {
        let _ = verdicts[txs.len() - 1];
        lemma_selected_is_filter(txs.drop_last(), accepts, verdicts);
    }
}

} // verus!
