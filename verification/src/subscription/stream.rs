//! What a subscriber gets for each message of the broadcast.
use crate::ids::Bytes32;
use crate::text::{around_number, decimal};
use std::sync::Arc;
use vstd::prelude::*;

verus! {

/// A transaction of a finalized checkpoint: its contents `C`, and the objects `O` that its
/// execution read and wrote.
pub struct ProcessedTransaction<C, O> {
    pub digest: Bytes32,
    pub contents: C,
    pub execution_objects: O,
}

/// A finalized checkpoint as it is broadcast.
pub struct ProcessedCheckpoint<C, O> {
    pub sequence_number: u64,
    pub transactions: Vec<ProcessedTransaction<C, O>>,
}

/// Why nothing was received.
#[derive(Clone, Copy, Debug, PartialEq, Eq, Structural)]
pub enum RecvError {
    /// The receiver was too slow and has missed so many checkpoints.
    Lagged(u64),
    /// There is nobody left who broadcasts.
    Closed,
}

/// What is reported to the subscriber.
#[derive(Debug)]
pub enum RpcError {
    InternalError(String),
}

/// What a message of the broadcast is: a checkpoint, or why there is none.
pub type Received<C, O> = Result<Arc<ProcessedCheckpoint<C, O>>, RecvError>;

/// A checkpoint of a stream.
pub struct Checkpoint<C, O> {
    pub sequence_number: u64,
    pub streamed_data: Option<Arc<ProcessedCheckpoint<C, O>>>,
}

/// A transaction of a stream.
pub struct Transaction<C, O> {
    pub digest: Bytes32,
    pub contents: Option<Arc<C>>,
    pub execution_objects: O,
}

/// What a stream does about a message.
pub enum Emitted<T> {
    /// It yields these, in order, and goes on.
    Items(Vec<T>),
    /// It yields this error and ends.
    Last(RpcError),
}

/// The text of the error for a message that was not received.
pub open spec fn error_text(e: RecvError) -> Seq<char> {
    match e {
        RecvError::Lagged(missed_count) => "Subscription too slow: missed "@ + decimal(
            missed_count as nat,
        )
            + " checkpoints. Please reconnect and use the query API to backfill from your last seen sequenceNumber."@,
        RecvError::Closed => "Checkpoint stream has been shut down. Please reconnect."@,
    }
}

/// The text of an error.
pub open spec fn text_of(e: RpcError) -> Seq<char> {
    match e {
        RpcError::InternalError(text) => text@,
    }
}

/// The error for a message that was not received.
pub fn broadcast_error(e: RecvError) -> (r: RpcError)
    ensures
        text_of(r) == error_text(e),
{
    match e {
        RecvError::Lagged(missed_count) => RpcError::InternalError(
            around_number(
                "Subscription too slow: missed ",
                missed_count,
                " checkpoints. Please reconnect and use the query API to backfill from your last seen sequenceNumber.",
            ),
        ),
        RecvError::Closed => RpcError::InternalError(
            "Checkpoint stream has been shut down. Please reconnect.".to_string(),
        ),
    }
}

/// A stream gives a transaction by its digest, with clones of its contents and its objects.
pub open spec fn gives<C: Clone, O: Clone>(
    item: Transaction<C, O>,
    tx: ProcessedTransaction<C, O>,
) -> bool {
    &&& item.digest == tx.digest
    &&& item.contents matches Some(contents) && cloned(tx.contents, *contents)
    &&& cloned(tx.execution_objects, item.execution_objects)
}

/// The items give these transactions, one each, in order.
pub open spec fn give<C: Clone, O: Clone>(
    items: Seq<Transaction<C, O>>,
    txs: Seq<ProcessedTransaction<C, O>>,
) -> bool {
    &&& items.len() == txs.len()
    &&& forall|i: int| 0 <= i < items.len() ==> gives(#[trigger] items[i], txs[i])
}

/// The transactions for which the verdict is `true`, in order.
pub open spec fn selected<C, O>(
    txs: Seq<ProcessedTransaction<C, O>>,
    verdicts: Seq<bool>,
) -> Seq<ProcessedTransaction<C, O>>
    decreases txs.len(),
{
    if txs.len() == 0 {
        Seq::empty()
    } else if verdicts[txs.len() - 1] {
        selected(txs.drop_last(), verdicts).push(txs.last())
    } else {
        selected(txs.drop_last(), verdicts)
    }
}

/// These are verdicts of `matches` on the transactions.
pub open spec fn are_verdicts<C, O, F: Fn(&C) -> bool>(
    matches: F,
    txs: Seq<ProcessedTransaction<C, O>>,
    verdicts: Seq<bool>,
) -> bool {
    &&& verdicts.len() == txs.len()
    &&& forall|i: int|
        0 <= i < txs.len() ==> call_ensures(matches, (&txs[i].contents,), #[trigger] verdicts[i])
}

/// The filter that a subscription goes by: the one that was asked for, else the default one.
pub open spec fn is_chosen<F: Default>(filter: Option<F>, chosen: F) -> bool {
    match filter {
        Some(f) => chosen == f,
        None => call_ensures(F::default, (), chosen),
    }
}

/// The filter that a subscription goes by.
pub fn filter_or_default<F: Default>(filter: Option<F>) -> (r: F)
    ensures
        is_chosen(filter, r),
{
    filter.unwrap_or_default()
}

/// The root of the subscriptions.
pub struct Subscription;

impl Default for Subscription {
    fn default() -> (r: Self)
        ensures
            r == Subscription,
    {
        Subscription
    }
}

impl Subscription {
    /// Checkpoints as they are finalized: one for each that is received, until one is not.
    pub fn checkpoints<C, O>(&self, received: Received<C, O>) -> (r: Emitted<Checkpoint<C, O>>)
        ensures
            match received {
                Ok(processed) => r matches Emitted::Items(items) && items@ == seq![
                    Checkpoint {
                        sequence_number: processed.sequence_number,
                        streamed_data: Some(processed),
                    },
                ],
                Err(e) => r matches Emitted::Last(error) && text_of(error) == error_text(e),
            },
    {
        match received {
            Ok(processed) => {
                let item = Checkpoint {
                    sequence_number: processed.sequence_number,
                    streamed_data: Some(processed),
                };
                let mut items: Vec<Checkpoint<C, O>> = Vec::new();
                items.push(item);
                assert(items@ =~= seq![item]);
                Emitted::Items(items)
            },
            Err(e) => Emitted::Last(broadcast_error(e)),
        }
    }

    /// Transactions as they are finalized, those that `matches` accepts: ordered by checkpoint,
    /// then by position within the checkpoint.
    pub fn transactions<C: Clone, O: Clone, F: Fn(&C) -> bool>(
        &self,
        received: Received<C, O>,
        matches: &F,
    ) -> (r: Emitted<Transaction<C, O>>)
        requires
            received matches Ok(processed) ==> forall|i: int|
                0 <= i < processed.transactions@.len() ==> call_requires(
                    *matches,
                    (&(#[trigger] processed.transactions@[i]).contents,),
                ),
        ensures
            match received {
                Ok(processed) => r matches Emitted::Items(items) && exists|verdicts: Seq<bool>|
                    #[trigger]
                    are_verdicts(*matches, processed.transactions@, verdicts) && give(
                        items@,
                        selected(processed.transactions@, verdicts),
                    ),
                Err(e) => r matches Emitted::Last(error) && text_of(error) == error_text(e),
            },
    {
        match received {
            Ok(processed) => {
                let txs = &processed.transactions;
                let mut items: Vec<Transaction<C, O>> = Vec::new();
                let ghost mut verdicts: Seq<bool> = Seq::empty();
                let mut i: usize = 0;
                while i < txs.len()
                    invariant
                        i <= txs@.len(),
                        txs@ == processed.transactions@,
                        forall|i: int|
                            0 <= i < txs@.len() ==> call_requires(
                                *matches,
                                (&(#[trigger] txs@[i]).contents,),
                            ),
                        are_verdicts(*matches, txs@.take(i as int), verdicts),
                        give(items@, selected(txs@.take(i as int), verdicts)),
                    decreases txs@.len() - i,
                {
                    let tx = &txs[i];
                    let accepted = matches(&tx.contents);
                    let ghost before = verdicts;
                    proof {
                        verdicts = verdicts.push(accepted);
                        assert(txs@.take(i + 1).drop_last() =~= txs@.take(i as int));
                        lemma_selected_by_prefix(txs@.take(i as int), before, verdicts);
                    }
                    if accepted {
                        items.push(
                            Transaction {
                                digest: tx.digest,
                                contents: Some(Arc::new(tx.contents.clone())),
                                execution_objects: tx.execution_objects.clone(),
                            },
                        );
                    }
                    i = i + 1;
                }
                assert(txs@.take(i as int) =~= txs@);
                Emitted::Items(items)
            },
            Err(e) => Emitted::Last(broadcast_error(e)),
        }
    }
}

/// Only the verdicts on the transactions themselves count.
proof fn lemma_selected_by_prefix<C, O>(
    txs: Seq<ProcessedTransaction<C, O>>,
    a: Seq<bool>,
    b: Seq<bool>,
)
    requires
        forall|i: int| 0 <= i < txs.len() ==> a[i] == b[i],
    ensures
        selected(txs, a) == selected(txs, b),
    decreases txs.len(),
{
    if txs.len() > 0 {
        lemma_selected_by_prefix(txs.drop_last(), a, b);
    }
}

} // verus!
