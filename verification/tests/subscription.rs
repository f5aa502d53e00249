use std::sync::Arc;
use sui_services::ids::Bytes32;
use sui_services::subscription::stream::{
    broadcast_error, filter_or_default, Checkpoint, Emitted, ProcessedCheckpoint,
    ProcessedTransaction, Received, RecvError, RpcError, Subscription, Transaction,
};

type Processed = ProcessedCheckpoint<u32, &'static str>;

const LAGGED: &str = "Subscription too slow: missed 120 checkpoints. Please reconnect and use the \
                      query API to backfill from your last seen sequenceNumber.";
const CLOSED: &str = "Checkpoint stream has been shut down. Please reconnect.";

fn processed(sequence_number: u64, contents: &[u32]) -> Received<u32, &'static str> {
    let transactions = contents
        .iter()
        .map(|c| ProcessedTransaction {
            digest: Bytes32 { hi: sequence_number as u128, lo: *c as u128 },
            contents: *c,
            execution_objects: "objects",
        })
        .collect();
    Ok(Arc::new(Processed { sequence_number, transactions }))
}

fn text(e: RpcError) -> String {
    match e {
        RpcError::InternalError(text) => text,
    }
}

/// Runs a stream over messages: its items in order, and the error that ended it.
fn run<T>(
    received: Vec<Received<u32, &'static str>>,
    step: impl Fn(Received<u32, &'static str>) -> Emitted<T>,
) -> (Vec<T>, Option<String>) {
    let mut all = vec![];
    for message in received {
        match step(message) {
            Emitted::Items(items) => all.extend(items),
            Emitted::Last(e) => return (all, Some(text(e))),
        }
    }
    (all, None)
}

fn numbers(checkpoints: &[Checkpoint<u32, &'static str>]) -> Vec<u64> {
    checkpoints.iter().map(|c| c.sequence_number).collect()
}

fn contents(txs: &[Transaction<u32, &'static str>]) -> Vec<u32> {
    txs.iter().map(|t| **t.contents.as_ref().unwrap()).collect()
}

#[test]
fn errors_say_what_to_do() {
    assert_eq!(text(broadcast_error(RecvError::Lagged(120))), LAGGED);
    assert_eq!(text(broadcast_error(RecvError::Closed)), CLOSED);
    assert!(text(broadcast_error(RecvError::Lagged(u64::MAX)))
        .starts_with("Subscription too slow: missed 18446744073709551615 checkpoints. "));
    assert!(text(broadcast_error(RecvError::Lagged(0)))
        .starts_with("Subscription too slow: missed 0 checkpoints. "));
}

#[test]
fn one_checkpoint_for_each_message() {
    let s = Subscription::default();
    let (items, error) = run(
        vec![processed(7, &[]), processed(8, &[1]), processed(9, &[])],
        |r| s.checkpoints(r),
    );
    assert_eq!(numbers(&items), vec![7, 8, 9]);
    assert_eq!(error, None);
    let data = items[1].streamed_data.as_ref().unwrap();
    assert_eq!((data.sequence_number, data.transactions.len()), (8, 1));
}

#[test]
fn checkpoint_stream_ends_with_the_first_error() {
    let s = Subscription;
    let (items, error) = run(
        vec![processed(7, &[]), Err(RecvError::Lagged(120)), processed(8, &[])],
        |r| s.checkpoints(r),
    );
    assert_eq!(numbers(&items), vec![7]);
    assert_eq!(error, Some(LAGGED.to_string()));
}

#[test]
fn transactions_come_in_order_and_filtered() {
    let s = Subscription;
    let odd = |c: &u32| c % 2 == 1;
    let (items, error) = run(
        vec![processed(1, &[5, 4, 3]), processed(2, &[2]), processed(3, &[1, 9])],
        |r| s.transactions(r, &odd),
    );
    assert_eq!(contents(&items), vec![5, 3, 1, 9]);
    assert_eq!(error, None);
    assert_eq!(items[2].digest, Bytes32 { hi: 3, lo: 1 });
    assert_eq!(items[2].execution_objects, "objects");
}

#[test]
fn transaction_stream_ends_with_the_first_error() {
    let s = Subscription;
    let (items, error) = run(
        vec![processed(1, &[5]), Err(RecvError::Closed), processed(2, &[6])],
        |r| s.transactions(r, &|_: &u32| true),
    );
    assert_eq!(contents(&items), vec![5]);
    assert_eq!(error, Some(CLOSED.to_string()));
}

#[test]
fn nothing_matches_nothing_is_yielded() {
    let s = Subscription;
    let (items, error) = run(vec![processed(1, &[5, 6])], |r| s.transactions(r, &|_: &u32| false));
    assert!(items.is_empty());
    assert_eq!(error, None);
}

#[test]
fn filtered_stream_is_the_matching_part() {
    let s = Subscription;
    let received = || {
        vec![
            processed(1, &[5, 4, 5]),
            processed(2, &[2, 8]),
            processed(3, &[5]),
            Err(RecvError::Closed),
            processed(4, &[7]),
        ]
    };
    let odd = |c: &u32| c % 2 == 1;
    let (all, all_error) = run(received(), |r| s.transactions(r, &|_: &u32| true));
    let (some, some_error) = run(received(), |r| s.transactions(r, &odd));
    let part: Vec<u32> = contents(&all).into_iter().filter(|c| odd(c)).collect();
    assert_eq!(contents(&some), part);
    assert_eq!(part, vec![5, 5, 5]);
    assert_eq!(some_error, all_error);
    // The second checkpoint has no match, and the stream goes on.
    assert_eq!(some[2].digest.hi, 3);
}

#[test]
fn no_filter_is_the_default_one() {
    assert_eq!(filter_or_default(None::<u32>), 0);
    assert_eq!(filter_or_default(Some(4u32)), 4);
}
