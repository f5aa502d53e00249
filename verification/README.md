# sui_services

Verified logic of services around a blockchain, and the application code that runs it.

- `src/consensus`: a certifier keeps own votes on the transactions of consensus blocks, and adds up
  the reject votes of other authorities by stake.
- `src/kvstore`: the watermarks of indexing pipelines, in a table with optimistic locking. The rows
  keep a legacy format in step with the current one.
- `src/subscription`: what a subscriber gets for each message of a broadcast of checkpoints.
- `src/governance`: delegated stake by validator and pool, and the system state.
- `src/ids.rs`, `src/big_endian.rs`, `src/ordered_keys.rs`, `src/text.rs`: identifiers, integers as
  bytes, keys of ordered maps, and messages.

Each area states its contracts over mathematical models. The files named `laws.rs` and
`kvstore/protocol.rs` prove what holds across several operations, such as that the order in which
different blocks arrive makes no difference to a certifier, or that no update of a row is lost,
however writers interleave.

What is taken on trust of other crates stands in `src/kvstore/cells.rs` (the contents of
`bytes::Bytes`, and the BCS encoding of integers) and in `src/governance/system_state.rs` (the ids
of dynamic fields).

`app/` holds the locks, the metrics, the streams, JSON, the network and the database.
