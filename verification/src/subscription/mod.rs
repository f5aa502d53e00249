//! Streams of checkpoints and transactions, fed by a broadcast of finalized checkpoints.
pub mod facts;
pub mod laws;
pub mod stream;
