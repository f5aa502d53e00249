//! Votes on the transactions of consensus blocks.
pub mod block;
pub mod certifier;
pub mod facts;
pub mod laws;
pub mod model;
pub mod recovery;
pub mod stake_aggregator;
