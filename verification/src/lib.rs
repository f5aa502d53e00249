//! Verified logic of services around a blockchain.
//!
//! - [`consensus`]: own votes on the transactions of consensus blocks, and the reject votes of
//!   others by stake.
//! - [`kvstore`]: watermarks of indexing pipelines in a table with optimistic locking.
//! - [`subscription`]: streams of finalized checkpoints and transactions.
//! - [`governance`]: delegated stake by validator and pool, and the system state.
//! - [`ids`], [`big_endian`], [`ordered_keys`], [`text`]: identifiers, integers as bytes, keys of
//!   ordered maps, and messages.
//!
//! Locks, the network, the database and JSON are left to the application.
pub mod big_endian;
pub mod consensus;
pub mod governance;
pub mod ids;
pub mod kvstore;
pub mod ordered_keys;
pub mod subscription;
pub mod text;
