//! Per-pipeline watermarks in a table with optimistic locking.
pub mod cells;
pub mod col;
pub mod facts;
pub mod laws;
pub mod protocol;
pub mod store;
pub mod watermarks;
