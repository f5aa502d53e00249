//! Delegated stake, and what the system object says of the network.
pub mod facts;
pub mod keys;
pub mod laws;
pub mod pages;
pub mod requests;
pub mod stakes;
pub mod system_state;
