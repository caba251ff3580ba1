//! Bookkeeping and connection rules of a peer-to-peer router: which peers a node knows, which of
//! them it may connect to, which it remembers, and what it answers about them.

pub mod address;
pub mod cache_file;
pub mod call_laws;
pub mod data_laws;
pub mod laws;
pub mod network;
pub mod peer;
pub mod pool;
pub mod ranking;
pub mod resolver;
pub mod router;
pub mod router_laws;
pub mod table;
