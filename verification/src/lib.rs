//! The rules by which a node of a peer-to-peer file store answers its clients and its peers.
//!
//! Nothing here waits, reads or writes: each function takes what happened and says what to do.

pub mod behaviour;
pub mod cache;
pub mod dht;
pub mod download;
pub mod entry;
pub mod event_loop;
pub mod get;
pub mod keys;
pub mod ledger;
pub mod location;
pub mod node;
pub mod put;
pub mod request;
pub mod resolve;
pub mod service;
pub mod text;
