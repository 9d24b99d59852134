//! What the API and the DHT say to each other.

use crate::entry::Entry;
use crate::keys::PublicKey;
use crate::service::ApiEntry;
use vstd::prelude::*;

verus! {

/// Asks the DHT for an entry.
#[derive(Debug, Clone, PartialEq, Eq)]
pub struct DhtGetRecordRequest {
    pub signature: String,
    pub name: String,
    pub public_key: PublicKey,
}

/// Asks the DHT to store an entry.
#[derive(Debug, Clone, PartialEq, Eq)]
pub struct DhtPutRecordRequest {
    pub public_key: PublicKey,
    pub entry: ApiEntry,
    pub signature: String,
}

/// A request to the DHT.
#[derive(Debug, Clone, PartialEq, Eq)]
pub enum DhtRequestType {
    GetRecord(DhtGetRecordRequest),
    PutRecord(DhtPutRecordRequest),
}

/// What the DHT found.
#[derive(Debug, Clone, PartialEq, Eq)]
pub struct DhtGetRecordResponse {
    pub entry: Option<Entry>,
    pub error: Option<String>,
    /// The place inside the entry that was asked for.
    pub location: Option<String>,
}

/// Whether the DHT stored an entry.
#[derive(Debug, Clone, PartialEq, Eq)]
pub struct DhtPutRecordResponse {
    pub signature: Option<String>,
    pub error: Option<String>,
}

/// A response of the DHT.
#[derive(Debug, Clone, PartialEq, Eq)]
pub enum DhtResponseType {
    GetRecord(DhtGetRecordResponse),
    PutRecord(DhtPutRecordResponse),
}

} // verus!
