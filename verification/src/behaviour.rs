//! What nodes ask each other.

use crate::node::NodeType;
use vstd::prelude::*;

verus! {

/// What a node asks another for.
#[derive(Debug, Clone, PartialEq, Eq)]
pub enum FileRequestType {
    /// What it does for the network.
    GetNodeTypeRequest,
    /// Anything else, as it is encoded.
    Other(Vec<u8>),
}

/// A request to a node.
#[derive(Debug, Clone, PartialEq, Eq)]
pub struct FileRequest(pub FileRequestType);

/// What a node answers.
#[derive(Debug, Clone, PartialEq, Eq)]
pub enum FileResponseType {
    /// What it does for the network.
    GetNodeTypeResponse(NodeType),
    /// Anything else, as it is encoded.
    Other(Vec<u8>),
}

/// A response of a node.
#[derive(Debug, Clone, PartialEq, Eq)]
pub struct FileResponse(pub FileResponseType);

} // verus!
