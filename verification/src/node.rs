//! The nodes of the network.

use vstd::prelude::*;

verus! {

/// What a node does for the network.
#[derive(Debug, Clone, Copy, PartialEq, Eq, Structural)]
pub enum NodeType {
    /// It serves the API.
    ApiNode,
    /// It stores files.
    StorageNode,
}

/// The identity of a node.
#[derive(Debug, PartialEq, Eq)]
pub struct PeerId {
    pub bytes: Vec<u8>,
}

impl View for PeerId {
    type V = Seq<u8>;

    open spec fn view(&self) -> Seq<u8> {
        self.bytes@
    }
}

impl Clone for PeerId {
    fn clone(&self) -> (peer: PeerId)
        ensures
            peer@ == self@,
    {
        PeerId { bytes: self.bytes.clone() }
    }
}

impl PeerId {
    /// Whether two identities are the same.
    pub fn same_as(&self, other: &PeerId) -> (b: bool)
        ensures
            b == (self@ == other@),
            b == (self.bytes@ == other.bytes@),
    {
        if self.bytes.len() != other.bytes.len() {
            return false;
        }
        let mut i: usize = 0;
        while i < self.bytes.len()
            invariant
                i <= self.bytes.len(),
                self.bytes.len() == other.bytes.len(),
                forall|j: int| 0 <= j < i ==> self@[j] == other@[j],
            decreases self.bytes.len() - i,
        {
            if self.bytes[i] != other.bytes[i] {
                return false;
            }
            i = i + 1;
        }
        assert(self@ == other@);
        true
    }
}

/// A node is told by all its bytes.
pub proof fn law_identity_is_all_bytes(a: PeerId, b: PeerId)
    ensures
        a@ == b@ <==> a.bytes@ == b.bytes@,
        a@ == a.bytes@,
{
}

} // verus!
