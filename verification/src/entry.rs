//! Entries: what the network stores about a set of files.

use vstd::prelude::*;

verus! {

/// One item of an entry.
#[derive(Debug, Clone, PartialEq, Eq)]
pub struct Children {
    /// The path of the item inside its entry.
    pub name: String,
    /// What the item is: `file` for a file.
    pub kind: String,
    /// The content identifier, which every file has.
    pub cid: Option<String>,
}

/// What an entry says about its items.
#[derive(Debug, Clone, PartialEq, Eq)]
pub struct EntryMetaData {
    pub children: Vec<Children>,
}

/// An entry as the DHT stores it.
#[derive(Debug, Clone, PartialEq, Eq)]
pub struct Entry {
    pub metadata: EntryMetaData,
}

/// The item is a file.
pub open spec fn is_file(child: Children) -> bool {
    child.kind@ == "file"@
}

} // verus!
