//! One remote file-system entry of a batch.

use vstd::prelude::*;

verus! {

/// One remote file-system entry, as the external boundary layer hands it
/// to the classifier.
#[derive(Debug, Clone)]
pub struct BatchItem {
    /// File name, required to be nonempty for the item to be considered.
    pub name: String,
    /// Full path in the remote store, required to be nonempty as well.
    pub path: String,
    /// Directory entries are never classified.
    pub is_dir: bool,
    /// Size in bytes.
    pub size: u64,
    /// Opaque remote file identifier; empty when the store gave none.
    pub pickcode: String,
    /// Content hash as reported by the remote store; may be empty.
    pub sha1: String,
}

} // verus!
