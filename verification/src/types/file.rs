use vstd::prelude::*;

verus! {

/// One image file of a folder.
#[derive(Debug, Clone)]
pub struct FileInfo {
    pub path: String,
    pub name: String,
    pub size: u64,
    /// Milliseconds since the Unix epoch.
    pub modified_time: u64,
    pub file_type: String,
}

} // verus!
