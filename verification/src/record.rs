//! What a directory scan reports of one entry.

use crate::clock::Timestamp;
use crate::clock::ZonedInstant;
use vstd::prelude::*;

verus! {

/// One directory entry as found by a scan. `path` locates the entry,
/// `parent_directory` is the directory that holds it and `file_name` its
/// name inside that directory. `created` and `modified` are `None` where
/// the file system would not tell.
#[derive(Clone, Debug, PartialEq, Eq)]
pub struct FileRecord {
    pub path: String,
    pub parent_directory: String,
    pub file_name: String,
    pub is_file: bool,
    pub created: Option<ZonedInstant>,
    pub modified: Option<Timestamp>,
}

} // verus!
