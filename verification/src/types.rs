//! Plain records of what a directory listing yields, for callers that keep
//! listings of their own beside the tree.

pub use crate::tree::{FileNode, FlatItem};
use vstd::prelude::*;

verus! {

/// An entry of a listing.
#[derive(Debug, Clone, PartialEq, Eq)]
pub struct File {
    pub name: String,
    pub path: String,
    pub is_directory: bool,
}

/// A directory with the entries that were listed in it.
#[derive(Debug, Clone, PartialEq, Eq)]
pub struct Folder {
    pub name: String,
    pub path: String,
    pub files: Vec<File>,
    pub is_expanded: bool,
}

/// A name and whether it names a directory.
#[derive(Debug, Clone, PartialEq, Eq)]
pub struct Entry {
    pub name: String,
    pub is_dir: bool,
}

} // verus!
