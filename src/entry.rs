use vstd::prelude::*;

use crate::error::TreeError;

verus! {

/// What a walk may learn of one filesystem entry and, for a directory, of
/// what it holds. Facts that the walk will not consult (those of an entry it
/// does not show, the listing of a directory below the depth limit) may be
/// left at any value.
pub struct FsNode {
    /// The entry's path, as the ignore rules and error messages see it.
    pub path: String,
    /// The text shown for the entry: its last path segment, or the whole
    /// path where it has none.
    pub name: String,
    /// Whether the entry is a directory by the file type that its directory
    /// listing reported, without following a symbolic link.
    pub file_type: Result<bool, TreeError>,
    /// Whether the path leads to a directory, following symbolic links.
    pub is_dir: bool,
    /// Whether the entry is a symbolic link.
    pub is_symlink: bool,
    /// Whether the entry's permissions make it read-only.
    pub readonly: Result<bool, TreeError>,
    /// The entries of a directory, in the order the system listed them.
    pub children: Result<Vec<FsNode>, TreeError>,
}

} // verus!
