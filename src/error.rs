use vstd::prelude::*;

verus! {

/// The operating system's error for a failed filesystem operation.
#[verifier::external_type_specification]
#[verifier::external_body]
pub struct ExIoError(std::io::Error);

/// Why a tree could not be shown: each variant holds the path concerned and
/// the operating system's error.
#[derive(Debug)]
pub enum TreeError {
    /// A directory could not be opened for listing.
    ReadDir(String, std::io::Error),
    /// An entry of a directory could not be read while listing it.
    ReadDirEntry(String, std::io::Error),
    /// The file type of a directory entry could not be determined.
    GetFileType(String, std::io::Error),
    /// The metadata of a path could not be read.
    GetMetadata(String, std::io::Error),
    /// The ignore file exists but could not be read.
    ReadGitignore(String, std::io::Error),
}

} // verus!
