//! The file system planned for a partition.

use vstd::prelude::*;

verus! {

/// A file system and the command that creates it.
#[derive(Debug, Clone)]
pub struct FileSystem {
    /// The file system type (ext4, ntfs, and the like).
    pub fs_type: String,
    /// The path to the file system command (mke2fs, mkntfs, and the like).
    pub command_path: String,
}

} // verus!
