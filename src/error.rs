use vstd::prelude::*;

use crate::patchname::PatchName;

verus! {

/// What can go wrong in resolving names, loading a stack or running a transaction.
#[derive(Debug)]
pub enum Error {
    InvalidName,
    NotFound,
    AmbiguousName(Vec<PatchName>),
    AmbiguousCommitPrefix(Vec<PatchName>),
    HiddenPatchAccess,
    PatchExists,
    DirtyIndex,
    DirtyWorktree,
    RepositoryStateConflict,
    HeadMismatch,
    CorruptState,
    /// A push conflicted where conflicts are not allowed; `written` patches were committed before.
    MergeConflict { written: usize },
    /// The repository refused a write; `written` patches were committed before.
    RepositoryWriteFailure { written: usize },
}

} // verus!
