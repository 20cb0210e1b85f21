//! Git-specific detection.
use vstd::prelude::*;
use crate::repo::RepoMarkers;

verus! {

/// A Git checkout is a worktree when its `.git` is a pointer file rather
/// than a repository directory.
pub fn is_worktree(markers: &RepoMarkers) -> (r: bool)
    ensures
        r == markers.git_is_file,
{
    markers.git_is_file
}

} // verus!
