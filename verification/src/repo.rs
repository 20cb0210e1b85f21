//! Repository classification: Jujutsu, Git or none, and whether the
//! directory is a worktree (a workspace that points at a repository kept
//! elsewhere).
use vstd::prelude::*;

verus! {

/// The kind of version control found in a directory.
#[derive(Debug, Clone, Copy, PartialEq, Eq, Structural)]
pub enum RepoType {
    Git,
    Jujutsu,
    NoRepo,
}

/// What detection found in a directory.
#[derive(Debug, Clone, Copy, PartialEq, Eq, Structural)]
pub struct RepoInfo {
    pub repo_type: RepoType,
    pub is_worktree: bool,
}

/// The on-disk facts that classification reads.
///
/// - `jj_exists`: `<dir>/.jj` exists;
/// - `jj_is_pointer`: `<dir>/.jj` is not a directory (a pointer file to the
///   main workspace's store);
/// - `git_exists`: `<dir>/.git` exists;
/// - `git_is_file`: `<dir>/.git` is a regular file (a `gitdir:` pointer)
///   rather than a repository directory.
#[derive(Debug, Clone, Copy, PartialEq, Eq, Structural)]
pub struct RepoMarkers {
    pub jj_exists: bool,
    pub jj_is_pointer: bool,
    pub git_exists: bool,
    pub git_is_file: bool,
}

/// Classification: Jujutsu takes precedence over Git; a worktree is
/// recognised by its pointer file rather than a directory (`.jj` for
/// Jujutsu, `.git` for Git); without either marker the directory is no
/// repository and no worktree.
pub open spec fn classify(m: RepoMarkers) -> RepoInfo {
    if m.jj_exists {
        RepoInfo {
            repo_type: RepoType::Jujutsu,
            is_worktree: m.jj_is_pointer,
        }
    } else if m.git_exists {
        RepoInfo { repo_type: RepoType::Git, is_worktree: m.git_is_file }
    } else {
        RepoInfo { repo_type: RepoType::NoRepo, is_worktree: false }
    }
}

/// Classifies a directory from its markers.
pub fn detect_repo(markers: &RepoMarkers) -> (info: RepoInfo)
    ensures
        info == classify(*markers),
{
    if markers.jj_exists {
        let is_worktree = is_jujutsu_worktree(markers);
        return RepoInfo { repo_type: RepoType::Jujutsu, is_worktree };
    }
    if markers.git_exists {
        let is_worktree = is_git_worktree(markers);
        return RepoInfo { repo_type: RepoType::Git, is_worktree };
    }
    RepoInfo { repo_type: RepoType::NoRepo, is_worktree: false }
}

/// A Jujutsu workspace is a worktree when its `.jj` is a pointer file
/// rather than a directory (a directory is a main workspace).
fn is_jujutsu_worktree(markers: &RepoMarkers) -> (r: bool)
    ensures
        r == markers.jj_is_pointer,
{
    if markers.jj_is_pointer {
        return true;
    }
    false
}

/// A Git checkout is a worktree when `.git` is a pointer file.
fn is_git_worktree(markers: &RepoMarkers) -> (r: bool)
    ensures
        r == markers.git_is_file,
{
    if markers.git_is_file {
        return true;
    }
    false
}

/// A probe that classifies directories from their markers.
pub trait RepoProbe {
    fn id(&self) -> &'static str;

    fn detect(&self, markers: &RepoMarkers) -> RepoInfo;
}

/// The built-in probe: classification by `.jj` and `.git` markers.
pub struct CoreRepoProbe;

impl RepoProbe for CoreRepoProbe {
    fn id(&self) -> (r: &'static str)
        ensures
            r@ == "core-repo-probe"@,
    {
        "core-repo-probe"
    }

    fn detect(&self, markers: &RepoMarkers) -> (info: RepoInfo)
        ensures
            info == classify(*markers),
    {
        detect_repo(markers)
    }
}

} // verus!
