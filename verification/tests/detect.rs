use std::path::Path;

use is_tree::repo::{detect_repo, RepoInfo, RepoMarkers, RepoType};
use is_tree::workparent::get_workparent;

fn markers_of(path: &Path) -> RepoMarkers {
    let jj = path.join(".jj");
    let git = path.join(".git");
    RepoMarkers {
        jj_exists: jj.exists(),
        jj_is_pointer: jj.metadata().map(|m| !m.is_dir()).unwrap_or(false),
        git_exists: git.exists(),
        git_is_file: git.is_file(),
    }
}

fn markers(jj: bool, jj_file: bool, git: bool, git_file: bool) -> RepoMarkers {
    RepoMarkers {
        jj_exists: jj,
        jj_is_pointer: jj_file,
        git_exists: git,
        git_is_file: git_file,
    }
}

fn jj_pointer_markers() -> RepoMarkers {
    RepoMarkers {
        jj_exists: true,
        jj_is_pointer: true,
        git_exists: false,
        git_is_file: false,
    }
}

#[test]
fn test_none_directory() {
    let info = detect_repo(&markers_of(Path::new("/tmp/nonexistent")));
    assert_eq!(info.repo_type, RepoType::NoRepo);
    assert!(!info.is_worktree);
}

#[test]
fn git_directory_is_git() {
    let info = detect_repo(&markers(false, false, true, false));
    assert_eq!(info, RepoInfo { repo_type: RepoType::Git, is_worktree: false });
}

#[test]
fn git_pointer_file_is_git_worktree() {
    let info = detect_repo(&markers(false, false, true, true));
    assert_eq!(info, RepoInfo { repo_type: RepoType::Git, is_worktree: true });
}

#[test]
fn jj_directory_is_jujutsu() {
    let info = detect_repo(&markers(true, false, false, false));
    assert_eq!(info, RepoInfo { repo_type: RepoType::Jujutsu, is_worktree: false });
}

#[test]
fn jj_pointer_marker_is_jujutsu_worktree() {
    let info = detect_repo(&markers(true, true, false, false));
    assert_eq!(info, RepoInfo { repo_type: RepoType::Jujutsu, is_worktree: true });
}

#[test]
fn jj_pointer_file_is_jujutsu_worktree() {
    let info = detect_repo(&jj_pointer_markers());
    assert_eq!(info, RepoInfo { repo_type: RepoType::Jujutsu, is_worktree: true });
    assert!(is_tree::jj::is_worktree(&jj_pointer_markers()));
}

#[test]
fn jujutsu_takes_precedence_over_git() {
    let info = detect_repo(&markers(true, false, true, true));
    assert_eq!(info, RepoInfo { repo_type: RepoType::Jujutsu, is_worktree: false });
}

#[test]
fn worktree_markers_follow_their_file() {
    assert!(is_tree::git::is_worktree(&markers(false, false, true, true)));
    assert!(!is_tree::git::is_worktree(&markers(false, false, true, false)));
    assert!(is_tree::jj::is_worktree(&markers(true, true, false, false)));
    assert!(!is_tree::jj::is_worktree(&markers(true, false, false, false)));
}

#[test]
fn git_workparent_is_the_repository_directory() {
    let info = RepoInfo { repo_type: RepoType::Git, is_worktree: true };
    let pointer = "gitdir: /src/myproject/.git/worktrees/myproject-foo\n";
    assert_eq!(get_workparent(&info, Some(pointer)), Some("myproject".to_string()));
}

#[test]
fn git_workparent_needs_the_gitdir_prefix() {
    let info = RepoInfo { repo_type: RepoType::Git, is_worktree: true };
    assert_eq!(get_workparent(&info, Some("/src/myproject/.git/worktrees/x")), None);
    assert_eq!(get_workparent(&info, None), None);
}

#[test]
fn jj_workparent_is_the_repository_directory() {
    let info = RepoInfo { repo_type: RepoType::Jujutsu, is_worktree: true };
    assert_eq!(
        get_workparent(&info, Some("  /src/niri-mcp/.jj/repo \n")),
        Some("niri-mcp".to_string())
    );
}

#[test]
fn workparent_of_a_non_worktree_is_none() {
    let info = RepoInfo { repo_type: RepoType::Git, is_worktree: false };
    assert_eq!(get_workparent(&info, Some("gitdir: /a/b/.git/worktrees/c")), None);
    let none = RepoInfo { repo_type: RepoType::NoRepo, is_worktree: false };
    assert_eq!(get_workparent(&none, Some("/a/.jj/repo")), None);
}
