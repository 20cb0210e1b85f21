use is_tree::repo::{RepoInfo, RepoType};
use is_tree::variant::{checked_get_variant, compute_variant, get_variant, variant_defined_exec};

#[test]
fn simple_dash_suffix() {
    assert_eq!(compute_variant("myproject-foo", "myproject"), "foo");
}

#[test]
fn dot_in_project_name() {
    assert_eq!(compute_variant("usegpu-viteplus", "use.gpu"), "viteplus");
}

#[test]
fn dot_in_project_name_dom() {
    assert_eq!(compute_variant("usegpu-dom", "use.gpu"), "dom");
}

#[test]
fn dot_in_project_name_rolldown() {
    assert_eq!(compute_variant("usegpu-rolldown", "use.gpu"), "rolldown");
}

#[test]
fn no_match() {
    assert_eq!(compute_variant("unrelated-name", "other-project"), "");
}

#[test]
fn exact_match_no_variant() {
    assert_eq!(compute_variant("myproject", "myproject"), "");
}

#[test]
fn underscore_suffix() {
    assert_eq!(compute_variant("myproject_foo", "myproject"), "foo");
}

#[test]
fn dot_suffix() {
    assert_eq!(compute_variant("myproject.foo", "myproject"), "foo");
}

#[test]
fn case_and_punctuation_are_ignored_when_matching() {
    assert_eq!(compute_variant("My-Project--Feature", "myproject"), "Feature");
}

#[test]
fn variant_is_defined_for_ascii_names() {
    assert!(variant_defined_exec("myproject-foo", "myproject"));
    assert!(!variant_defined_exec("aé", ""));
}

#[test]
fn git_worktree_variant() {
    let info = RepoInfo { repo_type: RepoType::Git, is_worktree: true };
    let pointer = "gitdir: /src/myproject/.git/worktrees/myproject-foo\n";
    assert_eq!(
        get_variant("/src/myproject-foo", &info, Some(pointer)),
        Some("foo".to_string())
    );
}

#[test]
fn variant_of_a_non_worktree_is_none() {
    let info = RepoInfo { repo_type: RepoType::Git, is_worktree: false };
    assert_eq!(get_variant("/src/myproject-foo", &info, None), None);
}

#[test]
fn checked_variant_refuses_a_split_character() {
    let info = RepoInfo { repo_type: RepoType::Jujutsu, is_worktree: true };
    assert_eq!(checked_get_variant("/src/xaé", &info, Some("/src/x/.jj/repo")), None);
    assert_eq!(
        checked_get_variant("/src/x-y", &info, Some("/src/x/.jj/repo")),
        Some(Some("y".to_string()))
    );
}
