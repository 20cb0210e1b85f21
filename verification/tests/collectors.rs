use is_tree::ahead::{get_ahead, AheadAction, AheadEvent};
use is_tree::beads::{
    get_beads_last_changed, get_beads_prefix, last_changed_from_rows, prefix_from_rows, BeadsAction,
    BeadsEvent, JsonElement, JsonEntry, JsonField,
};
use is_tree::date::{get_change_date, get_commit_date, CommitDateAction, CommitDateEvent};
use is_tree::jj::{get_sync_status, parse_commits, report_defined_exec, sync_report};
use is_tree::process::ProcessOutput;
use is_tree::repo::{RepoInfo, RepoType};

fn ok(text: &str) -> Option<ProcessOutput> {
    Some(ProcessOutput { success: true, stdout: text.as_bytes().to_vec() })
}

fn failed() -> Option<ProcessOutput> {
    Some(ProcessOutput { success: false, stdout: b"ignored\n".to_vec() })
}

fn jj() -> RepoInfo {
    RepoInfo { repo_type: RepoType::Jujutsu, is_worktree: false }
}

#[test]
fn ahead_starts_only_for_jujutsu() {
    assert!(matches!(get_ahead(&jj(), AheadEvent::Start), AheadAction::RunBookmarks));
    let git = RepoInfo { repo_type: RepoType::Git, is_worktree: false };
    assert!(matches!(get_ahead(&git, AheadEvent::Start), AheadAction::Finish(None)));
    let none = RepoInfo { repo_type: RepoType::NoRepo, is_worktree: false };
    assert!(matches!(get_ahead(&none, AheadEvent::Start), AheadAction::Finish(None)));
}

#[test]
fn ahead_needs_a_tracked_bookmark() {
    assert!(matches!(
        get_ahead(&jj(), AheadEvent::BookmarksDone(ok("main@origin\n"))),
        AheadAction::RunLog
    ));
    assert!(matches!(
        get_ahead(&jj(), AheadEvent::BookmarksDone(ok(" \n\t"))),
        AheadAction::Finish(None)
    ));
    assert!(matches!(
        get_ahead(&jj(), AheadEvent::BookmarksDone(failed())),
        AheadAction::Finish(None)
    ));
    assert!(matches!(get_ahead(&jj(), AheadEvent::BookmarksDone(None)), AheadAction::Finish(None)));
}

#[test]
fn ahead_counts_non_blank_lines() {
    assert!(matches!(
        get_ahead(&jj(), AheadEvent::LogDone(ok("abc\ndef\n\n  \nghi\n"))),
        AheadAction::Finish(Some(3))
    ));
    assert!(matches!(get_ahead(&jj(), AheadEvent::LogDone(ok(""))), AheadAction::Finish(Some(0))));
    assert!(matches!(get_ahead(&jj(), AheadEvent::LogDone(failed())), AheadAction::Finish(None)));
    assert!(matches!(get_ahead(&jj(), AheadEvent::LogDone(None)), AheadAction::Finish(None)));
}

#[test]
fn commit_date_steps() {
    let git = RepoInfo { repo_type: RepoType::Git, is_worktree: false };
    match get_commit_date("/r", &git, CommitDateEvent::Start) {
        CommitDateAction::RunGitLog(p) => assert_eq!(p, "/r"),
        _ => panic!("expected a git log run"),
    }
    match get_commit_date("/r", &jj(), CommitDateEvent::Start) {
        CommitDateAction::RunGitLog(p) => assert_eq!(p, "/r/.jj/repo"),
        _ => panic!("expected a git log run"),
    }
    let jj_worktree = RepoInfo { repo_type: RepoType::Jujutsu, is_worktree: true };
    assert!(matches!(
        get_commit_date("/r", &jj_worktree, CommitDateEvent::Start),
        CommitDateAction::ReadJjPointer
    ));
    match get_commit_date("/r", &jj_worktree, CommitDateEvent::PointerRead(Some(" /m/.jj/repo \n".to_string()))) {
        CommitDateAction::RunGitLog(p) => assert_eq!(p, "/m/.jj/repo"),
        _ => panic!("expected a git log run"),
    }
    assert!(matches!(
        get_commit_date("/r", &jj_worktree, CommitDateEvent::PointerRead(None)),
        CommitDateAction::Finish(None)
    ));
    let none = RepoInfo { repo_type: RepoType::NoRepo, is_worktree: false };
    assert!(matches!(
        get_commit_date("/r", &none, CommitDateEvent::Start),
        CommitDateAction::Finish(None)
    ));
}

#[test]
fn commit_date_is_the_trimmed_log_output() {
    match get_commit_date("/r", &jj(), CommitDateEvent::LogDone(ok("2024-01-02 03:04:05 +0000\n"))) {
        CommitDateAction::Finish(Some(d)) => assert_eq!(d, "2024-01-02 03:04:05 +0000"),
        _ => panic!("expected a date"),
    }
    assert!(matches!(
        get_commit_date("/r", &jj(), CommitDateEvent::LogDone(ok("  \n"))),
        CommitDateAction::Finish(None)
    ));
    assert!(matches!(
        get_commit_date("/r", &jj(), CommitDateEvent::LogDone(failed())),
        CommitDateAction::Finish(None)
    ));
}

fn row(key: &str, value: JsonField) -> JsonElement {
    JsonElement::Object(vec![JsonEntry { key: key.to_string(), value }])
}

fn done(stdout: &str) -> BeadsEvent {
    BeadsEvent::QueryDone { output: ok(stdout) }
}

fn finished(action: BeadsAction) -> Option<String> {
    match action {
        BeadsAction::Finish(r) => r,
        BeadsAction::RunQuery => panic!("expected a result"),
    }
}

#[test]
fn beads_queries_start_only_with_a_beads_directory() {
    assert!(matches!(
        get_beads_prefix(BeadsEvent::Start { beads_dir_exists: false }),
        BeadsAction::Finish(None)
    ));
    assert!(matches!(
        get_beads_prefix(BeadsEvent::Start { beads_dir_exists: true }),
        BeadsAction::RunQuery
    ));
    assert!(matches!(
        get_beads_last_changed(BeadsEvent::Start { beads_dir_exists: true }),
        BeadsAction::RunQuery
    ));
}

#[test]
fn beads_prefix_from_query_output() {
    assert_eq!(finished(get_beads_prefix(done(r#"[{"value":"is-tree"}]"#))), Some("is-tree".to_string()));
    assert_eq!(finished(get_beads_prefix(done(r#"[{"value":""}]"#))), None);
    assert_eq!(finished(get_beads_prefix(done(r#"[{"value":3}]"#))), None);
    assert_eq!(finished(get_beads_prefix(done(r#"[{"other":"x"}]"#))), None);
    assert_eq!(finished(get_beads_prefix(done("[]"))), None);
    assert_eq!(finished(get_beads_prefix(done("not json"))), None);
    assert_eq!(finished(get_beads_prefix(done(r#"{"value":"x"}"#))), None);
    assert_eq!(
        finished(get_beads_prefix(BeadsEvent::QueryDone { output: failed() })),
        None
    );
    assert_eq!(finished(get_beads_prefix(BeadsEvent::QueryDone { output: None })), None);
}

#[test]
fn beads_last_changed_from_query_output() {
    assert_eq!(
        finished(get_beads_last_changed(done(r#"[{"last_changed":"2024-05-01"}, {"last_changed":"x"}]"#))),
        Some("2024-05-01".to_string())
    );
    assert_eq!(
        finished(get_beads_last_changed(done(r#"[{"last_changed":42}]"#))),
        Some("42".to_string())
    );
    assert_eq!(
        finished(get_beads_last_changed(done(r#"[{"last_changed":{"a":[1,true]}}]"#))),
        Some(r#"{"a":[1,true]}"#.to_string())
    );
    assert_eq!(finished(get_beads_last_changed(done(r#"[{"last_changed":null}]"#))), None);
    assert_eq!(finished(get_beads_last_changed(done("[1, 2]"))), None);
}

#[test]
fn beads_values_from_parsed_rows() {
    assert_eq!(
        prefix_from_rows(&Some(vec![row("value", JsonField::Text("is-tree".to_string()))])),
        Some("is-tree".to_string())
    );
    assert_eq!(prefix_from_rows(&Some(vec![row("value", JsonField::Text(String::new()))])), None);
    assert_eq!(prefix_from_rows(&Some(vec![row("value", JsonField::Other("3".to_string()))])), None);
    assert_eq!(prefix_from_rows(&Some(vec![JsonElement::NotObject])), None);
    assert_eq!(prefix_from_rows(&None), None);
    assert_eq!(
        last_changed_from_rows(&Some(vec![row("last_changed", JsonField::Other("42".to_string()))])),
        Some("42".to_string())
    );
    assert_eq!(last_changed_from_rows(&Some(vec![row("last_changed", JsonField::Null)])), None);
    assert_eq!(last_changed_from_rows(&Some(vec![])), None);
}

const LOG: &str = "0123456789abcdef\nfirst line\n---\nfedcba9876543210\nsecond\nextra\n---\nlonely\n---\n";

#[test]
fn commits_are_parsed_from_records() {
    let commits = parse_commits(LOG);
    assert_eq!(commits.len(), 2);
    assert_eq!(commits[0].id, "0123456789abcdef");
    assert_eq!(commits[0].message, "first line");
    assert_eq!(commits[1].id, "fedcba9876543210");
    assert_eq!(commits[1].message, "second");
}

#[test]
fn sync_status_and_report() {
    let status = get_sync_status(&ok(LOG), &ok(" main@origin \n"));
    assert_eq!(status.ahead, 2);
    assert_eq!(status.bookmark, Some("main@origin".to_string()));
    assert!(report_defined_exec(&status));
    assert_eq!(
        sync_report(&status),
        vec![
            "2 commits ahead of main@origin".to_string(),
            "  0123456789ab first line".to_string(),
            "  fedcba987654 second".to_string(),
        ]
    );
}

#[test]
fn sync_status_without_bookmark() {
    let status = get_sync_status(&failed(), &ok("\n"));
    assert_eq!(status.ahead, 0);
    assert_eq!(status.bookmark, None);
    assert_eq!(sync_report(&status), vec!["No remote bookmark found".to_string()]);
}

#[test]
fn change_date_is_rendered_in_utc() {
    assert_eq!(get_change_date(Some((0, 0))), Some("1970-01-01 00:00:00 +0000".to_string()));
    assert_eq!(
        get_change_date(Some((1431648000, 5))),
        Some("2015-05-15 00:00:00 +0000".to_string())
    );
    assert_eq!(get_change_date(Some((i64::MAX, 0))), None);
    assert_eq!(get_change_date(None), None);
}

#[test]
fn query_command_lines() {
    use_cmd(
        is_tree::ahead::bookmarks_command("/w"),
        &["jj", "-R", "/w", "log", "-r", "tracked_remote_bookmarks()", "-T", "bookmarks", "-n", "1", "--no-pager", "--no-graph"],
    );
    use_cmd(
        is_tree::ahead::ahead_log_command("/w"),
        &[
            "jj",
            "-R",
            "/w",
            "log",
            "-r",
            "ancestors(@) ~ ancestors(tracked_remote_bookmarks())",
            "-T",
            "commit_id.short() ++ \"\\n\"",
            "--no-pager",
            "--no-graph",
        ],
    );
    use_cmd(
        is_tree::date::git_log_date_command("/r"),
        &["git", "-C", "/r", "log", "-1", "--format=%ci"],
    );
    use_cmd(
        is_tree::beads::prefix_query_command(),
        &["bd", "sql", "--json", "SELECT value FROM config WHERE `key` = 'issue_prefix'"],
    );
    use_cmd(
        is_tree::beads::last_changed_query_command(),
        &["bd", "sql", "--json", "SELECT MAX(updated_at) AS last_changed FROM issues"],
    );
    use_cmd(
        is_tree::jj::sync_log_command("/w"),
        &[
            "jj",
            "-R",
            "/w",
            "log",
            "-r",
            "ancestors(@) ~ ancestors(tracked_remote_bookmarks())",
            "-T",
            "commit_id.short() ++ \"\\n\" ++ description.first_line() ++ \"\\n---\\n\"",
            "--no-pager",
            "--no-graph",
        ],
    );
}

fn use_cmd(got: Vec<String>, want: &[&str]) {
    let want: Vec<String> = want.iter().map(|s| s.to_string()).collect();
    assert_eq!(got, want);
}
