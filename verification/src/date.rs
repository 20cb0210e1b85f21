//! The date of the most recent commit of a directory's repository.
use vstd::prelude::*;
use crate::paths::{join_path, path_join};
use crate::plugin::strs_view;
use crate::process::{stdout_text, text_of_bytes, ProcessOutput};
use crate::repo::{RepoInfo, RepoType};
use crate::text::{chars_of, opt_view, string_of_range, trim, trim_bounds, trim_str};

verus! {

/// What has happened so far while looking up a commit date.
pub enum CommitDateEvent {
    /// Nothing has run yet.
    Start,
    /// The `.jj/repo` pointer file of a Jujutsu worktree was read (`None`:
    /// it could not be read).
    PointerRead(Option<String>),
    /// `git log -1 --format=%ci` finished (`None`: it could not be started).
    LogDone(Option<ProcessOutput>),
}

/// What to do next.
pub enum CommitDateAction {
    /// Read the `.jj/repo` file of the directory.
    ReadJjPointer,
    /// Run `git -C <dir> log -1 --format=%ci`.
    RunGitLog(String),
    /// Stop with this result.
    Finish(Option<String>),
}

/// `".jj/repo"`.
pub open spec fn jj_repo_rel() -> Seq<char> {
    seq!['.', 'j', 'j', '/', 'r', 'e', 'p', 'o']
}

/// The commit date printed by a successful `git log` run: its trimmed
/// output, if that is not empty.
pub open spec fn commit_date_text(o: Option<ProcessOutput>) -> Option<Seq<char>> {
    match o {
        Some(out) => if out.success && trim(stdout_text(out)).len() > 0 {
            Some(trim(stdout_text(out)))
        } else {
            None
        },
        None => None,
    }
}

/// The view of a commit-date action.
pub open spec fn commit_date_action_view(a: CommitDateAction) -> (int, Seq<char>, Option<
    Seq<char>,
>) {
    match a {
        CommitDateAction::ReadJjPointer => (0, seq![], None),
        CommitDateAction::RunGitLog(d) => (1, d@, None),
        CommitDateAction::Finish(r) => (
            2,
            seq![],
            match r {
                Some(s) => Some(s@),
                None => None,
            },
        ),
    }
}

/// The step function of commit-date lookup: Git repositories are asked
/// directly; a Jujutsu workspace through its backing Git store
/// (`<dir>/.jj/repo`, or the store a worktree's pointer file names).
pub open spec fn commit_date_step(path: Seq<char>, info: RepoInfo, event: CommitDateEvent) -> (
    int,
    Seq<char>,
    Option<Seq<char>>,
) {
    match event {
        CommitDateEvent::Start => match info.repo_type {
            RepoType::Git => (1, path, None),
            RepoType::Jujutsu => if info.is_worktree {
                (0, seq![], None)
            } else {
                (1, path_join(path, jj_repo_rel()), None)
            },
            RepoType::NoRepo => (2, seq![], None),
        },
        CommitDateEvent::PointerRead(c) => match c {
            Some(content) => (1, trim(content@), None),
            None => (2, seq![], None),
        },
        CommitDateEvent::LogDone(o) => (2, seq![], commit_date_text(o)),
    }
}

/// The trimmed output of a successful `git log`, if not empty.
fn commit_date_of(o: &Option<ProcessOutput>) -> (r: Option<String>)
    ensures
        match r {
            Some(s) => commit_date_text(*o) == Some(s@),
            None => commit_date_text(*o) is None,
        },
{
    match o {
        Some(out) => {
            if !out.success {
                return None;
            }
            let text = text_of_bytes(out.stdout.as_slice());
            let v = chars_of(text.as_str());
            let (lo, hi) = trim_bounds(&v);
            if lo == hi {
                return None;
            }
            Some(string_of_range(&v, lo, hi))
        },
        None => None,
    }
}

/// One step of commit-date lookup for the directory `path` classified as
/// `info`.
pub fn get_commit_date(path: &str, info: &RepoInfo, event: CommitDateEvent) -> (action:
    CommitDateAction)
    ensures
        commit_date_action_view(action) == commit_date_step(path@, *info, event),
{
    match event {
        CommitDateEvent::Start => match info.repo_type {
            RepoType::Git => CommitDateAction::RunGitLog(path.to_owned()),
            RepoType::Jujutsu => {
                if info.is_worktree {
                    CommitDateAction::ReadJjPointer
                } else {
                    proof {
                        reveal_strlit(".jj/repo");
                    }
                    let rel = ".jj/repo";
                    assert(rel@ =~= jj_repo_rel());
                    CommitDateAction::RunGitLog(join_path(path, rel))
                }
            },
            RepoType::NoRepo => CommitDateAction::Finish(None),
        },
        CommitDateEvent::PointerRead(c) => match c {
            Some(content) => CommitDateAction::RunGitLog(trim_str(content.as_str())),
            None => CommitDateAction::Finish(None),
        },
        CommitDateEvent::LogDone(o) => CommitDateAction::Finish(commit_date_of(&o)),
    }
}

// ---------------------------------------------------------------------------
// Change date
// ---------------------------------------------------------------------------

/// What `chrono` renders, with the strftime format `fmt`, for the UTC time
/// `secs` seconds and `nsecs` nanoseconds after the Unix epoch; `None` when
/// `chrono` cannot represent that time.
pub uninterp spec fn utc_timestamp_format(secs: int, nsecs: nat, fmt: Seq<char>) -> Option<Seq<char>>;

/// `chrono::DateTime::<Utc>::from_timestamp(secs, nsecs)` rendered with
/// `DateTime::format(fmt)`.  The result is a function of the arguments
/// alone (UTC, no locale); it is named and not restated.  Rendering fails
/// (and `to_string` panics) on a format with an unknown specifier, so the
/// format is the change-date format, whose specifiers all render.
#[verifier::external_body]
fn format_utc_timestamp(secs: i64, nsecs: u32, fmt: &str) -> (r: Option<String>)
    requires
        fmt@ == change_date_format(),
    ensures
        opt_view(r) == utc_timestamp_format(secs as int, nsecs as nat, fmt@),
{
    match chrono::DateTime::from_timestamp(secs, nsecs) {
        Some(t) => Some(t.format(fmt).to_string()),
        None => None,
    }
}

/// `"%Y-%m-%d %H:%M:%S %z"`, the format of change dates.
pub open spec fn change_date_format() -> Seq<char> {
    "%Y-%m-%d %H:%M:%S %z"@
}

/// The change date of a directory from its modification time (seconds and
/// nanoseconds after the Unix epoch; `None` when it could not be read),
/// rendered in UTC as `YYYY-MM-DD HH:MM:SS +0000`.
pub fn get_change_date(modified: Option<(i64, u32)>) -> (r: Option<String>)
    ensures
        opt_view(r) == match modified {
            Some((secs, nsecs)) => utc_timestamp_format(secs as int, nsecs as nat, change_date_format()),
            None => None,
        },
{
    match modified {
        Some((secs, nsecs)) => format_utc_timestamp(secs, nsecs, "%Y-%m-%d %H:%M:%S %z"),
        None => None,
    }
}

/// The command line of the commit-date query for the repository at
/// `repo`: `git -C <repo> log -1 --format=%ci`.
pub fn git_log_date_command(repo: &str) -> (r: Vec<String>)
    ensures
        strs_view(r@) == seq![
            "git"@,
            "-C"@,
            repo@,
            "log"@,
            "-1"@,
            "--format=%ci"@,
        ],
{
    let r = vec![
        "git".to_owned(),
        "-C".to_owned(),
        repo.to_owned(),
        "log".to_owned(),
        "-1".to_owned(),
        "--format=%ci".to_owned(),
    ];
    assert(strs_view(r@) =~= seq![
        "git"@,
        "-C"@,
        repo@,
        "log"@,
        "-1"@,
        "--format=%ci"@,
    ]);
    r
}

} // verus!
