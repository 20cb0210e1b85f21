//! How far a Jujutsu workspace is ahead of its tracked remote bookmarks.
//!
//! Counting takes two `jj log` queries: one that lists a tracked remote
//! bookmark (without one there is nothing to be ahead of) and one that
//! lists the commits in `ancestors(@) ~ ancestors(tracked_remote_bookmarks())`,
//! one per line.  The decisions between the queries are a step function;
//! the caller runs the query that a step asks for and reports its output.
use vstd::prelude::*;
use crate::plugin::strs_view;
use crate::process::{stdout_text, text_of_bytes, ProcessOutput};
use crate::repo::{RepoInfo, RepoType};
use crate::text::{chars_of, lines, lines_of, trim, trim_chars};

verus! {

/// What has happened so far.
pub enum AheadEvent {
    /// Nothing has run yet.
    Start,
    /// The bookmark query finished (`None`: it could not be started).
    BookmarksDone(Option<ProcessOutput>),
    /// The commit query finished (`None`: it could not be started).
    LogDone(Option<ProcessOutput>),
}

/// What to do next.
pub enum AheadAction {
    /// Run the tracked-remote-bookmark query.
    RunBookmarks,
    /// Run the ahead-commit query.
    RunLog,
    /// Stop with this result.
    Finish(Option<isize>),
}

/// The number of lines whose trimmed text is not empty.
pub open spec fn count_nonblank(ls: Seq<Seq<char>>) -> nat
    decreases ls.len(),
{
    if ls.len() == 0 {
        0
    } else {
        count_nonblank(ls.drop_last()) + if trim(ls.last()).len() > 0 {
            1nat
        } else {
            0nat
        }
    }
}

/// A tracked remote bookmark was found: the query ran, succeeded and
/// printed something besides whitespace.
pub open spec fn bookmark_found(o: Option<ProcessOutput>) -> bool {
    match o {
        Some(out) => out.success && trim(stdout_text(out)).len() > 0,
        None => false,
    }
}

/// The ahead count from the commit query: the number of non-blank lines of
/// a successful run.
pub open spec fn ahead_from_log(o: Option<ProcessOutput>) -> Option<isize> {
    match o {
        Some(out) => if out.success {
            Some(count_nonblank(lines(stdout_text(out))) as isize)
        } else {
            None
        },
        None => None,
    }
}

/// The step function of ahead detection.
pub open spec fn ahead_step(info: RepoInfo, event: AheadEvent) -> AheadAction {
    match event {
        AheadEvent::Start => if info.repo_type == RepoType::Jujutsu {
            AheadAction::RunBookmarks
        } else {
            AheadAction::Finish(None)
        },
        AheadEvent::BookmarksDone(o) => if bookmark_found(o) {
            AheadAction::RunLog
        } else {
            AheadAction::Finish(None)
        },
        AheadEvent::LogDone(o) => AheadAction::Finish(ahead_from_log(o)),
    }
}

/// Counts the non-blank lines of `text`.
fn count_nonblank_lines(text: &Vec<char>) -> (n: usize)
    ensures
        n == count_nonblank(lines(text@)),
{
    let ls = lines_of(text);
    let ghost vs = crate::text::views(ls@);
    let mut n: usize = 0;
    let mut i: usize = 0;
    assert(vs.take(0) =~= seq![]);
    while i < ls.len()
        invariant
            i <= ls@.len(),
            vs == crate::text::views(ls@),
            vs.len() == ls@.len(),
            n == count_nonblank(vs.take(i as int)),
            n <= i,
        decreases ls@.len() - i,
    {
        assert(vs.take(i + 1).drop_last() =~= vs.take(i as int));
        assert(vs[i as int] == ls@[i as int]@);
        let t = trim_chars(&ls[i]);
        if t.len() > 0 {
            n += 1;
        }
        i += 1;
    }
    assert(vs.take(ls@.len() as int) =~= vs);
    n
}

/// Whether the bookmark query found a tracked remote bookmark.
fn has_bookmark(o: &Option<ProcessOutput>) -> (r: bool)
    ensures
        r == bookmark_found(*o),
{
    match o {
        Some(out) => {
            if !out.success {
                return false;
            }
            let text = text_of_bytes(out.stdout.as_slice());
            let t = trim_chars(&chars_of(text.as_str()));
            t.len() > 0
        },
        None => false,
    }
}

/// The ahead count from the commit query.
fn count_ahead(o: &Option<ProcessOutput>) -> (r: Option<isize>)
    ensures
        r == ahead_from_log(*o),
{
    match o {
        Some(out) => {
            if !out.success {
                return None;
            }
            let text = text_of_bytes(out.stdout.as_slice());
            let n = count_nonblank_lines(&chars_of(text.as_str()));
            Some(n as isize)
        },
        None => None,
    }
}

/// One step of ahead detection for a directory classified as `info`.
pub fn get_ahead(info: &RepoInfo, event: AheadEvent) -> (action: AheadAction)
    ensures
        action == ahead_step(*info, event),
{
    match event {
        AheadEvent::Start => {
            if info.repo_type == RepoType::Jujutsu {
                AheadAction::RunBookmarks
            } else {
                AheadAction::Finish(None)
            }
        },
        AheadEvent::BookmarksDone(o) => {
            if has_bookmark(&o) {
                AheadAction::RunLog
            } else {
                AheadAction::Finish(None)
            }
        },
        AheadEvent::LogDone(o) => AheadAction::Finish(count_ahead(&o)),
    }
}

/// The command line of the bookmark query for the workspace at `path`:
/// `jj -R <path> log -r tracked_remote_bookmarks() -T bookmarks -n 1
/// --no-pager --no-graph`.
pub fn bookmarks_command(path: &str) -> (r: Vec<String>)
    ensures
        strs_view(r@) == seq![
            "jj"@,
            "-R"@,
            path@,
            "log"@,
            "-r"@,
            "tracked_remote_bookmarks()"@,
            "-T"@,
            "bookmarks"@,
            "-n"@,
            "1"@,
            "--no-pager"@,
            "--no-graph"@,
        ],
{
    let r = vec![
        "jj".to_owned(),
        "-R".to_owned(),
        path.to_owned(),
        "log".to_owned(),
        "-r".to_owned(),
        "tracked_remote_bookmarks()".to_owned(),
        "-T".to_owned(),
        "bookmarks".to_owned(),
        "-n".to_owned(),
        "1".to_owned(),
        "--no-pager".to_owned(),
        "--no-graph".to_owned(),
    ];
    assert(strs_view(r@) =~= seq![
        "jj"@,
        "-R"@,
        path@,
        "log"@,
        "-r"@,
        "tracked_remote_bookmarks()"@,
        "-T"@,
        "bookmarks"@,
        "-n"@,
        "1"@,
        "--no-pager"@,
        "--no-graph"@,
    ]);
    r
}

/// The command line of the ahead-commit query for the workspace at `path`:
/// `jj -R <path> log -r 'ancestors(@) ~ ancestors(tracked_remote_bookmarks())'
/// -T 'commit_id.short() ++ "\n"' --no-pager --no-graph`, one commit per
/// line.
pub fn ahead_log_command(path: &str) -> (r: Vec<String>)
    ensures
        strs_view(r@) == seq![
            "jj"@,
            "-R"@,
            path@,
            "log"@,
            "-r"@,
            "ancestors(@) ~ ancestors(tracked_remote_bookmarks())"@,
            "-T"@,
            "commit_id.short() ++ \"\\n\""@,
            "--no-pager"@,
            "--no-graph"@,
        ],
{
    let r = vec![
        "jj".to_owned(),
        "-R".to_owned(),
        path.to_owned(),
        "log".to_owned(),
        "-r".to_owned(),
        "ancestors(@) ~ ancestors(tracked_remote_bookmarks())".to_owned(),
        "-T".to_owned(),
        "commit_id.short() ++ \"\\n\"".to_owned(),
        "--no-pager".to_owned(),
        "--no-graph".to_owned(),
    ];
    assert(strs_view(r@) =~= seq![
        "jj"@,
        "-R"@,
        path@,
        "log"@,
        "-r"@,
        "ancestors(@) ~ ancestors(tracked_remote_bookmarks())"@,
        "-T"@,
        "commit_id.short() ++ \"\\n\""@,
        "--no-pager"@,
        "--no-graph"@,
    ]);
    r
}

} // verus!
