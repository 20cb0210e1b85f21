//! Sync status of a Jujutsu workspace: the commits it has that its tracked
//! remote bookmarks do not, and the report printed for them.
use vstd::prelude::*;
use vstd::string::StringSliceAdditionalSpecFns;
use vstd::utf8::{decode_utf8, encode_utf8, is_char_boundary};
use crate::plugin::strs_view;
use crate::process::{stdout_text, text_of_bytes, ProcessOutput};
use crate::text::{
    chars_of, decimal, extend_chars, lines, lines_of, opt_view, push_decimal, string_of,
    string_of_range, trim, trim_bounds, views,
};

verus! {

/// A Jujutsu workspace is a worktree when its `.jj` is a pointer file
/// rather than a directory (a directory is a main workspace).
pub fn is_worktree(markers: &crate::repo::RepoMarkers) -> (r: bool)
    ensures
        r == markers.jj_is_pointer,
{
    markers.jj_is_pointer
}

/// One commit: its (short) id and the first line of its description.
pub struct CommitInfo {
    pub id: String,
    pub message: String,
}

/// The commits ahead of the tracked remote bookmarks, their number, and the
/// bookmark they are counted against.
pub struct SyncStatus {
    pub ahead: usize,
    pub bookmark: Option<String>,
    pub commits: Vec<CommitInfo>,
}

/// `"---"`, the separator line after each commit record.
pub open spec fn record_end() -> Seq<char> {
    seq!['-', '-', '-']
}

/// Commit records from the lines of `jj log` output: the first line of a
/// record is the id, the second the message, further lines are ignored, and
/// a `---` line ends the record (a record without both fields is dropped).
pub open spec fn parse_commit_lines(
    ls: Seq<Seq<char>>,
    id: Option<Seq<char>>,
    msg: Option<Seq<char>>,
) -> Seq<(Seq<char>, Seq<char>)>
    decreases ls.len(),
{
    if ls.len() == 0 {
        seq![]
    } else if ls[0] == record_end() {
        (match (id, msg) {
            (Some(i), Some(m)) => seq![(i, m)],
            _ => seq![],
        }) + parse_commit_lines(ls.drop_first(), None, None)
    } else if id is None {
        parse_commit_lines(ls.drop_first(), Some(ls[0]), msg)
    } else if msg is None {
        parse_commit_lines(ls.drop_first(), id, Some(ls[0]))
    } else {
        parse_commit_lines(ls.drop_first(), id, msg)
    }
}

/// The commits of `jj log` output.
pub open spec fn parsed_commits(output: Seq<char>) -> Seq<(Seq<char>, Seq<char>)> {
    parse_commit_lines(lines(output), None, None)
}

/// The views of a sequence of commits.
pub open spec fn commit_views(v: Seq<CommitInfo>) -> Seq<(Seq<char>, Seq<char>)> {
    v.map_values(|c: CommitInfo| (c.id@, c.message@))
}

/// Parses the commit records of `jj log` output.
pub fn parse_commits(output: &str) -> (r: Vec<CommitInfo>)
    ensures
        commit_views(r@) == parsed_commits(output@),
{
    let ls = lines_of(&chars_of(output));
    let ghost vs = views(ls@);
    let sep = chars_of("---");
    proof {
        reveal_strlit("---");
        assert(sep@ =~= record_end());
    }
    let mut commits: Vec<CommitInfo> = Vec::new();
    let mut current_id: Option<String> = None;
    let mut current_message: Option<String> = None;
    let mut i: usize = 0;
    assert(vs.skip(0) =~= vs);
    while i < ls.len()
        invariant
            i <= ls@.len(),
            vs == views(ls@),
            vs.len() == ls@.len(),
            sep@ == record_end(),
            commit_views(commits@) + parse_commit_lines(
                vs.skip(i as int),
                opt_view(current_id),
                opt_view(current_message),
            ) == parse_commit_lines(vs, None, None),
        decreases ls@.len() - i,
    {
        assert(vs.skip(i as int).drop_first() =~= vs.skip(i + 1));
        assert(vs.skip(i as int)[0] == ls@[i as int]@);
        let line = &ls[i];
        if crate::text::chars_eq(line, &sep) {
            let id = current_id;
            let message = current_message;
            current_id = None;
            current_message = None;
            match (id, message) {
                (Some(id), Some(message)) => {
                    let ghost old_commits = commits@;
                    commits.push(CommitInfo { id, message });
                    assert(commit_views(commits@) =~= commit_views(old_commits) + seq![
                        (id@, message@),
                    ]);
                },
                _ => {},
            }
        } else if current_id.is_none() {
            current_id = Some(string_of(line));
        } else if current_message.is_none() {
            current_message = Some(string_of(line));
        }
        i += 1;
    }
    assert(vs.skip(ls@.len() as int) =~= seq![]);
    assert(commit_views(commits@) =~= commit_views(commits@) + seq![]);
    commits
}

/// The bookmark printed by a successful bookmark query, trimmed, if not
/// empty.
pub open spec fn bookmark_of(o: Option<ProcessOutput>) -> Option<Seq<char>> {
    match o {
        Some(out) => if out.success && trim(stdout_text(out)).len() > 0 {
            Some(trim(stdout_text(out)))
        } else {
            None
        },
        None => None,
    }
}

/// The commits listed by a successful commit query.
pub open spec fn commits_of(o: Option<ProcessOutput>) -> Seq<(Seq<char>, Seq<char>)> {
    match o {
        Some(out) => if out.success {
            parsed_commits(stdout_text(out))
        } else {
            seq![]
        },
        None => seq![],
    }
}

/// The sync status from the outputs of the commit query (`jj log -r
/// 'ancestors(@) ~ ancestors(tracked_remote_bookmarks())'`) and the bookmark
/// query (`jj log -r 'tracked_remote_bookmarks()' -T bookmarks -n 1`).
pub fn get_sync_status(log: &Option<ProcessOutput>, bookmarks: &Option<ProcessOutput>) -> (r:
    SyncStatus)
    ensures
        commit_views(r.commits@) == commits_of(*log),
        r.ahead == r.commits@.len(),
        opt_view(r.bookmark) == bookmark_of(*bookmarks),
{
    let commits = match log {
        Some(o) => {
            if o.success {
                let text = text_of_bytes(o.stdout.as_slice());
                parse_commits(text.as_str())
            } else {
                let v: Vec<CommitInfo> = Vec::new();
                assert(commit_views(v@) =~= seq![]);
                v
            }
        },
        None => {
            let v: Vec<CommitInfo> = Vec::new();
            assert(commit_views(v@) =~= seq![]);
            v
        },
    };
    let bookmark = match bookmarks {
        Some(o) => {
            if o.success {
                let text = text_of_bytes(o.stdout.as_slice());
                let v = chars_of(text.as_str());
                let (lo, hi) = trim_bounds(&v);
                if lo == hi {
                    None
                } else {
                    Some(string_of_range(&v, lo, hi))
                }
            } else {
                None
            }
        },
        None => None,
    };
    SyncStatus { ahead: commits.len(), bookmark, commits }
}

/// `"No remote bookmark found"`.
pub open spec fn no_bookmark_line() -> Seq<char> {
    seq![
        'N', 'o', ' ', 'r', 'e', 'm', 'o', 't', 'e', ' ', 'b', 'o', 'o', 'k', 'm', 'a', 'r', 'k', ' ',
        'f', 'o', 'u', 'n', 'd',
    ]
}

/// `" commits ahead of "`.
pub open spec fn ahead_of_text() -> Seq<char> {
    seq![' ', 'c', 'o', 'm', 'm', 'i', 't', 's', ' ', 'a', 'h', 'e', 'a', 'd', ' ', 'o', 'f', ' ']
}

/// The first 12 bytes of a commit id, as text (where they end on a
/// character boundary).
pub open spec fn short_id(id: Seq<char>) -> Seq<char> {
    decode_utf8(encode_utf8(id).take(12))
}

/// The first line of a message, or nothing.
pub open spec fn first_line(m: Seq<char>) -> Seq<char> {
    if lines(m).len() > 0 {
        lines(m)[0]
    } else {
        seq![]
    }
}

/// The line printed for one commit: two spaces, the short id, a space and
/// the first line of the message.
pub open spec fn commit_line(c: (Seq<char>, Seq<char>)) -> Seq<char> {
    seq![' ', ' '] + short_id(c.0) + seq![' '] + first_line(c.1)
}

/// The lines of the sync report: without a bookmark a single notice;
/// otherwise `<n> commits ahead of <bookmark>` and one line per commit.
pub open spec fn sync_report_lines(
    ahead: nat,
    bookmark: Option<Seq<char>>,
    commits: Seq<(Seq<char>, Seq<char>)>,
) -> Seq<Seq<char>> {
    match bookmark {
        None => seq![no_bookmark_line()],
        Some(b) => seq![decimal(ahead) + ahead_of_text() + b] + commits.map_values(
            |c: (Seq<char>, Seq<char>)| commit_line(c),
        ),
    }
}

/// The ids on which the report can be printed: each is at least 12 bytes
/// long and its 12th byte ends a character (elsewhere slicing panics).
pub open spec fn report_defined(commits: Seq<(Seq<char>, Seq<char>)>) -> bool {
    forall|i: int|
        0 <= i < commits.len() ==> encode_utf8(#[trigger] commits[i].0).len() >= 12
            && is_char_boundary(encode_utf8(commits[i].0), 12)
}

/// The first 12 bytes of `id` as a string.
fn short_id_of(id: &String) -> (r: String)
    requires
        encode_utf8(id@).len() >= 12,
        is_char_boundary(encode_utf8(id@), 12),
    ensures
        r@ == short_id(id@),
{
    let s = id.as_str();
    let (head, _) = s.split_at(12);
    proof {
        vstd::utf8::encode_utf8_decode_utf8(head@);
        assert(head.spec_bytes() =~= encode_utf8(id@).take(12));
    }
    head.to_owned()
}

/// Whether `report_defined` holds for the commits of `status`.
pub fn report_defined_exec(status: &SyncStatus) -> (r: bool)
    ensures
        r == report_defined(commit_views(status.commits@)),
{
    let mut i: usize = 0;
    while i < status.commits.len()
        invariant
            i <= status.commits@.len(),
            forall|k: int|
                0 <= k < i ==> encode_utf8(#[trigger] status.commits@[k].id@).len() >= 12
                    && is_char_boundary(encode_utf8(status.commits@[k].id@), 12),
        decreases status.commits@.len() - i,
    {
        let s = status.commits[i].id.as_str();
        let n = s.as_bytes().len();
        if n < 12 || !s.is_char_boundary(12) {
            assert(commit_views(status.commits@)[i as int].0 == status.commits@[i as int].id@);
            return false;
        }
        i += 1;
    }
    proof {
        let cv = commit_views(status.commits@);
        assert forall|k: int| 0 <= k < cv.len() implies encode_utf8(#[trigger] cv[k].0).len()
            >= 12 && is_char_boundary(encode_utf8(cv[k].0), 12) by {
            assert(cv[k].0 == status.commits@[k].id@);
        }
    }
    true
}

/// The lines of the sync report for `status`.
pub fn sync_report(status: &SyncStatus) -> (r: Vec<String>)
    requires
        report_defined(commit_views(status.commits@)),
    ensures
        strs_view(r@) == sync_report_lines(
            status.ahead as nat,
            opt_view(status.bookmark),
            commit_views(status.commits@),
        ),
{
    let mut out: Vec<String> = Vec::new();
    match &status.bookmark {
        None => {
            proof {
                reveal_strlit("No remote bookmark found");
            }
            let lit = "No remote bookmark found";
            assert(lit@ =~= no_bookmark_line());
            out.push(lit.to_owned());
            assert(strs_view(out@) =~= seq![no_bookmark_line()]);
            out
        },
        Some(b) => {
            let mut head: Vec<char> = Vec::new();
            push_decimal(&mut head, status.ahead as u64);
            let mid = chars_of(" commits ahead of ");
            proof {
                reveal_strlit(" commits ahead of ");
                assert(mid@ =~= ahead_of_text());
            }
            extend_chars(&mut head, &mid);
            extend_chars(&mut head, &chars_of(b.as_str()));
            out.push(string_of(&head));
            let ghost cv = commit_views(status.commits@);
            let ghost expected = cv.map_values(|c: (Seq<char>, Seq<char>)| commit_line(c));
            assert(strs_view(out@) =~= seq![decimal(status.ahead as nat) + ahead_of_text()
                + b@] + expected.take(0));
            let mut i: usize = 0;
            while i < status.commits.len()
                invariant
                    i <= status.commits@.len(),
                    cv == commit_views(status.commits@),
                    expected == cv.map_values(|c: (Seq<char>, Seq<char>)| commit_line(c)),
                    report_defined(cv),
                    strs_view(out@) == seq![decimal(status.ahead as nat) + ahead_of_text()
                        + b@] + expected.take(i as int),
                decreases status.commits@.len() - i,
            {
                let c = &status.commits[i];
                assert(cv[i as int] == (c.id@, c.message@));
                assert(encode_utf8(cv[i as int].0).len() >= 12);
                let mut line: Vec<char> = Vec::new();
                line.push(' ');
                line.push(' ');
                let id = short_id_of(&c.id);
                extend_chars(&mut line, &chars_of(id.as_str()));
                line.push(' ');
                let ls = lines_of(&chars_of(c.message.as_str()));
                if ls.len() > 0 {
                    assert(views(ls@)[0] == ls@[0]@);
                    extend_chars(&mut line, &ls[0]);
                }
                assert(line@ =~= commit_line(cv[i as int]));
                let ghost old_out = out@;
                out.push(string_of(&line));
                assert(expected.take(i + 1) =~= expected.take(i as int).push(expected[i as int]));
                assert(strs_view(out@) =~= strs_view(old_out).push(line@));
                i += 1;
            }
            assert(expected.take(status.commits@.len() as int) =~= expected);
            out
        },
    }
}

/// The command line of the commit query of the sync status for the
/// workspace at `path`: `jj -R <path> log -r 'ancestors(@) ~
/// ancestors(tracked_remote_bookmarks())' -T 'commit_id.short() ++ "\n" ++
/// description.first_line() ++ "\n---\n"' --no-pager --no-graph`.
pub fn sync_log_command(path: &str) -> (r: Vec<String>)
    ensures
        strs_view(r@) == seq![
            "jj"@,
            "-R"@,
            path@,
            "log"@,
            "-r"@,
            "ancestors(@) ~ ancestors(tracked_remote_bookmarks())"@,
            "-T"@,
            "commit_id.short() ++ \"\\n\" ++ description.first_line() ++ \"\\n---\\n\""@,
            "--no-pager"@,
            "--no-graph"@,
        ],
{
    let r = vec![
        "jj".to_owned(),
        "-R".to_owned(),
        path.to_owned(),
        "log".to_owned(),
        "-r".to_owned(),
        "ancestors(@) ~ ancestors(tracked_remote_bookmarks())".to_owned(),
        "-T".to_owned(),
        "commit_id.short() ++ \"\\n\" ++ description.first_line() ++ \"\\n---\\n\"".to_owned(),
        "--no-pager".to_owned(),
        "--no-graph".to_owned(),
    ];
    assert(strs_view(r@) =~= seq![
        "jj"@,
        "-R"@,
        path@,
        "log"@,
        "-r"@,
        "ancestors(@) ~ ancestors(tracked_remote_bookmarks())"@,
        "-T"@,
        "commit_id.short() ++ \"\\n\" ++ description.first_line() ++ \"\\n---\\n\""@,
        "--no-pager"@,
        "--no-graph"@,
    ]);
    r
}

} // verus!
