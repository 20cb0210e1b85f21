//! The workparent of a worktree: the name of the directory that holds the
//! repository the worktree points at.
use vstd::prelude::*;
use crate::paths::{file_name_of, parent_of, path_file_name, path_parent};
use crate::repo::{RepoInfo, RepoType};
use crate::text::{
    chars_of, matches_at, opt_str_view, opt_view, string_of, string_of_range, trim, trim_chars,
    trim_str,
};

verus! {

/// `"gitdir: "`, the prefix of a Git worktree's `.git` pointer file.
pub open spec fn gitdir_prefix() -> Seq<char> {
    seq!['g', 'i', 't', 'd', 'i', 'r', ':', ' ']
}

/// `str::trim_start_matches(p)`: removes every leading repetition of `p`.
pub open spec fn strip_all_prefix(s: Seq<char>, p: Seq<char>) -> Seq<char>
    decreases s.len(),
{
    if p.len() > 0 && s.len() >= p.len() && s.take(p.len() as int) == p {
        strip_all_prefix(s.skip(p.len() as int), p)
    } else {
        s
    }
}

/// The parent of the parent of `p`, each step as `Path::parent` takes it.
pub open spec fn grandparent(p: Seq<char>) -> Option<Seq<char>> {
    match path_parent(p) {
        Some(a) => path_parent(a),
        None => None,
    }
}

/// Workparent of a Git worktree from the text of its `.git` file: the file
/// must start with `gitdir: `; the path after the prefix(es), trimmed, is
/// `<repo>/.git/worktrees/<name>`; the result is the final component of
/// its third ancestor.
pub open spec fn git_workparent(content: Seq<char>) -> Option<Seq<char>> {
    if content.len() >= 8 && content.take(8) == gitdir_prefix() {
        let gitdir = trim(strip_all_prefix(content, gitdir_prefix()));
        match grandparent(gitdir) {
            Some(b) => match path_parent(b) {
                Some(c) => path_file_name(c),
                None => None,
            },
            None => None,
        }
    } else {
        None
    }
}

/// Workparent of a Jujutsu workspace from the text of its `.jj/repo` file:
/// the trimmed path is `<repo>/.jj/repo`; the result is the final component
/// of its second ancestor.
pub open spec fn jj_workparent(content: Seq<char>) -> Option<Seq<char>> {
    match grandparent(trim(content)) {
        Some(b) => path_file_name(b),
        None => None,
    }
}

/// The workparent as `get_workparent` computes it; `pointer` is the text of
/// the worktree's pointer file (`.git` for Git, `.jj/repo` for Jujutsu), or
/// `None` when it could not be read.
pub open spec fn workparent(info: RepoInfo, pointer: Option<Seq<char>>) -> Option<Seq<char>> {
    if !info.is_worktree {
        None
    } else {
        match pointer {
            None => None,
            Some(content) => match info.repo_type {
                RepoType::Git => git_workparent(content),
                RepoType::Jujutsu => jj_workparent(content),
                RepoType::NoRepo => None,
            },
        }
    }
}

/// Removes every leading repetition of the non-empty `p` from `s`.
fn strip_all_prefix_chars(s: &Vec<char>, p: &Vec<char>) -> (r: Vec<char>)
    requires
        p@.len() > 0,
    ensures
        r@ == strip_all_prefix(s@, p@),
{
    let mut i: usize = 0;
    let n = s.len();
    assert(s@.skip(0) =~= s@);
    while matches_at(s, p, i)
        invariant
            i <= n,
            n == s@.len(),
            p@.len() > 0,
            strip_all_prefix(s@, p@) == strip_all_prefix(s@.skip(i as int), p@),
        decreases n - i,
    {
        let ghost t = s@.skip(i as int);
        assert(t.take(p@.len() as int) =~= s@.subrange(i as int, i + p@.len()));
        assert(t.skip(p@.len() as int) =~= s@.skip(i + p@.len()));
        i = i + p.len();
    }
    proof {
        let t = s@.skip(i as int);
        if t.len() >= p@.len() {
            assert(t.take(p@.len() as int) =~= s@.subrange(i as int, i + p@.len()));
        }
    }
    let r = string_of_range(s, i, n);
    let v = chars_of(r.as_str());
    assert(v@ =~= s@.skip(i as int));
    v
}

/// The final component of the `levels`-th ancestor (second or third) of
/// the path in `dir`.
fn ancestor_name(dir: &str, levels: usize) -> (r: Option<String>)
    requires
        levels == 2 || levels == 3,
    ensures
        levels == 2 ==> opt_view(r) == match grandparent(dir@) {
            Some(b) => path_file_name(b),
            None => None,
        },
        levels == 3 ==> opt_view(r) == match grandparent(dir@) {
            Some(b) => match path_parent(b) {
                Some(c) => path_file_name(c),
                None => None,
            },
            None => None,
        },
{
    let a = match parent_of(dir) {
        Some(a) => a,
        None => return None,
    };
    let b = match parent_of(a.as_str()) {
        Some(b) => b,
        None => return None,
    };
    if levels == 2 {
        return file_name_of(b.as_str());
    }
    let c = match parent_of(b.as_str()) {
        Some(c) => c,
        None => return None,
    };
    file_name_of(c.as_str())
}

/// The workparent of a worktree, from the text of its pointer file.
pub fn get_workparent(info: &RepoInfo, pointer: Option<&str>) -> (r: Option<String>)
    ensures
        opt_view(r) == workparent(*info, opt_str_view(pointer)),
{
    if !info.is_worktree {
        return None;
    }
    let content = match pointer {
        Some(c) => c,
        None => return None,
    };
    match info.repo_type {
        RepoType::Git => {
            let v = chars_of(content);
            let prefix = chars_of("gitdir: ");
            proof {
                reveal_strlit("gitdir: ");
                assert(prefix@ =~= gitdir_prefix());
            }
            if matches_at(&v, &prefix, 0) {
                assert(v@.take(8) =~= v@.subrange(0, 8));
                let stripped = strip_all_prefix_chars(&v, &prefix);
                let t = trim_chars(&stripped);
                let dir = string_of(&t);
                ancestor_name(dir.as_str(), 3)
            } else {
                proof {
                    if v@.len() >= 8 {
                        assert(v@.take(8) =~= v@.subrange(0, 8));
                    }
                }
                None
            }
        },
        RepoType::Jujutsu => {
            let dir = trim_str(content);
            ancestor_name(dir.as_str(), 2)
        },
        RepoType::NoRepo => None,
    }
}

} // verus!
