//! The variant of a worktree: what its directory name adds to the name of
//! its workparent (`myproject-foo` beside `myproject` is the variant `foo`).
//!
//! Names are compared after normalization (ASCII letters and digits only,
//! lower-cased), so `usegpu-dom` is a variant of `use.gpu`.  The variant is
//! then cut from the end of the unnormalized directory name by the byte length
//! of the normalized remainder.
use vstd::prelude::*;
use vstd::string::StringSliceAdditionalSpecFns;
use vstd::utf8::{decode_utf8, encode_utf8, is_char_boundary};
use crate::paths::{file_name_of, path_file_name};
use crate::repo::RepoInfo;
use crate::text::{
    ascii_lower, ascii_lower_exec, chars_of, is_ascii_alnum, is_ascii_alnum_exec, matches_at,
    opt_str_view, opt_view, string_of_range,
};
use crate::workparent::{get_workparent, workparent};

verus! {

/// The ASCII letters and digits of `s`, lower-cased, in order.
pub open spec fn normalize(s: Seq<char>) -> Seq<char>
    decreases s.len(),
{
    if s.len() == 0 {
        seq![]
    } else if is_ascii_alnum(s.last()) {
        normalize(s.drop_last()).push(ascii_lower(s.last()))
    } else {
        normalize(s.drop_last())
    }
}

/// Whether the normalized project name is a proper prefix of the
/// normalized workspace name.
pub open spec fn strips_project(ws: Seq<char>, proj: Seq<char>) -> bool {
    let nw = normalize(ws);
    let np = normalize(proj);
    nw.len() > np.len() && nw.take(np.len() as int) == np
}

/// The byte offset in the UTF-8 encoding of `ws` where the variant starts:
/// as many bytes before the end as the normalized remainder has characters.
pub open spec fn suffix_cut(ws: Seq<char>, proj: Seq<char>) -> int {
    encode_utf8(ws).len() - (normalize(ws).len() - normalize(proj).len())
}

/// The inputs on which the variant can be cut: the cut falls on a character
/// boundary of the workspace name (elsewhere slicing the name panics).
pub open spec fn variant_defined(ws: Seq<char>, proj: Seq<char>) -> bool {
    strips_project(ws, proj) ==> is_char_boundary(encode_utf8(ws), suffix_cut(ws, proj))
}

/// The tail of the workspace name after the project name, if the project
/// name is a proper normalized prefix.
pub open spec fn stripped_project(ws: Seq<char>, proj: Seq<char>) -> Option<Seq<char>> {
    if strips_project(ws, proj) {
        Some(
            decode_utf8(
                encode_utf8(ws).subrange(suffix_cut(ws, proj), encode_utf8(ws).len() as int),
            ),
        )
    } else {
        None
    }
}

/// Drops one leading separator (`-`, `_` or `.`).
pub open spec fn strip_separator(s: Seq<char>) -> Seq<char> {
    if s.len() > 0 && (s[0] == '-' || s[0] == '_' || s[0] == '.') {
        s.drop_first()
    } else {
        s
    }
}

/// The variant of workspace `ws` relative to project `proj`; empty when
/// `proj` does not start `ws` (after normalization) or equals it.
pub open spec fn variant_of(ws: Seq<char>, proj: Seq<char>) -> Seq<char> {
    match stripped_project(ws, proj) {
        Some(x) => strip_separator(x),
        None => seq![],
    }
}

/// The variant of the directory `path`: its final component compared with
/// its workparent; `None` when there is no final component, the directory
/// is no worktree, or the workparent is unknown.
pub open spec fn variant_at(path: Seq<char>, info: RepoInfo, pointer: Option<Seq<char>>) -> Option<
    Seq<char>,
> {
    match path_file_name(path) {
        None => None,
        Some(w) => if !info.is_worktree {
            None
        } else {
            match workparent(info, pointer) {
                Some(p) => Some(variant_of(w, p)),
                None => None,
            }
        },
    }
}

/// The inputs of `get_variant` on which it does not panic.
pub open spec fn variant_at_defined(
    path: Seq<char>,
    info: RepoInfo,
    pointer: Option<Seq<char>>,
) -> bool {
    match (path_file_name(path), workparent(info, pointer)) {
        (Some(w), Some(p)) => info.is_worktree ==> variant_defined(w, p),
        _ => true,
    }
}

proof fn lemma_normalize_len(s: Seq<char>)
    ensures
        normalize(s).len() <= s.len(),
    decreases s.len(),
{
    if s.len() > 0 {
        lemma_normalize_len(s.drop_last());
    }
}

proof fn lemma_encode_len(s: Seq<char>)
    ensures
        encode_utf8(s).len() >= s.len(),
    decreases s.len(),
{
    if s.len() > 0 {
        lemma_encode_len(s.drop_first());
    }
}

/// `normalize(v)`.
fn normalize_chars(v: &Vec<char>) -> (r: Vec<char>)
    ensures
        r@ == normalize(v@),
{
    let mut r: Vec<char> = Vec::new();
    let mut i: usize = 0;
    assert(v@.take(0) =~= seq![]);
    while i < v.len()
        invariant
            i <= v@.len(),
            r@ == normalize(v@.take(i as int)),
        decreases v@.len() - i,
    {
        assert(v@.take(i + 1).drop_last() =~= v@.take(i as int));
        let c = v[i];
        if is_ascii_alnum_exec(c) {
            r.push(ascii_lower_exec(c));
        }
        i += 1;
    }
    assert(v@.take(v@.len() as int) =~= v@);
    r
}

/// Whether `variant_defined(ws, proj)` holds.
pub fn variant_defined_exec(ws: &str, proj: &str) -> (r: bool)
    ensures
        r == variant_defined(ws@, proj@),
{
    let nw = normalize_chars(&chars_of(ws));
    let np = normalize_chars(&chars_of(proj));
    if nw.len() <= np.len() || !matches_at(&nw, &np, 0) {
        proof {
            if nw@.len() > np@.len() {
                assert(nw@.take(np@.len() as int) =~= nw@.subrange(0, np@.len() as int));
            }
        }
        return true;
    }
    assert(nw@.take(np@.len() as int) =~= nw@.subrange(0, np@.len() as int));
    proof {
        lemma_normalize_len(ws@);
        lemma_encode_len(ws@);
    }
    let total = ws.as_bytes().len();
    let cut = total - (nw.len() - np.len());
    ws.is_char_boundary(cut)
}

/// The tail of `workspace_name` after `project_name`, cut by the length of
/// the normalized remainder.
fn try_strip_project(workspace_name: &str, project_name: &str) -> (r: Option<String>)
    requires
        variant_defined(workspace_name@, project_name@),
    ensures
        opt_view(r) == stripped_project(workspace_name@, project_name@),
{
    let nw = normalize_chars(&chars_of(workspace_name));
    let np = normalize_chars(&chars_of(project_name));
    let prefix_len = np.len();
    if nw.len() <= prefix_len {
        return None;
    }
    if !matches_at(&nw, &np, 0) {
        assert(nw@.take(np@.len() as int) =~= nw@.subrange(0, np@.len() as int));
        return None;
    }
    assert(nw@.take(np@.len() as int) =~= nw@.subrange(0, np@.len() as int));
    let suffix_len = nw.len() - prefix_len;
    proof {
        lemma_normalize_len(workspace_name@);
        lemma_encode_len(workspace_name@);
    }
    let total = workspace_name.as_bytes().len();
    let cut = total - suffix_len;
    let (_, suffix) = workspace_name.split_at(cut);
    proof {
        vstd::utf8::encode_utf8_decode_utf8(suffix@);
        assert(suffix.spec_bytes() =~= encode_utf8(workspace_name@).subrange(
            cut as int,
            encode_utf8(workspace_name@).len() as int,
        ));
    }
    Some(suffix.to_owned())
}

/// Drops one leading `-`, `_` or `.`.
fn strip_separator_str(s: &str) -> (r: String)
    ensures
        r@ == strip_separator(s@),
{
    let v = chars_of(s);
    if v.len() > 0 && (v[0] == '-' || v[0] == '_' || v[0] == '.') {
        let r = string_of_range(&v, 1, v.len());
        assert(v@.subrange(1, v@.len() as int) =~= v@.drop_first());
        r
    } else {
        let r = string_of_range(&v, 0, v.len());
        assert(v@.subrange(0, v@.len() as int) =~= v@);
        r
    }
}

/// The variant of `workspace_name` relative to `project_name`.
pub fn compute_variant(workspace_name: &str, project_name: &str) -> (r: String)
    requires
        variant_defined(workspace_name@, project_name@),
    ensures
        r@ == variant_of(workspace_name@, project_name@),
{
    if let Some(suffix) = try_strip_project(workspace_name, project_name) {
        return strip_separator_str(suffix.as_str());
    }
    String::new()
}

/// The variant of the worktree at `path`; `pointer` is the text of its
/// pointer file (see `get_workparent`).
pub fn get_variant(path: &str, info: &RepoInfo, pointer: Option<&str>) -> (r: Option<String>)
    requires
        variant_at_defined(path@, *info, opt_str_view(pointer)),
    ensures
        opt_view(r) == variant_at(path@, *info, opt_str_view(pointer)),
{
    let workspace_name = match file_name_of(path) {
        Some(w) => w,
        None => return None,
    };
    if !info.is_worktree {
        return None;
    }
    let project_name = match get_workparent(info, pointer) {
        Some(p) => p,
        None => return None,
    };
    let variant = compute_variant(workspace_name.as_str(), project_name.as_str());
    Some(variant)
}

/// `get_variant` where it is defined; `None` on the inputs where cutting the
/// variant would split a character (there `get_variant` panics).
pub fn checked_get_variant(path: &str, info: &RepoInfo, pointer: Option<&str>) -> (r: Option<
    Option<String>,
>)
    ensures
        r is None <==> !variant_at_defined(path@, *info, opt_str_view(pointer)),
        r matches Some(v) ==> opt_view(v) == variant_at(path@, *info, opt_str_view(pointer)),
{
    if let Some(w) = file_name_of(path) {
        if let Some(p) = get_workparent(info, pointer) {
            if info.is_worktree && !variant_defined_exec(w.as_str(), p.as_str()) {
                return None;
            }
        }
    }
    Some(get_variant(path, info, pointer))
}

} // verus!
