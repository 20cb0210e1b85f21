//! Properties of the library as a whole, stated over the models that the
//! functions' contracts use.
use vstd::prelude::*;
use crate::plugin::{
    clap_id_text, ArgCatalog, ArgValueView, CellValue, ColumnCatalog, ColumnIx, PluginConfig, PluginIx,
    RepoWorkItem, RowPatch,
};
use crate::registry::{
    applicable, apply_updates, arg_on, arg_requests, merge_batch_result, merge_patch_result,
    plugin_step_from, requested_by_args, requested_pairs, scope_applies, unknown_row_msg, update_ok,
    valid_prefix, PluginRegistry, PluginStepView, RepoScope,
};
use crate::render::{
    csv_items, dedup, join_spaced, lemma_first_close, nonempty_trimmed, placeholder_of,
    placeholders, template_of,
};
use crate::repo::{classify, RepoInfo, RepoMarkers, RepoType};
use crate::text::{decimal, digit_char, is_ws, trim, trim_end, trim_start};

verus! {

// ---------------------------------------------------------------------------
// Classification
// ---------------------------------------------------------------------------

/// Classification rules: Jujutsu takes precedence over Git when both
/// markers are present; a worktree is recognised by its pointer file
/// rather than a directory (`.jj` for Jujutsu, `.git` for Git); a directory
/// with neither marker is no repository and no worktree.
pub proof fn classification_rules(m: RepoMarkers)
    ensures
        m.jj_exists ==> classify(m).repo_type == RepoType::Jujutsu && classify(m).is_worktree
            == m.jj_is_pointer,
        !m.jj_exists && m.git_exists ==> classify(m).repo_type == RepoType::Git
            && classify(m).is_worktree == m.git_is_file,
        !m.jj_exists && !m.git_exists ==> classify(m).repo_type == RepoType::NoRepo
            && !classify(m).is_worktree,
        classify(m).is_worktree ==> classify(m).repo_type != RepoType::NoRepo,
{
}

// ---------------------------------------------------------------------------
// The registry
// ---------------------------------------------------------------------------

/// The invariants of a well-formed registry: plugin ids are unique; column
/// keys are unique across all plugins; every column has exactly one owner,
/// a registered plugin, and appears in that plugin's slot and in no other;
/// argument long names are unique.
pub proof fn registry_invariants(reg: PluginRegistry)
    requires
        reg.wf(),
    ensures
        forall|p: int, q: int|
            0 <= p < reg.plugs().len() && 0 <= q < reg.plugs().len() && p != q ==> (#[trigger] reg.plugs()[p]).id@
                != (#[trigger] reg.plugs()[q]).id@,
        forall|i: int, j: int|
            0 <= i < reg.cat().cols().len() && 0 <= j < reg.cat().cols().len() && i != j ==> (#[trigger] reg.cat().cols()[i]).key@
                != (#[trigger] reg.cat().cols()[j]).key@,
        forall|i: int|
            0 <= i < reg.cat().cols().len() ==> (#[trigger] reg.cat().cols()[i]).owner_plugin_ix
                < reg.plugs().len() && reg.cat().slot(reg.cat().cols()[i].owner_plugin_ix as int).contains(
                i as usize,
            ),
        forall|i: int, p: int|
            0 <= i < reg.cat().cols().len() && 0 <= p < reg.plugs().len() && #[trigger] reg.cat().slot(
                p,
            ).contains(i as usize) ==> (#[trigger] reg.cat().cols()[i]).owner_plugin_ix == p,
        forall|i: int, j: int|
            0 <= i < reg.arg_cat().ents().len() && 0 <= j < reg.arg_cat().ents().len() && i != j ==> (#[trigger] reg.arg_cat().ents()[i]).long@
                != (#[trigger] reg.arg_cat().ents()[j]).long@,
{
    assert forall|i: int, p: int|
        0 <= i < reg.cat().cols().len() && 0 <= p < reg.plugs().len() && #[trigger] reg.cat().slot(
            p,
        ).contains(i as usize) implies (#[trigger] reg.cat().cols()[i]).owner_plugin_ix == p by {
        let k = choose|k: int| 0 <= k < reg.cat().slot(p).len() && reg.cat().slot(p)[k] == i as usize;
        assert(reg.cat().slot(p)[k] < reg.cat().cols().len());
    }
    assert forall|i: int, j: int|
        0 <= i < reg.cat().cols().len() && 0 <= j < reg.cat().cols().len() && i != j implies (#[trigger] reg.cat().cols()[i]).key@
            != (#[trigger] reg.cat().cols()[j]).key@ by {
        if j < i {
            assert(reg.cat().cols()[j].key@ != reg.cat().cols()[i].key@);
        }
    }
    assert forall|p: int, q: int|
        0 <= p < reg.plugs().len() && 0 <= q < reg.plugs().len() && p != q implies (#[trigger] reg.plugs()[p]).id@
            != (#[trigger] reg.plugs()[q]).id@ by {
        if q < p {
            assert(reg.plugs()[q].id@ != reg.plugs()[p].id@);
        }
    }
    assert forall|i: int, j: int|
        0 <= i < reg.arg_cat().ents().len() && 0 <= j < reg.arg_cat().ents().len() && i != j implies (#[trigger] reg.arg_cat().ents()[i]).long@
            != (#[trigger] reg.arg_cat().ents()[j]).long@ by {
        if j < i {
            assert(reg.arg_cat().ents()[j].long@ != reg.arg_cat().ents()[i].long@);
        }
    }
}

// ---------------------------------------------------------------------------
// Merging patches
// ---------------------------------------------------------------------------

/// Whether plugin `plugin_ix` owns column `c` of the catalog.
pub open spec fn owns(cat: ColumnCatalog, plugin_ix: nat, c: int) -> bool {
    0 <= c < cat.cols().len() && cat.cols()[c].owner_plugin_ix == plugin_ix
}

proof fn lemma_apply_keeps(cells: Seq<CellValue>, ups: Seq<(ColumnIx, CellValue)>, c: int)
    requires
        forall|k: int| 0 <= k < ups.len() ==> (#[trigger] ups[k]).0 != c && ups[k].0 < cells.len(),
    ensures
        apply_updates(cells, ups).len() == cells.len(),
        0 <= c < cells.len() ==> apply_updates(cells, ups)[c] == cells[c],
    decreases ups.len(),
{
    if ups.len() > 0 {
        assert(ups[0].0 != c);
        assert forall|k: int| 0 <= k < ups.drop_first().len() implies (#[trigger] ups.drop_first()[k]).0
            != c && ups.drop_first()[k].0 < cells.len() by {
            assert(ups.drop_first()[k] == ups[k + 1]);
        }
        lemma_apply_keeps(cells.update(ups[0].0 as int, ups[0].1), ups.drop_first(), c);
    }
}

proof fn lemma_apply_len(cells: Seq<CellValue>, ups: Seq<(ColumnIx, CellValue)>)
    requires
        forall|k: int| 0 <= k < ups.len() ==> (#[trigger] ups[k]).0 < cells.len(),
    ensures
        apply_updates(cells, ups).len() == cells.len(),
    decreases ups.len(),
{
    if ups.len() > 0 {
        assert forall|k: int| 0 <= k < ups.drop_first().len() implies (#[trigger] ups.drop_first()[k]).0
            < cells.len() by {
            assert(ups.drop_first()[k] == ups[k + 1]);
        }
        lemma_apply_len(cells.update(ups[0].0 as int, ups[0].1), ups.drop_first());
    }
}

proof fn lemma_valid_prefix_ok(cat: ColumnCatalog, p: nat, ups: Seq<(ColumnIx, CellValue)>)
    ensures
        valid_prefix(cat, p, ups) <= ups.len(),
        forall|k: int| 0 <= k < valid_prefix(cat, p, ups) ==> update_ok(cat, p, #[trigger] ups[k]),
        valid_prefix(cat, p, ups) < ups.len() ==> !update_ok(
            cat,
            p,
            ups[valid_prefix(cat, p, ups) as int],
        ),
    decreases ups.len(),
{
    if ups.len() > 0 && update_ok(cat, p, ups[0]) {
        lemma_valid_prefix_ok(cat, p, ups.drop_first());
        assert forall|k: int| 0 <= k < valid_prefix(cat, p, ups) implies update_ok(
            cat,
            p,
            #[trigger] ups[k],
        ) by {
            if k > 0 {
                assert(ups[k] == ups.drop_first()[k - 1]);
            }
        }
    }
}

/// Merging a patch touches one row at most, keeps every row's width, and
/// never changes a cell of a column that the plugin does not own.
pub proof fn merge_patch_respects_ownership(
    cat: ColumnCatalog,
    plugin_ix: nat,
    table: Seq<Seq<CellValue>>,
    row_id: nat,
    ups: Seq<(ColumnIx, CellValue)>,
)
    ensures
        ({
            let res = merge_patch_result(cat, plugin_ix, table, row_id, ups);
            &&& res.0.len() == table.len()
            &&& forall|r: int| 0 <= r < table.len() ==> (#[trigger] res.0[r]).len() == table[r].len()
            &&& forall|r: int| 0 <= r < table.len() && r != row_id ==> #[trigger] res.0[r] == table[r]
            &&& forall|r: int, c: int|
                0 <= r < table.len() && 0 <= c < table[r].len() && !owns(cat, plugin_ix, c) ==> #[trigger] res.0[r][c]
                    == table[r][c]
        }),
{
    let res = merge_patch_result(cat, plugin_ix, table, row_id, ups);
    if row_id < table.len() && table[row_id as int].len() == cat.cols().len() {
        let n = valid_prefix(cat, plugin_ix, ups);
        lemma_valid_prefix_ok(cat, plugin_ix, ups);
        let pre = ups.take(n as int);
        assert forall|k: int| 0 <= k < pre.len() implies (#[trigger] pre[k]).0 < table[row_id as int].len() by {
            assert(pre[k] == ups[k]);
            assert(update_ok(cat, plugin_ix, ups[k]));
        }
        lemma_apply_len(table[row_id as int], pre);
        assert forall|r: int, c: int|
            0 <= r < table.len() && 0 <= c < table[r].len() && !owns(cat, plugin_ix, c) implies #[trigger] res.0[r][c]
                == table[r][c] by {
            if r == row_id {
                assert forall|k: int| 0 <= k < pre.len() implies (#[trigger] pre[k]).0 != c && pre[k].0
                    < table[row_id as int].len() by {
                    assert(pre[k] == ups[k]);
                    assert(update_ok(cat, plugin_ix, ups[k]));
                }
                lemma_apply_keeps(table[row_id as int], pre, c);
            }
        }
    }
}

/// The value a cell holds after the updates: that of the last update of
/// column `c`, or `cell` when no update writes it.
pub open spec fn cell_after(cell: CellValue, ups: Seq<(ColumnIx, CellValue)>, c: int) -> CellValue
    decreases ups.len(),
{
    if ups.len() == 0 {
        cell
    } else if ups.last().0 == c {
        ups.last().1
    } else {
        cell_after(cell, ups.drop_last(), c)
    }
}

proof fn lemma_apply_reads(cells: Seq<CellValue>, ups: Seq<(ColumnIx, CellValue)>, c: int)
    requires
        0 <= c < cells.len(),
        forall|k: int| 0 <= k < ups.len() ==> (#[trigger] ups[k]).0 < cells.len(),
    ensures
        apply_updates(cells, ups)[c] == cell_after(cells[c], ups, c),
    decreases ups.len(),
{
    if ups.len() > 0 {
        let init = ups.drop_last();
        assert forall|k: int| 0 <= k < init.len() implies (#[trigger] init[k]).0 < cells.len() by {
            assert(init[k] == ups[k]);
        }
        lemma_apply_reads(cells, init, c);
        crate::registry::lemma_apply_push(cells, init, ups.last());
        assert(init.push(ups.last()) =~= ups);
        lemma_apply_len(cells, init);
    }
}

/// Reading a cell of the patched row after an accepted patch gives the
/// value of the patch's last write to that column, or the cell as it was
/// when the patch does not write it.
pub proof fn merge_patch_read_after_write(
    cat: ColumnCatalog,
    plugin_ix: nat,
    table: Seq<Seq<CellValue>>,
    row_id: nat,
    ups: Seq<(ColumnIx, CellValue)>,
    c: int,
)
    requires
        merge_patch_result(cat, plugin_ix, table, row_id, ups).1 is None,
        0 <= c < cat.cols().len(),
    ensures
        row_id < table.len(),
        merge_patch_result(cat, plugin_ix, table, row_id, ups).0[row_id as int][c] == cell_after(
            table[row_id as int][c],
            ups,
            c,
        ),
{
    lemma_valid_prefix_ok(cat, plugin_ix, ups);
    let n = valid_prefix(cat, plugin_ix, ups);
    assert(n == ups.len());
    assert(ups.take(n as int) =~= ups);
    assert forall|k: int| 0 <= k < ups.len() implies (#[trigger] ups[k]).0 < table[row_id as int].len() by {
        assert(update_ok(cat, plugin_ix, ups[k]));
    }
    lemma_apply_reads(table[row_id as int], ups, c);
}

/// A patch for a row that does not exist is rejected with the unknown-row
/// error and leaves the table unchanged.
pub proof fn merge_patch_rejects_unknown_row(
    cat: ColumnCatalog,
    plugin_ix: nat,
    table: Seq<Seq<CellValue>>,
    row_id: nat,
    ups: Seq<(ColumnIx, CellValue)>,
)
    requires
        row_id >= table.len(),
    ensures
        merge_patch_result(cat, plugin_ix, table, row_id, ups) == (
            table,
            Some(unknown_row_msg(row_id)),
        ),
{
}

/// A patch is accepted exactly when its row exists, has one cell per
/// column, and every update writes a column that the plugin owns; a write
/// to a column of another plugin (or to no column) is rejected.
pub proof fn merge_patch_accepts_exactly_owned_writes(
    cat: ColumnCatalog,
    plugin_ix: nat,
    table: Seq<Seq<CellValue>>,
    row_id: nat,
    ups: Seq<(ColumnIx, CellValue)>,
)
    ensures
        merge_patch_result(cat, plugin_ix, table, row_id, ups).1 is None <==> (row_id < table.len()
            && table[row_id as int].len() == cat.cols().len() && forall|k: int|
            0 <= k < ups.len() ==> owns(cat, plugin_ix, (#[trigger] ups[k]).0 as int)),
{
    lemma_valid_prefix_ok(cat, plugin_ix, ups);
    let n = valid_prefix(cat, plugin_ix, ups);
    if row_id < table.len() && table[row_id as int].len() == cat.cols().len() {
        if n < ups.len() {
            assert(!owns(cat, plugin_ix, ups[n as int].0 as int));
        } else {
            assert forall|k: int| 0 <= k < ups.len() implies owns(cat, plugin_ix, (#[trigger] ups[k]).0 as int) by {
                assert(update_ok(cat, plugin_ix, ups[k]));
            }
        }
    }
}

/// Merging a batch never changes a cell of a column that the plugin does
/// not own, and keeps the table's shape.
pub proof fn merge_batch_respects_ownership(
    cat: ColumnCatalog,
    plugin_ix: nat,
    table: Seq<Seq<CellValue>>,
    batch: Seq<RowPatch>,
)
    ensures
        ({
            let res = merge_batch_result(cat, plugin_ix, table, batch);
            &&& res.0.len() == table.len()
            &&& forall|r: int| 0 <= r < table.len() ==> (#[trigger] res.0[r]).len() == table[r].len()
            &&& forall|r: int, c: int|
                0 <= r < table.len() && 0 <= c < table[r].len() && !owns(cat, plugin_ix, c) ==> #[trigger] res.0[r][c]
                    == table[r][c]
        }),
    decreases batch.len(),
{
    if batch.len() > 0 {
        let step = merge_patch_result(
            cat,
            plugin_ix,
            table,
            batch[0].row_id as nat,
            batch[0].updates@,
        );
        merge_patch_respects_ownership(
            cat,
            plugin_ix,
            table,
            batch[0].row_id as nat,
            batch[0].updates@,
        );
        if step.1 is None {
            merge_batch_respects_ownership(cat, plugin_ix, step.0, batch.drop_first());
            let res = merge_batch_result(cat, plugin_ix, table, batch);
            assert forall|r: int, c: int|
                0 <= r < table.len() && 0 <= c < table[r].len() && !owns(cat, plugin_ix, c) implies #[trigger] res.0[r][c]
                    == table[r][c] by {
                assert(step.0[r][c] == table[r][c]);
            }
        }
    }
}

// ---------------------------------------------------------------------------
// Keys of JSON objects
// ---------------------------------------------------------------------------

/// Removing repeats keeps exactly the values that occur, each once.
pub proof fn dedup_keeps_each_value_once(s: Seq<Seq<char>>)
    ensures
        forall|i: int, j: int|
            0 <= i < dedup(s).len() && 0 <= j < dedup(s).len() && i != j ==> #[trigger] dedup(s)[i]
                != #[trigger] dedup(s)[j],
        forall|x: Seq<char>| dedup(s).contains(x) <==> s.contains(x),
    decreases s.len(),
{
    if s.len() > 0 {
        let d = dedup(s.drop_last());
        dedup_keeps_each_value_once(s.drop_last());
        assert forall|x: Seq<char>| s.contains(x) <==> (s.drop_last().contains(x) || x == s.last()) by {
            if s.contains(x) {
                let k = choose|k: int| 0 <= k < s.len() && s[k] == x;
                if k < s.len() - 1 {
                    assert(s.drop_last()[k] == x);
                }
            }
            if s.drop_last().contains(x) {
                let k = choose|k: int| 0 <= k < s.drop_last().len() && s.drop_last()[k] == x;
                assert(s[k] == x);
            }
            if x == s.last() {
                assert(s[s.len() - 1] == x);
            }
        }
        if !d.contains(s.last()) {
            let e = d.push(s.last());
            assert forall|x: Seq<char>| e.contains(x) <==> (d.contains(x) || x == s.last()) by {
                if e.contains(x) {
                    let k = choose|k: int| 0 <= k < e.len() && e[k] == x;
                    if k < d.len() {
                        assert(d[k] == x);
                    }
                }
                if d.contains(x) {
                    let k = choose|k: int| 0 <= k < d.len() && d[k] == x;
                    assert(e[k] == x);
                }
                if x == s.last() {
                    assert(e[d.len() as int] == x);
                }
            }
            assert forall|i: int, j: int|
                0 <= i < e.len() && 0 <= j < e.len() && i != j implies #[trigger] e[i] != #[trigger] e[j] by {
                if i == d.len() {
                    assert(d[j] == e[j]);
                } else if j == d.len() {
                    assert(d[i] == e[i]);
                } else {
                    assert(d[i] == e[i] && d[j] == e[j]);
                }
            }
        }
    }
}

// ---------------------------------------------------------------------------
// Templates
// ---------------------------------------------------------------------------

proof fn lemma_join_spaced_front(parts: Seq<Seq<char>>)
    requires
        parts.len() >= 2,
    ensures
        join_spaced(parts) == parts[0] + seq![' '] + join_spaced(parts.drop_first()),
    decreases parts.len(),
{
    if parts.len() == 2 {
        assert(parts.drop_last().len() == 1);
        assert(parts.drop_first().len() == 1);
        assert(join_spaced(parts.drop_first()) == parts[1]);
        assert(join_spaced(parts.drop_last()) == parts[0]);
        assert(parts.last() == parts[1]);
    } else {
        lemma_join_spaced_front(parts.drop_last());
        assert(parts.drop_last().drop_first() =~= parts.drop_first().drop_last());
        assert(parts.drop_first().last() == parts.last());
        assert(join_spaced(parts) =~= parts[0] + seq![' '] + join_spaced(parts.drop_first()));
    }
}

proof fn lemma_placeholders_open(k: Seq<char>, rest: Seq<char>)
    requires
        !k.contains('}'),
    ensures
        placeholders(placeholder_of(k) + rest) == (if trim(k).len() > 0 {
            seq![trim(k)]
        } else {
            Seq::<Seq<char>>::empty()
        }) + placeholders(rest),
{
    let s = placeholder_of(k) + rest;
    let after_open = s.drop_first();
    assert(after_open =~= k + seq!['}'] + rest);
    assert forall|i: int| 0 <= i < k.len() implies after_open[i] != '}' by {
        assert(after_open[i] == k[i]);
        if k[i] == '}' {
            assert(k.contains('}'));
        }
    }
    lemma_first_close(after_open, k.len() as int);
    assert(after_open.take(k.len() as int) =~= k);
    assert(after_open.skip(k.len() as int + 1) =~= rest);
}

proof fn lemma_placeholders_space(rest: Seq<char>)
    ensures
        placeholders(seq![' '] + rest) == placeholders(rest),
{
    assert((seq![' '] + rest).drop_first() =~= rest);
}

/// Whether a key can be named by a placeholder and read back unchanged:
/// it is not empty, has no surrounding whitespace and holds no `}`.
pub open spec fn placeholder_key(k: Seq<char>) -> bool {
    k.len() > 0 && trim(k) == k && !k.contains('}')
}

/// Reading the placeholders of the template that names `keys` gives the
/// keys back, in order (so `--format all` requests every column).
pub proof fn template_keys_round_trip(keys: Seq<Seq<char>>)
    requires
        forall|i: int| 0 <= i < keys.len() ==> placeholder_key(#[trigger] keys[i]),
    ensures
        placeholders(template_of(keys)) == keys,
    decreases keys.len(),
{
    let parts = keys.map_values(|k: Seq<char>| placeholder_of(k));
    if keys.len() == 0 {
        assert(template_of(keys) =~= Seq::<char>::empty());
        assert(placeholders(Seq::<char>::empty()) =~= keys);
    } else if keys.len() == 1 {
        assert(placeholder_key(keys[0]));
        assert(template_of(keys) == placeholder_of(keys[0]));
        lemma_placeholders_open(keys[0], Seq::empty());
        assert(placeholder_of(keys[0]) + Seq::<char>::empty() =~= placeholder_of(keys[0]));
        assert(placeholders(Seq::<char>::empty()) =~= Seq::<Seq<char>>::empty());
        assert(seq![keys[0]] + Seq::<Seq<char>>::empty() =~= keys);
    } else {
        let tail = keys.drop_first();
        assert forall|i: int| 0 <= i < tail.len() implies placeholder_key(#[trigger] tail[i]) by {
            assert(tail[i] == keys[i + 1]);
        }
        template_keys_round_trip(tail);
        lemma_join_spaced_front(parts);
        assert(parts.drop_first() =~= tail.map_values(|k: Seq<char>| placeholder_of(k)));
        let rest = seq![' '] + template_of(tail);
        assert(template_of(keys) =~= placeholder_of(keys[0]) + rest);
        assert(placeholder_key(keys[0]));
        lemma_placeholders_open(keys[0], rest);
        lemma_placeholders_space(template_of(tail));
        assert(seq![keys[0]] + tail =~= keys);
    }
}

// ---------------------------------------------------------------------------
// Trimmed items
// ---------------------------------------------------------------------------

proof fn lemma_trim_start_shape(s: Seq<char>)
    ensures
        trim_start(s).len() > 0 ==> !is_ws(trim_start(s)[0]),
    decreases s.len(),
{
    if s.len() > 0 && is_ws(s[0]) {
        lemma_trim_start_shape(s.drop_first());
    }
}

proof fn lemma_trim_end_shape(s: Seq<char>)
    ensures
        trim_end(s).len() <= s.len(),
        trim_end(s) == s.take(trim_end(s).len() as int),
        trim_end(s).len() > 0 ==> !is_ws(trim_end(s).last()),
    decreases s.len(),
{
    if s.len() > 0 && is_ws(s.last()) {
        lemma_trim_end_shape(s.drop_last());
        assert(s.drop_last().take(trim_end(s).len() as int) =~= s.take(trim_end(s).len() as int));
    } else {
        assert(s.take(s.len() as int) =~= s);
    }
}

/// Trimming twice is trimming once.
pub proof fn trim_idempotent(s: Seq<char>)
    ensures
        trim(trim(s)) == trim(s),
{
    let u = trim_start(s);
    let v = trim_end(u);
    lemma_trim_start_shape(s);
    lemma_trim_end_shape(u);
    if v.len() > 0 {
        assert(v[0] == u[0]);
    }
    assert(trim_start(v) == v);
    lemma_trim_end_shape(v);
}

proof fn lemma_nonempty_trimmed(pieces: Seq<Seq<char>>)
    ensures
        forall|i: int|
            0 <= i < nonempty_trimmed(pieces).len() ==> (#[trigger] nonempty_trimmed(pieces)[i]).len()
                > 0 && trim(nonempty_trimmed(pieces)[i]) == nonempty_trimmed(pieces)[i],
    decreases pieces.len(),
{
    if pieces.len() > 0 {
        lemma_nonempty_trimmed(pieces.drop_first());
        trim_idempotent(pieces[0]);
        let t = trim(pieces[0]);
        let head = if t.len() > 0 {
            seq![t]
        } else {
            Seq::<Seq<char>>::empty()
        };
        let r = nonempty_trimmed(pieces);
        assert forall|i: int| 0 <= i < r.len() implies (#[trigger] r[i]).len() > 0 && trim(r[i]) == r[i] by {
            if i < head.len() {
                assert(r[i] == t);
            } else {
                assert(r[i] == nonempty_trimmed(pieces.drop_first())[i - head.len()]);
            }
        }
    }
}

/// Every item of a comma-separated list is non-empty and has no
/// surrounding whitespace.
pub proof fn csv_items_are_trimmed(s: Seq<char>)
    ensures
        forall|i: int|
            0 <= i < csv_items(s).len() ==> (#[trigger] csv_items(s)[i]).len() > 0 && trim(
                csv_items(s)[i],
            ) == csv_items(s)[i],
{
    lemma_nonempty_trimmed(crate::render::split_commas_from(s, Seq::empty()));
}

// ---------------------------------------------------------------------------
// Command-line argument ids
// ---------------------------------------------------------------------------

/// Whether `c` is a decimal digit.
pub open spec fn is_digit(c: char) -> bool {
    '0' <= c && c <= '9'
}

proof fn lemma_decimal_digits(n: nat)
    ensures
        decimal(n).len() >= 1,
        forall|i: int| 0 <= i < decimal(n).len() ==> is_digit(#[trigger] decimal(n)[i]),
        n >= 10 ==> decimal(n).len() >= 2,
    decreases n,
{
    if n >= 10 {
        lemma_decimal_digits(n / 10);
        let d = (n % 10) as nat;
        assert(is_digit(digit_char(d))) by {
            assert(0 <= d < 10);
        }
        assert forall|i: int| 0 <= i < decimal(n).len() implies is_digit(#[trigger] decimal(n)[i]) by {
            if i < decimal(n / 10).len() {
                assert(decimal(n)[i] == decimal(n / 10)[i]);
            }
        }
    } else {
        assert(is_digit(digit_char(n)));
    }
}

proof fn lemma_decimal_injective(n: nat, m: nat)
    requires
        decimal(n) == decimal(m),
    ensures
        n == m,
    decreases n,
{
    lemma_decimal_digits(n);
    lemma_decimal_digits(m);
    if n < 10 && m < 10 {
        assert(digit_char(n) == decimal(n)[0]);
        assert(digit_char(m) == decimal(m)[0]);
        assert((n + 48) as u8 == (m + 48) as u8);
    } else if n >= 10 && m >= 10 {
        assert(decimal(n).last() == digit_char((n % 10) as nat));
        assert(decimal(m).last() == digit_char((m % 10) as nat));
        assert(((n % 10) + 48) as u8 == ((m % 10) + 48) as u8);
        assert(decimal(n).drop_last() =~= decimal(n / 10));
        assert(decimal(m).drop_last() =~= decimal(m / 10));
        lemma_decimal_injective(n / 10, m / 10);
    }
}

proof fn lemma_clap_id_injective(p1: nat, k1: nat, p2: nat, k2: nat)
    requires
        clap_id_text(p1, k1) == clap_id_text(p2, k2),
    ensures
        p1 == p2 && k1 == k2,
{
    let s1 = clap_id_text(p1, k1);
    let s2 = clap_id_text(p2, k2);
    let d1 = decimal(p1);
    let d2 = decimal(p2);
    lemma_decimal_digits(p1);
    lemma_decimal_digits(p2);
    assert(s1 =~= seq!['p'] + d1 + seq!['a'] + decimal(k1));
    assert(s2 =~= seq!['p'] + d2 + seq!['a'] + decimal(k2));
    assert(s1[1 + d1.len() as int] == 'a');
    assert(s2[1 + d2.len() as int] == 'a');
    if d1.len() < d2.len() {
        assert(s2[1 + d1.len() as int] == d2[d1.len() as int]);
        assert(is_digit(d2[d1.len() as int]));
    }
    if d2.len() < d1.len() {
        assert(s1[1 + d2.len() as int] == d1[d2.len() as int]);
        assert(is_digit(d1[d2.len() as int]));
    }
    assert(d1 =~= s1.subrange(1, 1 + d1.len() as int));
    assert(d2 =~= s2.subrange(1, 1 + d2.len() as int));
    lemma_decimal_injective(p1, p2);
    assert(decimal(k1) =~= s1.skip(2 + d1.len() as int));
    assert(decimal(k2) =~= s2.skip(2 + d2.len() as int));
    lemma_decimal_injective(k1, k2);
}

/// The command-line ids of the registered arguments are unique (so building
/// the command line never meets a duplicate id).
pub proof fn arg_clap_ids_unique(cat: ArgCatalog)
    requires
        cat.wf(),
    ensures
        forall|i: int, j: int|
            0 <= i < cat.ents().len() && 0 <= j < cat.ents().len() && i != j ==> (#[trigger] cat.ents()[i]).clap_id@
                != (#[trigger] cat.ents()[j]).clap_id@,
{
    assert forall|i: int, j: int|
        0 <= i < cat.ents().len() && 0 <= j < cat.ents().len() && i != j implies (#[trigger] cat.ents()[i]).clap_id@
            != (#[trigger] cat.ents()[j]).clap_id@ by {
        let ei = cat.ents()[i];
        let ej = cat.ents()[j];
        if ei.clap_id@ == ej.clap_id@ {
            lemma_clap_id_injective(
                ei.plugin_ix as nat,
                ei.local_arg_ix as nat,
                ej.plugin_ix as nat,
                ej.local_arg_ix as nat,
            );
            assert(cat.slot(ei.plugin_ix as int)[ei.local_arg_ix as int] == i);
            assert(cat.slot(ej.plugin_ix as int)[ej.local_arg_ix as int] == j);
        }
    }
}

// ---------------------------------------------------------------------------
// Plugin runs
// ---------------------------------------------------------------------------

proof fn lemma_requested_pairs(slot: Seq<ColumnIx>, mask: Seq<bool>, k: int)
    requires
        k <= slot.len(),
    ensures
        forall|j: int|
            0 <= j < requested_pairs(slot, mask, k).len() ==> {
                let pr = #[trigger] requested_pairs(slot, mask, k)[j];
                &&& slot.contains(pr.1)
                &&& pr.1 < mask.len()
                &&& mask[pr.1 as int]
            },
    decreases k,
{
    if k > 0 {
        lemma_requested_pairs(slot, mask, k - 1);
        let prev = requested_pairs(slot, mask, k - 1);
        let r = requested_pairs(slot, mask, k);
        assert forall|j: int| 0 <= j < r.len() implies {
            let pr = #[trigger] r[j];
            &&& slot.contains(pr.1)
            &&& pr.1 < mask.len()
            &&& mask[pr.1 as int]
        } by {
            if j < prev.len() {
                assert(r[j] == prev[j]);
            } else {
                assert(r[j].1 == slot[k - 1]);
            }
        }
    }
}

proof fn lemma_applicable(items: Seq<RepoWorkItem>, scope: RepoScope)
    ensures
        forall|j: int|
            0 <= j < applicable(items, scope).len() ==> scope_applies(
                scope,
                (#[trigger] applicable(items, scope)[j]).repo,
            ) && items.contains(applicable(items, scope)[j]),
    decreases items.len(),
{
    if items.len() > 0 {
        lemma_applicable(items.drop_last(), scope);
        let prev = applicable(items.drop_last(), scope);
        let r = applicable(items, scope);
        assert forall|j: int| 0 <= j < r.len() implies scope_applies(scope, (#[trigger] r[j]).repo)
            && items.contains(r[j]) by {
            if j < prev.len() {
                assert(r[j] == prev[j]);
                let k = choose|k: int| 0 <= k < items.drop_last().len() && items.drop_last()[k] == prev[j];
                assert(items[k] == r[j]);
            } else {
                assert(r[j] == items.last());
                assert(items[items.len() - 1] == r[j]);
            }
        }
    }
}

/// A plugin is run only when it is selected (at or after the current
/// position), known, configured and enabled, has at least one requested
/// column and at least one work item it applies to; the job asks only for
/// requested columns of that plugin and holds only work items it applies to.
pub proof fn plugin_runs_only_what_is_needed(
    reg: PluginRegistry,
    pos: int,
    items: Seq<RepoWorkItem>,
    selected: Seq<PluginIx>,
    configs: Seq<PluginConfig>,
    mask: Seq<bool>,
    microbatch_rows: usize,
)
    ensures
        match plugin_step_from(reg, pos, items, selected, configs, mask, microbatch_rows) {
            PluginStepView::Run { plugin_ix, items: job_items, requested, microbatch_rows: m, next } => {
                &&& 0 <= pos < next <= selected.len()
                &&& selected[next - 1] == plugin_ix
                &&& plugin_ix < reg.plugs().len()
                &&& plugin_ix < configs.len()
                &&& configs[plugin_ix as int].enabled
                &&& requested.len() > 0
                &&& job_items.len() > 0
                &&& m == microbatch_rows
                &&& forall|j: int|
                    0 <= j < requested.len() ==> {
                        let pr = #[trigger] requested[j];
                        &&& pr.1 < mask.len()
                        &&& mask[pr.1 as int]
                        &&& crate::registry::plugin_slot(reg.cat(), plugin_ix as int).contains(pr.1)
                    }
                &&& forall|j: int|
                    0 <= j < job_items.len() ==> scope_applies(
                        reg.plugs()[plugin_ix as int].scope,
                        (#[trigger] job_items[j]).repo,
                    ) && items.contains(job_items[j])
            },
            _ => true,
        },
    decreases selected.len() - pos,
{
    if 0 <= pos < selected.len() {
        let p = selected[pos];
        if p < reg.plugs().len() && p < configs.len() {
            let slot = crate::registry::plugin_slot(reg.cat(), p as int);
            let req = requested_pairs(slot, mask, slot.len() as int);
            let app = applicable(items, reg.plugs()[p as int].scope);
            if !configs[p as int].enabled || req.len() == 0 || app.len() == 0 {
                plugin_runs_only_what_is_needed(
                    reg,
                    pos + 1,
                    items,
                    selected,
                    configs,
                    mask,
                    microbatch_rows,
                );
            } else {
                lemma_requested_pairs(slot, mask, slot.len() as int);
                lemma_applicable(items, reg.plugs()[p as int].scope);
            }
        }
    }
}

// ---------------------------------------------------------------------------
// Column toggles
// ---------------------------------------------------------------------------

/// A set plugin toggle (such as `--jj`) requests every column of its
/// plugin, as if each had been named.
pub proof fn plugin_toggle_requests_all_its_columns(
    reg: PluginRegistry,
    vals: Seq<ArgValueView>,
    p: int,
    k: int,
    j: int,
)
    requires
        reg.wf(),
        0 <= p < reg.plugs().len(),
        0 <= k < reg.plugs()[p].arg_kinds@.len(),
        reg.plugs()[p].arg_kinds@[k] is PluginToggle,
        arg_on(reg, vals, p, k),
        0 <= j < reg.cat().slot(p).len(),
    ensures
        requested_by_args(reg, vals, reg.cat().slot(p)[j] as int),
{
    assert(arg_requests(reg, vals, p, k, reg.cat().slot(p)[j] as int));
}

/// A set column toggle (such as `--jj-ahead`) requests its column.
pub proof fn column_toggle_requests_its_column(reg: PluginRegistry, vals: Seq<ArgValueView>, p: int, k: int)
    requires
        reg.wf(),
        0 <= p < reg.plugs().len(),
        0 <= k < reg.plugs()[p].arg_kinds@.len(),
        reg.plugs()[p].arg_kinds@[k] is ColumnToggle,
        arg_on(reg, vals, p, k),
    ensures
        ({
            let local = reg.plugs()[p].arg_kinds@[k]->local_col_ix;
            local < reg.cat().slot(p).len() && requested_by_args(
                reg,
                vals,
                reg.cat().slot(p)[local as int] as int,
            )
        }),
{
    let local = reg.plugs()[p].arg_kinds@[k]->local_col_ix;
    assert(crate::plugin::arg_kind_fits(reg.plugs()[p].arg_kinds@[k], reg.plugs()[p].column_decls@));
    assert(arg_requests(reg, vals, p, k, reg.cat().slot(p)[local as int] as int));
}

// ---------------------------------------------------------------------------
// Commit records of `jj log`
// ---------------------------------------------------------------------------

/// The text `jj log` prints for one commit: its id line, its message line
/// and the `---` separator line.
pub open spec fn commit_record_text(id: Seq<char>, msg: Seq<char>) -> Seq<char> {
    id + seq!['\n'] + msg + seq!['\n', '-', '-', '-', '\n']
}

/// The text of several commit records, in order.
pub open spec fn commit_records_text(rs: Seq<(Seq<char>, Seq<char>)>) -> Seq<char>
    decreases rs.len(),
{
    if rs.len() == 0 {
        seq![]
    } else {
        commit_record_text(rs[0].0, rs[0].1) + commit_records_text(rs.drop_first())
    }
}

/// Whether `l` can stand as one line of a record: no line break in it, no
/// carriage return at its end, and not the `---` separator.
pub open spec fn record_line(l: Seq<char>) -> bool {
    &&& !l.contains('\n')
    &&& (l.len() == 0 || l.last() != '\r')
    &&& l != seq!['-', '-', '-']
}

proof fn lemma_lines_line(line: Seq<char>, rest: Seq<char>, cur: Seq<char>)
    requires
        !line.contains('\n'),
    ensures
        crate::text::lines_from(line + seq!['\n'] + rest, cur) == seq![
            crate::text::strip_cr(cur + line),
        ] + crate::text::lines_from(rest, seq![]),
    decreases line.len(),
{
    let s = line + seq!['\n'] + rest;
    if line.len() == 0 {
        assert(s =~= seq!['\n'] + rest);
        assert(s.drop_first() =~= rest);
        assert(cur + line =~= cur);
    } else {
        assert(s[0] == line[0]);
        assert(line[0] != '\n') by {
            if line[0] == '\n' {
                assert(line.contains('\n'));
            }
        }
        let tail = line.drop_first();
        assert(!tail.contains('\n')) by {
            if tail.contains('\n') {
                let k = choose|k: int| 0 <= k < tail.len() && tail[k] == '\n';
                assert(line[k + 1] == '\n');
            }
        }
        assert(s.drop_first() =~= tail + seq!['\n'] + rest);
        lemma_lines_line(tail, rest, cur.push(line[0]));
        assert(cur.push(line[0]) + tail =~= cur + line);
    }
}

proof fn lemma_lines_record_line(line: Seq<char>, rest: Seq<char>)
    requires
        record_line(line),
    ensures
        crate::text::lines_from(line + seq!['\n'] + rest, seq![]) == seq![line]
            + crate::text::lines_from(rest, seq![]),
{
    lemma_lines_line(line, rest, seq![]);
    assert(seq![] + line =~= line);
}

proof fn lemma_record_lines(id: Seq<char>, msg: Seq<char>, tail: Seq<char>)
    requires
        record_line(id),
        record_line(msg),
    ensures
        crate::text::lines(commit_record_text(id, msg) + tail) == seq![
            id,
            msg,
            crate::jj::record_end(),
        ] + crate::text::lines(tail),
{
    let end = seq!['-', '-', '-'];
    assert(!end.contains('\n')) by {
        if end.contains('\n') {
            let k = choose|k: int| 0 <= k < end.len() && end[k] == '\n';
            assert(end[k] == '-');
        }
    }
    assert(commit_record_text(id, msg) + tail =~= id + seq!['\n'] + (msg + seq!['\n'] + (end
        + seq!['\n'] + tail)));
    lemma_lines_record_line(id, msg + seq!['\n'] + (end + seq!['\n'] + tail));
    lemma_lines_record_line(msg, end + seq!['\n'] + tail);
    lemma_lines_line(end, tail, seq![]);
    assert(seq![] + end =~= end);
    assert(crate::text::strip_cr(end) == end);
    assert(end =~= crate::jj::record_end());
    assert(crate::text::lines(commit_record_text(id, msg) + tail) =~= seq![
        id,
        msg,
        crate::jj::record_end(),
    ] + crate::text::lines(tail));
}

proof fn lemma_parse_record(id: Seq<char>, msg: Seq<char>, lt: Seq<Seq<char>>)
    requires
        id != crate::jj::record_end(),
        msg != crate::jj::record_end(),
    ensures
        crate::jj::parse_commit_lines(seq![id, msg, crate::jj::record_end()] + lt, None, None)
            == seq![(id, msg)] + crate::jj::parse_commit_lines(lt, None, None),
{
    let end = crate::jj::record_end();
    let ls = seq![id, msg, end] + lt;
    let l1 = ls.drop_first();
    let l2 = l1.drop_first();
    assert(l1 =~= seq![msg, end] + lt);
    assert(l2 =~= seq![end] + lt);
    assert(l2.drop_first() =~= lt);
    assert(ls[0] == id);
    assert(l1[0] == msg);
    assert(l2[0] == end);
    assert(crate::jj::parse_commit_lines(ls, None, None) == crate::jj::parse_commit_lines(
        l1,
        Some(id),
        None,
    ));
    assert(crate::jj::parse_commit_lines(l1, Some(id), None) == crate::jj::parse_commit_lines(
        l2,
        Some(id),
        Some(msg),
    ));
    assert(crate::jj::parse_commit_lines(l2, Some(id), Some(msg)) == seq![(id, msg)]
        + crate::jj::parse_commit_lines(l2.drop_first(), None, None));
}

/// `jj log` output made of commit records (an id line, a message line,
/// `---`) parses to exactly those commits, in order, whatever the lines
/// hold (an empty message included); so the number of commits ahead is the
/// number of records.
pub proof fn commit_records_parse_back(rs: Seq<(Seq<char>, Seq<char>)>)
    requires
        forall|i: int| 0 <= i < rs.len() ==> record_line((#[trigger] rs[i]).0) && record_line(rs[i].1),
    ensures
        crate::jj::parsed_commits(commit_records_text(rs)) == rs,
    decreases rs.len(),
{
    if rs.len() == 0 {
        assert(crate::text::lines(seq![]) =~= Seq::<Seq<char>>::empty());
    } else {
        let id = rs[0].0;
        let msg = rs[0].1;
        let rest = rs.drop_first();
        assert forall|i: int| 0 <= i < rest.len() implies record_line((#[trigger] rest[i]).0)
            && record_line(rest[i].1) by {
            assert(rest[i] == rs[i + 1]);
        }
        commit_records_parse_back(rest);
        assert(record_line(id) && record_line(msg));
        let tail = commit_records_text(rest);
        lemma_record_lines(id, msg, tail);
        assert(commit_records_text(rs) == commit_record_text(id, msg) + tail);
        assert(seq!['-', '-', '-'] =~= crate::jj::record_end());
        lemma_parse_record(id, msg, crate::text::lines(tail));
        assert(seq![(id, msg)] + rest =~= rs);
    }
}

// ---------------------------------------------------------------------------
// Normalized names
// ---------------------------------------------------------------------------

/// Whether `c` is an ASCII digit or an ASCII letter.
pub open spec fn ascii_letter_or_digit(c: char) -> bool {
    ('0' <= c && c <= '9') || ('a' <= c && c <= 'z') || ('A' <= c && c <= 'Z')
}

/// The code of `c` after ASCII lower-casing: an upper-case letter moves by
/// 32, every other character stays.
pub open spec fn lowered_code(c: char) -> u32 {
    if 'A' <= c && c <= 'Z' {
        (c as u32 + 32) as u32
    } else {
        c as u32
    }
}

proof fn lemma_char_code(c: char)
    ensures
        c as u32 == c as int,
        0 <= c as int <= 0x10FFFF,
{
}

/// Normalizing keeps exactly the ASCII letters and digits of a name, in
/// order, each lower-cased (so `a-2` becomes `a2`, and `Use.GPU` becomes
/// `usegpu`).
pub proof fn normalize_keeps_letters_and_digits(s: Seq<char>)
    ensures
        crate::variant::normalize(s).len() == s.filter(|c: char| ascii_letter_or_digit(c)).len(),
        forall|i: int|
            0 <= i < crate::variant::normalize(s).len() ==> (#[trigger] crate::variant::normalize(
                s,
            )[i]) as u32 == lowered_code(s.filter(|c: char| ascii_letter_or_digit(c))[i]),
    decreases s.len(),
{
    let keep = |c: char| ascii_letter_or_digit(c);
    if s.len() == 0 {
        assert(s.filter(keep) =~= Seq::<char>::empty()) by {
            reveal(Seq::filter);
        }
    } else {
        let init = s.drop_last();
        let c = s.last();
        normalize_keeps_letters_and_digits(init);
        init.lemma_filter_push(c, keep);
        assert(init.push(c) =~= s);
        let u = c as u32;
        lemma_char_code(c);
        assert(crate::text::is_ascii_alnum(c) == ascii_letter_or_digit(c));
        if ascii_letter_or_digit(c) {
            assert(crate::text::ascii_lower(c) as u32 == lowered_code(c)) by {
                if 0x41 <= u && u <= 0x5A {
                    assert(((u + 32) as u8) as u32 == u + 32);
                }
            }
            let n = crate::variant::normalize(s);
            let f = s.filter(keep);
            assert forall|i: int| 0 <= i < n.len() implies (#[trigger] n[i]) as u32 == lowered_code(
                f[i],
            ) by {
                if i < n.len() - 1 {
                    assert(n[i] == crate::variant::normalize(init)[i]);
                    assert(f[i] == init.filter(keep)[i]);
                }
            }
        }
    }
}

// ---------------------------------------------------------------------------
// Lookups that depend on the repository type
// ---------------------------------------------------------------------------

/// The ahead lookup depends on the repository type only, never on whether
/// the directory is a worktree: every Jujutsu directory (main workspace or
/// worktree) starts with the bookmark query, any other directory has no
/// ahead count; after the first query the classification plays no part.
pub proof fn ahead_depends_on_repository_type_only(
    a: RepoInfo,
    b: RepoInfo,
    event: crate::ahead::AheadEvent,
)
    ensures
        a.repo_type == b.repo_type ==> crate::ahead::ahead_step(a, event)
            == crate::ahead::ahead_step(b, event),
        a.repo_type == RepoType::Jujutsu ==> crate::ahead::ahead_step(
            a,
            crate::ahead::AheadEvent::Start,
        ) == crate::ahead::AheadAction::RunBookmarks,
        a.repo_type != RepoType::Jujutsu ==> crate::ahead::ahead_step(
            a,
            crate::ahead::AheadEvent::Start,
        ) == crate::ahead::AheadAction::Finish(None),
        !(event is Start) ==> crate::ahead::ahead_step(a, event) == crate::ahead::ahead_step(
            b,
            event,
        ),
{
}

/// A Git directory, main checkout or worktree alike, asks `git log` in the
/// directory itself for its commit date: the first step is the same for
/// every Git directory and is the action "run `git log` in `path`".
pub proof fn git_commit_date_reads_the_directory_itself(path: Seq<char>, a: RepoInfo, b: RepoInfo)
    requires
        a.repo_type == RepoType::Git,
        b.repo_type == RepoType::Git,
    ensures
        crate::date::commit_date_step(path, a, crate::date::CommitDateEvent::Start)
            == crate::date::commit_date_step(path, b, crate::date::CommitDateEvent::Start),
        forall|d: String|
            d@ == path ==> crate::date::commit_date_step(path, a, crate::date::CommitDateEvent::Start)
                == #[trigger] crate::date::commit_date_action_view(
                crate::date::CommitDateAction::RunGitLog(d),
            ),
        crate::date::commit_date_step(path, a, crate::date::CommitDateEvent::Start).0 == 1,
        crate::date::commit_date_step(path, a, crate::date::CommitDateEvent::Start).1 == path,
{
}

// ---------------------------------------------------------------------------
// JSON cells
// ---------------------------------------------------------------------------

/// Only an empty cell is left out of a JSON object; a number (zero
/// included) or a text keeps its value.
pub proof fn json_leaves_out_only_empty_cells(cell: CellValue)
    ensures
        crate::render::json_of(cell) is None <==> cell is Empty,
        forall|n: isize| #[trigger] crate::render::json_of(CellValue::Number(n)) == Some(
            crate::render::JsonCell::Number(n),
        ),
        forall|t: String| #[trigger] crate::render::json_of(CellValue::Text(t)) == Some(
            crate::render::JsonCell::Text(t),
        ),
{
}

} // verus!
