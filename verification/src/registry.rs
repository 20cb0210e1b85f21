//! The plugin registry: registration of detector plugins with their columns
//! and arguments, resolution of requested columns and plugins, the merge of
//! plugin results into rows, and the step function that drives plugin runs.
use vstd::prelude::*;
use crate::plugin::{
    arg_kind_fits, arg_long, copy_cell, make_arg_long, spec_of_decl, store_bool, ArgCatalog, ArgKind,
    ArgStore, ArgValueView,
    CellValue, ColumnCatalog, ColumnIx, ColumnDecl, MicroBatch, OutputRow, PluginArgs, PluginConfig, PluginIx, PluginResult,
    RepoWorkItem, RowPatch, strs_view,
};
use crate::repo::{classify, CoreRepoProbe, RepoInfo, RepoMarkers, RepoProbe, RepoType};
use crate::text::{chars_of, decimal, extend_chars, push_decimal, str_eq, string_of};

verus! {

/// Which repositories a plugin collects for.
#[derive(Debug, Clone, Copy, PartialEq, Eq, Structural)]
pub enum RepoScope {
    AnyRepo,
    JujutsuOnly,
}

/// How the cell of one column is obtained for one directory.
#[derive(Debug, Clone, Copy, PartialEq, Eq, Structural)]
pub enum CellCollector {
    /// The repository status of the directory (see `status_cell`).
    Status,
    /// The directory's path (see `directory_cell`).
    Directory,
    /// The Jujutsu ahead count (see `ahead::get_ahead`).
    JjAhead,
    /// The last change of the beads tracker (see
    /// `beads::get_beads_last_changed`).
    BeadsLastChanged,
}

/// A sub-processor of a plugin: the collector of one of its columns.
#[derive(Debug, Clone, Copy, PartialEq, Eq, Structural)]
pub struct SubProcessor {
    pub local_col_ix: usize,
    pub collector: CellCollector,
}

/// A detector plugin: its id (also its command-line prefix), its columns and
/// arguments, the repositories it applies to and its sub-processors.
#[derive(Debug, Clone)]
pub struct DetectorPlugin {
    pub id: &'static str,
    pub description: &'static str,
    pub column_decls: Vec<ColumnDecl>,
    pub arg_kinds: Vec<ArgKind>,
    pub scope: RepoScope,
    pub subprocessors: Vec<SubProcessor>,
}

/// Whether a plugin with scope `scope` applies to a repository.
pub open spec fn scope_applies(scope: RepoScope, repo: RepoInfo) -> bool {
    match scope {
        RepoScope::AnyRepo => true,
        RepoScope::JujutsuOnly => repo.repo_type == RepoType::Jujutsu,
    }
}

/// The long names of the arguments of a plugin, in order.
pub open spec fn plugin_longs(plugin: DetectorPlugin) -> Seq<Seq<char>> {
    Seq::new(
        plugin.arg_kinds@.len(),
        |k: int| arg_long(plugin.id@, plugin.arg_kinds@[k], plugin.column_decls@),
    )
}

/// Whether a plugin is internally consistent: its column keys are distinct,
/// its column toggles and sub-processors name its own columns, and its
/// argument long names are distinct.
pub open spec fn plugin_consistent(plugin: DetectorPlugin) -> bool {
    &&& forall|i: int, j: int|
        0 <= i < j < plugin.column_decls@.len() ==> (#[trigger] plugin.column_decls@[i]).key@
            != (#[trigger] plugin.column_decls@[j]).key@
    &&& forall|k: int|
        0 <= k < plugin.arg_kinds@.len() ==> arg_kind_fits(
            #[trigger] plugin.arg_kinds@[k],
            plugin.column_decls@,
        )
    &&& forall|i: int, j: int|
        0 <= i < j < plugin.arg_kinds@.len() ==> #[trigger] plugin_longs(plugin)[i]
            != #[trigger] plugin_longs(plugin)[j]
    &&& forall|k: int|
        0 <= k < plugin.subprocessors@.len() ==> (#[trigger] plugin.subprocessors@[k]).local_col_ix
            < plugin.column_decls@.len()
}

impl DetectorPlugin {
    /// Whether the plugin collects for a repository.
    pub fn applies_to(&self, repo: &RepoInfo) -> (r: bool)
        ensures
            r == scope_applies(self.scope, *repo),
    {
        match self.scope {
            RepoScope::AnyRepo => true,
            RepoScope::JujutsuOnly => repo.repo_type == RepoType::Jujutsu,
        }
    }

    /// The configuration for a run: plugins are enabled, without options.
    pub fn configure(&self, _args: PluginArgs<'_>) -> (r: PluginConfig)
        ensures
            r.enabled,
            r.options@ == Map::<String, String>::empty(),
    {
        PluginConfig::enabled()
    }
}

/// The registry of detector plugins.
pub struct PluginRegistry {
    repo_probe: CoreRepoProbe,
    plugins: Vec<DetectorPlugin>,
    columns: ColumnCatalog,
    args: ArgCatalog,
}

impl PluginRegistry {
    /// The registered plugins, in registration order.
    pub closed spec fn plugs(&self) -> Seq<DetectorPlugin> {
        self.plugins@
    }

    /// The column catalog.
    pub closed spec fn cat(&self) -> ColumnCatalog {
        self.columns
    }

    /// The argument catalog.
    pub closed spec fn arg_cat(&self) -> ArgCatalog {
        self.args
    }

    /// Whether some registered plugin has id `id`.
    pub open spec fn has_plugin(&self, id: Seq<char>) -> bool {
        exists|p: int| 0 <= p < self.plugs().len() && (#[trigger] self.plugs()[p]).id@ == id
    }

    /// The invariant of a registry: the catalogs are well formed and have one
    /// slot per plugin; plugin ids are unique; plugin `p`'s slot holds its
    /// declared columns in order, and its declared arguments in order with
    /// their long names; every plugin is consistent.
    pub open spec fn wf(&self) -> bool {
        &&& self.cat().wf()
        &&& self.arg_cat().wf()
        &&& self.cat().by_plugin@.len() == self.plugs().len()
        &&& self.arg_cat().slot_count() == self.plugs().len()
        &&& forall|p: int, q: int|
            0 <= p < q < self.plugs().len() ==> (#[trigger] self.plugs()[p]).id@
                != (#[trigger] self.plugs()[q]).id@
        &&& forall|p: int|
            0 <= p < self.plugs().len() ==> plugin_consistent(#[trigger] self.plugs()[p])
        &&& forall|p: int|
            0 <= p < self.plugs().len() ==> (#[trigger] self.cat().slot(p)).len()
                == self.plugs()[p].column_decls@.len()
        &&& forall|p: int, k: int|
            0 <= p < self.plugs().len() && 0 <= k < self.cat().slot(p).len() ==> self.cat().cols()[#[trigger] self.cat().slot(
                p,
            )[k] as int] == spec_of_decl(
                self.plugs()[p].column_decls@[k],
                self.cat().slot(p)[k] as nat,
                p as nat,
            )
        &&& forall|p: int|
            0 <= p < self.plugs().len() ==> (#[trigger] self.arg_cat().slot(p)).len()
                == self.plugs()[p].arg_kinds@.len()
        &&& forall|p: int, k: int|
            0 <= p < self.plugs().len() && 0 <= k < self.arg_cat().slot(p).len() ==> {
                let e = self.arg_cat().ents()[#[trigger] self.arg_cat().slot(p)[k] as int];
                &&& e.kind == self.plugs()[p].arg_kinds@[k]
                &&& e.long@ == plugin_longs(self.plugs()[p])[k]
            }
    }

    /// Whether `plugin` can be registered: its id is new, it is consistent,
    /// and none of its column keys or argument long names is taken.
    pub open spec fn can_register(&self, plugin: DetectorPlugin) -> bool {
        &&& !self.has_plugin(plugin.id@)
        &&& plugin_consistent(plugin)
        &&& forall|k: int|
            0 <= k < plugin.column_decls@.len() ==> !self.cat().has_key(
                (#[trigger] plugin.column_decls@[k]).key@,
            )
        &&& forall|k: int|
            0 <= k < plugin.arg_kinds@.len() ==> !self.arg_cat().has_long(
                #[trigger] plugin_longs(plugin)[k],
            )
    }

    /// An empty registry.
    pub fn new() -> (r: Self)
        ensures
            r.wf(),
            r.plugs().len() == 0,
            r.cat().cols().len() == 0,
            r.arg_cat().ents().len() == 0,
    {
        PluginRegistry {
            repo_probe: CoreRepoProbe,
            plugins: Vec::new(),
            columns: ColumnCatalog::new(),
            args: ArgCatalog::new(),
        }
    }
}

impl PluginRegistry {
    /// Registers `plugin` as the next plugin: a slot in both catalogs, its
    /// columns in declaration order, then its arguments in declaration
    /// order.  (Registering a duplicate id, column key or long name, or a
    /// column toggle of a missing column, panics; `can_register` excludes
    /// those inputs.)
    pub fn register(&mut self, plugin: DetectorPlugin)
        requires
            old(self).wf(),
            old(self).can_register(plugin),
        ensures
            final(self).wf(),
            final(self).plugs() == old(self).plugs().push(plugin),
            final(self).cat().cols() == old(self).cat().cols() + Seq::new(
                plugin.column_decls@.len(),
                |k: int|
                    spec_of_decl(
                        plugin.column_decls@[k],
                        (old(self).cat().cols().len() + k) as nat,
                        old(self).plugs().len(),
                    ),
            ),
            final(self).arg_cat().ents().len() == old(self).arg_cat().ents().len()
                + plugin.arg_kinds@.len(),
            forall|i: int|
                0 <= i < old(self).arg_cat().ents().len() ==> #[trigger] final(self).arg_cat().ents()[i]
                    == old(self).arg_cat().ents()[i],
            forall|k: int|
                0 <= k < plugin.arg_kinds@.len() ==> {
                    let e = #[trigger] final(self).arg_cat().ents()[old(self).arg_cat().ents().len() + k];
                    &&& e.long@ == plugin_longs(plugin)[k]
                    &&& e.kind == plugin.arg_kinds@[k]
                    &&& e.plugin_ix == old(self).plugs().len()
                    &&& e.local_arg_ix == k
                },
    {
        let ghost old_reg = *self;
        let ghost c0 = self.columns.cols().len();
        let ghost a0 = self.args.ents().len();
        let ghost n = plugin.column_decls@.len();
        let ghost new_cols = Seq::new(
            n,
            |k: int| spec_of_decl(plugin.column_decls@[k], (c0 + k) as nat, old_reg.plugs().len()),
        );
        let plugin_ix = self.plugins.len();
        self.columns.register_plugin_slot();
        self.args.register_plugin_slot();
        let mut i: usize = 0;
        while i < plugin.column_decls.len()
            invariant
                i <= n,
                n == plugin.column_decls@.len(),
                plugin_ix == old_reg.plugs().len(),
                c0 == old_reg.cat().cols().len(),
                old_reg.wf(),
                old_reg.can_register(plugin),
                self.plugins@ == old_reg.plugs(),
                self.columns.wf(),
                self.args.wf(),
                self.args.slot_count() == plugin_ix + 1,
                forall|p: int| 0 <= p < plugin_ix ==> #[trigger] self.args.slot(p) == old_reg.arg_cat().slot(p),
                self.args.slot(plugin_ix as int).len() == 0,
                self.args.ents() == old_reg.arg_cat().ents(),
                self.columns.by_plugin@.len() == plugin_ix + 1,
                forall|p: int| 0 <= p < plugin_ix ==> #[trigger] self.columns.slot(p) == old_reg.cat().slot(p),
                self.columns.slot(plugin_ix as int) == Seq::new(i as nat, |k: int| (c0 + k) as usize),
                self.columns.cols() == old_reg.cat().cols() + new_cols.take(i as int),
                new_cols == Seq::new(
                    n,
                    |k: int| spec_of_decl(plugin.column_decls@[k], (c0 + k) as nat, old_reg.plugs().len()),
                ),
            decreases n - i,
        {
            let decl = plugin.column_decls[i];
            proof {
                assert forall|c: int| 0 <= c < self.columns.cols().len() implies (#[trigger] self.columns.cols()[c]).key@
                    != decl.key@ by {
                    if c < c0 {
                        assert(self.columns.cols()[c] == old_reg.cat().cols()[c]);
                    } else {
                        let t = c - c0;
                        assert(self.columns.cols()[c] == new_cols[t]);
                        assert(plugin.column_decls@[t].key@ != plugin.column_decls@[i as int].key@);
                    }
                }
            }
            self.columns.push_column(plugin_ix, decl);
            proof {
                assert(new_cols.take(i + 1) =~= new_cols.take(i as int).push(new_cols[i as int]));
                assert(self.columns.cols() =~= old_reg.cat().cols() + new_cols.take(i + 1));
                assert(self.columns.slot(plugin_ix as int) =~= Seq::new(
                    (i + 1) as nat,
                    |k: int| (c0 + k) as usize,
                ));
            }
            i += 1;
        }
        assert(new_cols.take(n as int) =~= new_cols);
        let ghost cols_done = self.columns;
        let ghost m = plugin.arg_kinds@.len();
        let mut k: usize = 0;
        while k < plugin.arg_kinds.len()
            invariant
                k <= m,
                m == plugin.arg_kinds@.len(),
                plugin_ix == old_reg.plugs().len(),
                a0 == old_reg.arg_cat().ents().len(),
                old_reg.wf(),
                old_reg.can_register(plugin),
                self.plugins@ == old_reg.plugs(),
                self.columns == cols_done,
                self.args.wf(),
                self.args.slot_count() == plugin_ix + 1,
                forall|p: int| 0 <= p < plugin_ix ==> #[trigger] self.args.slot(p) == old_reg.arg_cat().slot(p),
                self.args.slot(plugin_ix as int) == Seq::new(k as nat, |t: int| (a0 + t) as usize),
                self.args.ents().len() == a0 + k,
                forall|t: int| 0 <= t < a0 ==> #[trigger] self.args.ents()[t] == old_reg.arg_cat().ents()[t],
                forall|t: int|
                    0 <= t < k ==> {
                        let e = #[trigger] self.args.ents()[a0 + t];
                        &&& e.kind == plugin.arg_kinds@[t]
                        &&& e.long@ == plugin_longs(plugin)[t]
                    },
            decreases m - k,
        {
            let kind = plugin.arg_kinds[k];
            assert(arg_kind_fits(plugin.arg_kinds@[k as int], plugin.column_decls@));
            let long = make_arg_long(plugin.id, kind, &plugin.column_decls);
            assert(long@ == plugin_longs(plugin)[k as int]);
            proof {
                assert forall|t: int| 0 <= t < self.args.ents().len() implies (#[trigger] self.args.ents()[t]).long@
                    != long@ by {
                    if t < a0 {
                        assert(old_reg.arg_cat().ents()[t] == self.args.ents()[t]);
                        assert(!old_reg.arg_cat().has_long(plugin_longs(plugin)[k as int]));
                    } else {
                        let u = t - a0;
                        assert(self.args.ents()[a0 + u].long@ == plugin_longs(plugin)[u]);
                        assert(plugin_longs(plugin)[u] != plugin_longs(plugin)[k as int]);
                    }
                }
            }
            let ghost prev = self.args;
            self.args.push_arg(plugin_ix, k, kind, long);
            proof {
                assert(self.args.slot(plugin_ix as int) =~= Seq::new(
                    (k + 1) as nat,
                    |t: int| (a0 + t) as usize,
                ));
                assert forall|t: int| 0 <= t < k + 1 implies {
                    let e = #[trigger] self.args.ents()[a0 + t];
                    &&& e.kind == plugin.arg_kinds@[t]
                    &&& e.long@ == plugin_longs(plugin)[t]
                } by {
                    if t < k {
                        assert(self.args.ents()[a0 + t] == prev.ents()[a0 + t]);
                    }
                }
            }
            k += 1;
        }
        self.plugins.push(plugin);
        proof {
            assert(self.plugs() == old_reg.plugs().push(plugin));
            assert forall|p: int, q: int|
                0 <= p < q < self.plugs().len() implies (#[trigger] self.plugs()[p]).id@
                != (#[trigger] self.plugs()[q]).id@ by {
                if q == plugin_ix {
                    assert(self.plugs()[p] == old_reg.plugs()[p]);
                } else {
                    assert(self.plugs()[p] == old_reg.plugs()[p]);
                    assert(self.plugs()[q] == old_reg.plugs()[q]);
                }
            }
            assert forall|p: int| 0 <= p < self.plugs().len() implies plugin_consistent(
                #[trigger] self.plugs()[p],
            ) by {
                if p < plugin_ix {
                    assert(self.plugs()[p] == old_reg.plugs()[p]);
                }
            }
            assert forall|p: int| 0 <= p < self.plugs().len() implies (#[trigger] self.cat().slot(
                p,
            )).len() == self.plugs()[p].column_decls@.len() by {
                if p < plugin_ix {
                    assert(self.plugs()[p] == old_reg.plugs()[p]);
                    assert(self.cat().slot(p) == old_reg.cat().slot(p));
                }
            }
            assert forall|p: int, k2: int|
                0 <= p < self.plugs().len() && 0 <= k2 < self.cat().slot(p).len() implies self.cat().cols()[#[trigger] self.cat().slot(
                p,
            )[k2] as int] == spec_of_decl(
                self.plugs()[p].column_decls@[k2],
                self.cat().slot(p)[k2] as nat,
                p as nat,
            ) by {
                if p < plugin_ix {
                    assert(self.plugs()[p] == old_reg.plugs()[p]);
                    assert(self.cat().slot(p) == old_reg.cat().slot(p));
                    let c = old_reg.cat().slot(p)[k2];
                    assert(c < c0);
                    assert(self.cat().cols()[c as int] == old_reg.cat().cols()[c as int]);
                } else {
                    assert(p == plugin_ix as int);
                    assert(self.cat().slot(p) == cols_done.slot(plugin_ix as int));
                    assert(cols_done.slot(plugin_ix as int) == Seq::new(n, |k: int| (c0 + k) as usize));
                    assert(self.cat().slot(p)[k2] == (c0 + k2) as usize);
                    assert(self.cat().slot(p)[k2] < self.cat().cols().len());
                    assert(self.cat().cols()[c0 + k2] == new_cols[k2]);
                }
            }
            assert forall|p: int| 0 <= p < self.plugs().len() implies (#[trigger] self.arg_cat().slot(
                p,
            )).len() == self.plugs()[p].arg_kinds@.len() by {
                if p < plugin_ix {
                    assert(self.plugs()[p] == old_reg.plugs()[p]);
                    assert(self.arg_cat().slot(p) == old_reg.arg_cat().slot(p));
                }
            }
            assert forall|p: int, k2: int|
                0 <= p < self.plugs().len() && 0 <= k2 < self.arg_cat().slot(p).len() implies {
                let e = self.arg_cat().ents()[#[trigger] self.arg_cat().slot(p)[k2] as int];
                &&& e.kind == self.plugs()[p].arg_kinds@[k2]
                &&& e.long@ == plugin_longs(self.plugs()[p])[k2]
            } by {
                if p < plugin_ix {
                    assert(self.plugs()[p] == old_reg.plugs()[p]);
                    assert(self.arg_cat().slot(p) == old_reg.arg_cat().slot(p));
                    let a = old_reg.arg_cat().slot(p)[k2];
                    assert(a < a0);
                    assert(self.arg_cat().ents()[a as int] == old_reg.arg_cat().ents()[a as int]);
                } else {
                    assert(p == plugin_ix as int);
                    assert(self.arg_cat().slot(p) == Seq::new(m, |t: int| (a0 + t) as usize));
                    assert(self.arg_cat().slot(p)[k2] == (a0 + k2) as usize);
                    assert(self.arg_cat().slot(p)[k2] < self.arg_cat().ents().len());
                    assert(self.plugs()[p] == plugin);
                    assert(self.arg_cat().ents()[a0 + k2].kind == plugin.arg_kinds@[k2]);
                    assert(self.arg_cat().ents()[a0 + k2].long@ == plugin_longs(plugin)[k2]);
                }
            }
            assert forall|k2: int| 0 <= k2 < plugin.arg_kinds@.len() implies {
                let e = #[trigger] self.arg_cat().ents()[a0 + k2];
                &&& e.long@ == plugin_longs(plugin)[k2]
                &&& e.kind == plugin.arg_kinds@[k2]
                &&& e.plugin_ix == plugin_ix
                &&& e.local_arg_ix == k2
            } by {
                assert(self.arg_cat().slot(plugin_ix as int)[k2] == (a0 + k2) as usize);
                assert(self.arg_cat().slot(plugin_ix as int)[k2] < self.arg_cat().ents().len());
            }
        }
    }
}

/// `"core"`.
pub open spec fn core_id() -> Seq<char> {
    seq!['c', 'o', 'r', 'e']
}

/// The core plugin: the `status` and `directory` columns, for every
/// directory, both in the base format; it declares no arguments.
pub fn core_plugin() -> (r: DetectorPlugin)
    ensures
        plugin_consistent(r),
        r.id@ == core_id(),
        r.column_decls@.len() == 2,
        r.column_decls@[0].key@ == "status"@,
        r.column_decls@[0].default_in_base_format,
        r.column_decls@[1].key@ == "directory"@,
        r.column_decls@[1].default_in_base_format,
        r.column_decls@ == seq![
            ColumnDecl {
                key: "status",
                title: "STATUS",
                description: "Repository type (git, jj, worktree-git, worktree-jj, none)",
                sortable: true,
                default_in_base_format: true,
            },
            ColumnDecl {
                key: "directory",
                title: "DIRECTORY",
                description: "Full directory path",
                sortable: true,
                default_in_base_format: true,
            },
        ],
        r.column_decls@[0].title@ == "STATUS"@,
        r.column_decls@[1].title@ == "DIRECTORY"@,
        r.arg_kinds@.len() == 0,
        r.scope == RepoScope::AnyRepo,
        r.subprocessors@ == seq![
            SubProcessor { local_col_ix: 0, collector: CellCollector::Status },
            SubProcessor { local_col_ix: 1, collector: CellCollector::Directory },
        ],
{
    let r = DetectorPlugin {
        id: "core",
        description: "Repository status and directory",
        column_decls: vec![
            ColumnDecl {
                key: "status",
                title: "STATUS",
                description: "Repository type (git, jj, worktree-git, worktree-jj, none)",
                sortable: true,
                default_in_base_format: true,
            },
            ColumnDecl {
                key: "directory",
                title: "DIRECTORY",
                description: "Full directory path",
                sortable: true,
                default_in_base_format: true,
            },
        ],
        arg_kinds: vec![],
        scope: RepoScope::AnyRepo,
        subprocessors: vec![
            SubProcessor { local_col_ix: 0, collector: CellCollector::Status },
            SubProcessor { local_col_ix: 1, collector: CellCollector::Directory },
        ],
    };
    proof {
        reveal_strlit("core");
        reveal_strlit("status");
        reveal_strlit("directory");
        assert(r.id@ =~= core_id());
        assert(r.column_decls@[0].key@.len() != r.column_decls@[1].key@.len());
        assert(r.subprocessors@ =~= seq![
            SubProcessor { local_col_ix: 0, collector: CellCollector::Status },
            SubProcessor { local_col_ix: 1, collector: CellCollector::Directory },
        ]);
        assert(r.column_decls@ =~= seq![
                ColumnDecl {
                    key: "status",
                    title: "STATUS",
                    description: "Repository type (git, jj, worktree-git, worktree-jj, none)",
                    sortable: true,
                    default_in_base_format: true,
                },
                ColumnDecl {
                    key: "directory",
                    title: "DIRECTORY",
                    description: "Full directory path",
                    sortable: true,
                    default_in_base_format: true,
                },
        ]);
    }
    r
}

/// `"jj"`.
pub open spec fn jj_id() -> Seq<char> {
    seq!['j', 'j']
}

/// `"beads"`.
pub open spec fn beads_id() -> Seq<char> {
    seq!['b', 'e', 'a', 'd', 's']
}

/// The Jujutsu plugin: the `ahead` column, for Jujutsu repositories, with
/// the toggles `--jj` and `--jj-ahead`.
pub fn jj_plugin() -> (r: DetectorPlugin)
    ensures
        plugin_consistent(r),
        r.id@ == jj_id(),
        r.column_decls@.len() == 1,
        r.column_decls@[0].key@ == seq!['a', 'h', 'e', 'a', 'd'],
        !r.column_decls@[0].default_in_base_format,
        r.column_decls@ == seq![
            ColumnDecl {
                key: "ahead",
                title: "AHEAD",
                description: "Local commits ahead of tracked remote bookmarks",
                sortable: true,
                default_in_base_format: false,
            },
        ],
        r.column_decls@[0].title@ == "AHEAD"@,
        r.arg_kinds@ == seq![
            ArgKind::PluginToggle { help: "Enable Jujutsu plugin columns" },
            ArgKind::ColumnToggle { local_col_ix: 0, help: "Enable Jujutsu ahead column" },
        ],
        r.arg_kinds@.len() == 2,
        plugin_longs(r) == seq![jj_id(), jj_id() + seq!['-', 'a', 'h', 'e', 'a', 'd']],
        plugin_longs(r) == seq!["jj"@, "jj-ahead"@],
        r.scope == RepoScope::JujutsuOnly,
        r.subprocessors@ == seq![SubProcessor { local_col_ix: 0, collector: CellCollector::JjAhead }],
{
    let r = DetectorPlugin {
        id: "jj",
        description: "Jujutsu repository metrics",
        column_decls: vec![
            ColumnDecl {
                key: "ahead",
                title: "AHEAD",
                description: "Local commits ahead of tracked remote bookmarks",
                sortable: true,
                default_in_base_format: false,
            },
        ],
        arg_kinds: vec![
            ArgKind::PluginToggle { help: "Enable Jujutsu plugin columns" },
            ArgKind::ColumnToggle { local_col_ix: 0, help: "Enable Jujutsu ahead column" },
        ],
        scope: RepoScope::JujutsuOnly,
        subprocessors: vec![SubProcessor { local_col_ix: 0, collector: CellCollector::JjAhead }],
    };
    proof {
        reveal_strlit("jj");
        reveal_strlit("ahead");
        assert(r.id@ =~= jj_id());
        assert(r.column_decls@[0].key@ =~= seq!['a', 'h', 'e', 'a', 'd']);
        assert(plugin_longs(r)[1] =~= jj_id() + seq!['-', 'a', 'h', 'e', 'a', 'd']);
        assert(plugin_longs(r) =~= seq![jj_id(), jj_id() + seq!['-', 'a', 'h', 'e', 'a', 'd']]);
        reveal_strlit("jj-ahead");
        assert("jj-ahead"@ =~= jj_id() + seq!['-', 'a', 'h', 'e', 'a', 'd']);
        assert("jj"@ =~= jj_id());
        assert(plugin_longs(r) =~= seq!["jj"@, "jj-ahead"@]);
        assert(r.column_decls@ =~= seq![
            ColumnDecl {
                key: "ahead",
                title: "AHEAD",
                description: "Local commits ahead of tracked remote bookmarks",
                sortable: true,
                default_in_base_format: false,
            },
        ]);
        assert(r.arg_kinds@ =~= seq![
            ArgKind::PluginToggle { help: "Enable Jujutsu plugin columns" },
            ArgKind::ColumnToggle { local_col_ix: 0, help: "Enable Jujutsu ahead column" },
        ]);
    }
    r
}

/// The beads plugin: the `beads-last-changed` column, for every directory,
/// with the toggles `--beads` and `--beads-beads-last-changed`.
pub fn beads_plugin() -> (r: DetectorPlugin)
    ensures
        plugin_consistent(r),
        r.id@ == beads_id(),
        r.column_decls@.len() == 1,
        r.column_decls@[0].key@ == "beads-last-changed"@,
        !r.column_decls@[0].default_in_base_format,
        r.column_decls@ == seq![
            ColumnDecl {
                key: "beads-last-changed",
                title: "BEADS_LAST_CHANGED",
                description: "Timestamp of the most recently updated beads issue",
                sortable: true,
                default_in_base_format: false,
            },
        ],
        r.column_decls@[0].title@ == "BEADS_LAST_CHANGED"@,
        r.arg_kinds@ == seq![
            ArgKind::PluginToggle { help: "Enable Beads plugin columns" },
            ArgKind::ColumnToggle { local_col_ix: 0, help: "Enable beads last-changed column" },
        ],
        r.arg_kinds@.len() == 2,
        plugin_longs(r)[0] == beads_id(),
        plugin_longs(r)[1].len() == 24,
        plugin_longs(r) == seq!["beads"@, "beads-beads-last-changed"@],
        r.scope == RepoScope::AnyRepo,
        r.subprocessors@ == seq![
            SubProcessor { local_col_ix: 0, collector: CellCollector::BeadsLastChanged },
        ],
{
    let r = DetectorPlugin {
        id: "beads",
        description: "Beads issue tracker metrics",
        column_decls: vec![
            ColumnDecl {
                key: "beads-last-changed",
                title: "BEADS_LAST_CHANGED",
                description: "Timestamp of the most recently updated beads issue",
                sortable: true,
                default_in_base_format: false,
            },
        ],
        arg_kinds: vec![
            ArgKind::PluginToggle { help: "Enable Beads plugin columns" },
            ArgKind::ColumnToggle { local_col_ix: 0, help: "Enable beads last-changed column" },
        ],
        scope: RepoScope::AnyRepo,
        subprocessors: vec![
            SubProcessor { local_col_ix: 0, collector: CellCollector::BeadsLastChanged },
        ],
    };
    proof {
        reveal_strlit("beads");
        reveal_strlit("beads-last-changed");
        assert(r.id@ =~= beads_id());
        assert(plugin_longs(r)[1].len() == 24);
        assert(plugin_longs(r)[0] != plugin_longs(r)[1]);
        reveal_strlit("beads-beads-last-changed");
        assert(plugin_longs(r)[1] =~= "beads-beads-last-changed"@);
        assert(plugin_longs(r) =~= seq!["beads"@, "beads-beads-last-changed"@]);
        assert(r.column_decls@ =~= seq![
            ColumnDecl {
                key: "beads-last-changed",
                title: "BEADS_LAST_CHANGED",
                description: "Timestamp of the most recently updated beads issue",
                sortable: true,
                default_in_base_format: false,
            },
        ]);
        assert(r.arg_kinds@ =~= seq![
            ArgKind::PluginToggle { help: "Enable Beads plugin columns" },
            ArgKind::ColumnToggle { local_col_ix: 0, help: "Enable beads last-changed column" },
        ]);
    }
    r
}

/// The registry with the built-in plugins: core (status and directory),
/// then Jujutsu, then beads.
pub fn default_registry() -> (r: PluginRegistry)
    ensures
        r.wf(),
        r.plugs().len() == 3,
        r.plugs()[0].id@ == core_id(),
        r.plugs()[1].id@ == jj_id(),
        r.plugs()[2].id@ == beads_id(),
        r.cat().cols().len() == 4,
        r.cat().cols()[0].key@ == "status"@,
        r.cat().cols()[0].owner_plugin_ix == 0,
        r.cat().cols()[0].default_in_base_format,
        r.cat().cols()[1].key@ == "directory"@,
        r.cat().cols()[1].owner_plugin_ix == 0,
        r.cat().cols()[1].default_in_base_format,
        r.cat().cols()[2].key@ == "ahead"@,
        r.cat().cols()[2].owner_plugin_ix == 1,
        !r.cat().cols()[2].default_in_base_format,
        r.cat().cols()[3].key@ == "beads-last-changed"@,
        r.cat().cols()[3].owner_plugin_ix == 2,
        !r.cat().cols()[3].default_in_base_format,
        r.cat().cols()[0].title@ == "STATUS"@,
        r.cat().cols()[1].title@ == "DIRECTORY"@,
        r.cat().cols()[2].title@ == "AHEAD"@,
        r.cat().cols()[3].title@ == "BEADS_LAST_CHANGED"@,
        r.plugs()[0].scope == RepoScope::AnyRepo,
        r.plugs()[1].scope == RepoScope::JujutsuOnly,
        r.plugs()[2].scope == RepoScope::AnyRepo,
        r.plugs()[0].subprocessors@ == seq![
            SubProcessor { local_col_ix: 0, collector: CellCollector::Status },
            SubProcessor { local_col_ix: 1, collector: CellCollector::Directory },
        ],
        r.plugs()[1].subprocessors@ == seq![
            SubProcessor { local_col_ix: 0, collector: CellCollector::JjAhead },
        ],
        r.plugs()[2].subprocessors@ == seq![
            SubProcessor { local_col_ix: 0, collector: CellCollector::BeadsLastChanged },
        ],
        r.plugs()[0].arg_kinds@.len() == 0,
        r.plugs()[1].arg_kinds@ == seq![
            ArgKind::PluginToggle { help: "Enable Jujutsu plugin columns" },
            ArgKind::ColumnToggle { local_col_ix: 0, help: "Enable Jujutsu ahead column" },
        ],
        r.plugs()[2].arg_kinds@ == seq![
            ArgKind::PluginToggle { help: "Enable Beads plugin columns" },
            ArgKind::ColumnToggle { local_col_ix: 0, help: "Enable beads last-changed column" },
        ],
        plugin_longs(r.plugs()[1]) == seq!["jj"@, "jj-ahead"@],
        plugin_longs(r.plugs()[2]) == seq!["beads"@, "beads-beads-last-changed"@],
        r.arg_cat().ents().len() == 4,
        r.arg_cat().ents()[0].long@ == "jj"@ && r.arg_cat().ents()[0].plugin_ix == 1
            && r.arg_cat().ents()[0].local_arg_ix == 0 && r.arg_cat().ents()[0].kind == r.plugs()[1].arg_kinds@[0],
        r.arg_cat().ents()[1].long@ == "jj-ahead"@ && r.arg_cat().ents()[1].plugin_ix == 1
            && r.arg_cat().ents()[1].local_arg_ix == 1 && r.arg_cat().ents()[1].kind == r.plugs()[1].arg_kinds@[1],
        r.arg_cat().ents()[2].long@ == "beads"@ && r.arg_cat().ents()[2].plugin_ix == 2
            && r.arg_cat().ents()[2].local_arg_ix == 0 && r.arg_cat().ents()[2].kind == r.plugs()[2].arg_kinds@[0],
        r.arg_cat().ents()[3].long@ == "beads-beads-last-changed"@ && r.arg_cat().ents()[3].plugin_ix
            == 2 && r.arg_cat().ents()[3].local_arg_ix == 1 && r.arg_cat().ents()[3].kind == r.plugs()[2].arg_kinds@[1],
{
    proof {
        reveal_strlit("status");
        reveal_strlit("directory");
        reveal_strlit("ahead");
        reveal_strlit("beads-last-changed");
    }
    let mut registry = PluginRegistry::new();
    let core = core_plugin();
    proof {
        assert(!registry.has_plugin(core.id@));
        assert forall|k: int| 0 <= k < core.column_decls@.len() implies !registry.cat().has_key(
            (#[trigger] core.column_decls@[k]).key@,
        ) by {}
    }
    registry.register(core);
    let jj = jj_plugin();
    proof {
        assert(registry.cat().cols()[0].key@.len() == 6);
        assert(registry.cat().cols()[1].key@.len() == 9);
        assert forall|p: int| 0 <= p < registry.plugs().len() implies (#[trigger] registry.plugs()[p]).id@
            != jj.id@ by {
            assert(registry.plugs()[p].id@.len() == 4);
        }
        assert forall|k: int| 0 <= k < jj.column_decls@.len() implies !registry.cat().has_key(
            (#[trigger] jj.column_decls@[k]).key@,
        ) by {
            assert forall|c: int| 0 <= c < registry.cat().cols().len() implies (#[trigger] registry.cat().cols()[c]).key@
                != jj.column_decls@[k].key@ by {
                assert(jj.column_decls@[k].key@.len() == 5);
            }
        }
        assert forall|k: int| 0 <= k < jj.arg_kinds@.len() implies !registry.arg_cat().has_long(
            #[trigger] plugin_longs(jj)[k],
        ) by {}
    }
    registry.register(jj);
    let beads = beads_plugin();
    proof {
        assert(registry.cat().cols()[0].key@.len() == 6);
        assert(registry.cat().cols()[1].key@.len() == 9);
        assert(registry.cat().cols()[2].key@.len() == 5);
        assert forall|p: int| 0 <= p < registry.plugs().len() implies (#[trigger] registry.plugs()[p]).id@
            != beads.id@ by {
            assert(registry.plugs()[p].id@.len() == 4 || registry.plugs()[p].id@.len() == 2);
        }
        assert forall|k: int| 0 <= k < beads.column_decls@.len() implies !registry.cat().has_key(
            (#[trigger] beads.column_decls@[k]).key@,
        ) by {
            assert forall|c: int| 0 <= c < registry.cat().cols().len() implies (#[trigger] registry.cat().cols()[c]).key@
                != beads.column_decls@[k].key@ by {
                assert(beads.column_decls@[k].key@.len() == 18);
            }
        }
        assert forall|k: int| 0 <= k < beads.arg_kinds@.len() implies !registry.arg_cat().has_long(
            #[trigger] plugin_longs(beads)[k],
        ) by {
            assert forall|e: int| 0 <= e < registry.arg_cat().ents().len() implies (#[trigger] registry.arg_cat().ents()[e]).long@
                != plugin_longs(beads)[k] by {
                assert(registry.arg_cat().ents()[0 + e].long@ == plugin_longs(jj)[e]);
            }
        }
    }
    registry.register(beads);
    proof {
        assert("ahead"@ =~= seq!['a', 'h', 'e', 'a', 'd']);
    }
    registry
}

/// The work item for row `row_id`.
pub open spec fn work_item(row_id: nat, path: String, markers: RepoMarkers) -> RepoWorkItem {
    RepoWorkItem { row_id: row_id as usize, path, repo: classify(markers) }
}

/// What resolving `keys` against the catalog gives: when every key names a
/// column, the mask that sets exactly the named columns; otherwise the
/// error that names the first unknown key.
pub open spec fn column_mask_outcome(
    cat: ColumnCatalog,
    keys: Seq<Seq<char>>,
    r: PluginResult<Vec<bool>>,
) -> bool {
    match r {
        Ok(mask) => {
            &&& forall|k: int| 0 <= k < keys.len() ==> cat.has_key(#[trigger] keys[k])
            &&& mask@.len() == cat.cols().len()
            &&& forall|i: int|
                0 <= i < mask@.len() ==> #[trigger] mask@[i] == exists|k: int|
                    0 <= k < keys.len() && #[trigger] keys[k] == cat.cols()[i].key@
        },
        Err(e) => exists|k: int|
            0 <= k < keys.len() && !cat.has_key(#[trigger] keys[k]) && (forall|j: int|
                0 <= j < k ==> cat.has_key(#[trigger] keys[j])) && e@ == "unknown column key: "@
                + keys[k],
    }
}

impl PluginRegistry {
    /// The column catalog.
    pub fn columns(&self) -> (r: &ColumnCatalog)
        ensures
            *r == self.cat(),
    {
        &self.columns
    }

    /// The argument catalog.
    pub fn arguments(&self) -> (r: &ArgCatalog)
        ensures
            *r == self.arg_cat(),
    {
        &self.args
    }

    /// The index of the plugin with id `plugin_id`.
    pub fn plugin_ix(&self, plugin_id: &str) -> (r: Option<PluginIx>)
        ensures
            match r {
                Some(p) => p < self.plugs().len() && self.plugs()[p as int].id@ == plugin_id@
                    && forall|q: int| 0 <= q < p ==> (#[trigger] self.plugs()[q]).id@ != plugin_id@,
                None => !self.has_plugin(plugin_id@),
            },
    {
        let mut i: usize = 0;
        while i < self.plugins.len()
            invariant
                i <= self.plugs().len(),
                forall|q: int| 0 <= q < i ==> (#[trigger] self.plugs()[q]).id@ != plugin_id@,
            decreases self.plugs().len() - i,
        {
            if str_eq(self.plugins[i].id, plugin_id) {
                return Some(i);
            }
            i += 1;
        }
        None
    }

    /// The ids of the plugins, in registration order.
    pub fn plugin_ids(&self) -> (r: Vec<&'static str>)
        ensures
            r@.len() == self.plugs().len(),
            forall|p: int| 0 <= p < r@.len() ==> #[trigger] r@[p] == self.plugs()[p].id,
    {
        let mut r: Vec<&'static str> = Vec::new();
        let mut i: usize = 0;
        while i < self.plugins.len()
            invariant
                i <= self.plugs().len(),
                r@.len() == i,
                forall|p: int| 0 <= p < i ==> #[trigger] r@[p] == self.plugs()[p].id,
            decreases self.plugs().len() - i,
        {
            r.push(self.plugins[i].id);
            i += 1;
        }
        r
    }

    /// One work item per path: row `i` for `paths[i]`, classified from
    /// `markers[i]` by the registry's probe.
    pub fn probe_items(&self, paths: &Vec<String>, markers: &Vec<RepoMarkers>) -> (r: Vec<RepoWorkItem>)
        requires
            paths@.len() == markers@.len(),
        ensures
            r@.len() == paths@.len(),
            forall|i: int|
                0 <= i < r@.len() ==> #[trigger] r@[i] == work_item(i as nat, paths@[i], markers@[i]),
    {
        let mut r: Vec<RepoWorkItem> = Vec::new();
        let mut i: usize = 0;
        while i < paths.len()
            invariant
                i <= paths@.len(),
                paths@.len() == markers@.len(),
                r@.len() == i,
                forall|k: int|
                    0 <= k < i ==> #[trigger] r@[k] == work_item(k as nat, paths@[k], markers@[k]),
            decreases paths@.len() - i,
        {
            let repo = self.repo_probe.detect(&markers[i]);
            r.push(RepoWorkItem { row_id: i, path: paths[i].clone(), repo });
            i += 1;
        }
        r
    }

    /// One row per work item, with an empty cell for every column.
    pub fn init_rows(&self, items: &Vec<RepoWorkItem>) -> (r: Vec<OutputRow>)
        ensures
            r@.len() == items@.len(),
            forall|i: int|
                0 <= i < r@.len() ==> {
                    &&& (#[trigger] r@[i]).row_id == items@[i].row_id
                    &&& r@[i].path == items@[i].path
                    &&& r@[i].cells@ == Seq::new(
                        self.cat().cols().len(),
                        |k: int| CellValue::Empty,
                    )
                },
    {
        let mut r: Vec<OutputRow> = Vec::new();
        let mut i: usize = 0;
        let width = self.columns.len();
        while i < items.len()
            invariant
                i <= items@.len(),
                width == self.cat().cols().len(),
                r@.len() == i,
                forall|k: int|
                    0 <= k < i ==> {
                        &&& (#[trigger] r@[k]).row_id == items@[k].row_id
                        &&& r@[k].path == items@[k].path
                        &&& r@[k].cells@ == Seq::new(width as nat, |c: int| CellValue::Empty)
                    },
            decreases items@.len() - i,
        {
            r.push(OutputRow::new(items[i].row_id, items[i].path.clone(), width));
            i += 1;
        }
        r
    }

    /// The mask of the columns named by `keys`; an unknown key is an error
    /// naming the first one.
    pub fn resolve_requested_column_mask(&self, keys: &Vec<String>) -> (r: PluginResult<Vec<bool>>)
        requires
            self.wf(),
        ensures
            column_mask_outcome(self.cat(), strs_view(keys@), r),
    {
        let n = self.columns.len();
        let mut mask: Vec<bool> = Vec::new();
        let mut i: usize = 0;
        while i < n
            invariant
                i <= n,
                mask@ == Seq::new(i as nat, |k: int| false),
            decreases n - i,
        {
            mask.push(false);
            i += 1;
            assert(mask@ =~= Seq::new(i as nat, |k: int| false));
        }
        let ghost ks = strs_view(keys@);
        let mut j: usize = 0;
        while j < keys.len()
            invariant
                self.wf(),
                n == self.cat().cols().len(),
                j <= keys@.len(),
                mask@.len() == n,
                ks == strs_view(keys@),
                forall|k: int| 0 <= k < j ==> self.cat().has_key(#[trigger] ks[k]),
                forall|c: int|
                    0 <= c < n ==> #[trigger] mask@[c] == exists|k: int|
                        0 <= k < j && #[trigger] ks[k] == self.cat().cols()[c].key@,
            decreases keys@.len() - j,
        {
            match self.columns.column_ix(keys[j].as_str()) {
                Some(ix) => {
                    let ghost old_mask = mask@;
                    mask.set(ix, true);
                    proof {
                        assert(ks[j as int] == keys@[j as int]@);
                        assert forall|c: int| 0 <= c < n implies #[trigger] mask@[c] == exists|k: int|
                            0 <= k < j + 1 && #[trigger] ks[k] == self.cat().cols()[c].key@ by {
                            if c == ix {
                                assert(ks[j as int] == self.cat().cols()[c].key@);
                            } else {
                                if ks[j as int] == self.cat().cols()[c].key@ {
                                    if c < ix {
                                        assert(self.cat().cols()[c].key@ != self.cat().cols()[ix as int].key@);
                                    } else {
                                        assert(self.cat().cols()[ix as int].key@ != self.cat().cols()[c].key@);
                                    }
                                }
                                assert(old_mask[c] == mask@[c]);
                                if mask@[c] {
                                    let k = choose|k: int|
                                        0 <= k < j && #[trigger] ks[k] == self.cat().cols()[c].key@;
                                    assert(0 <= k < j + 1 && ks[k] == self.cat().cols()[c].key@);
                                }
                            }
                        }
                        assert(self.cat().has_key(ks[j as int]));
                    }
                },
                None => {
                    let mut msg = chars_of("unknown column key: ");
                    extend_chars(&mut msg, &chars_of(keys[j].as_str()));
                    let e = string_of(&msg);
                    proof {
                        assert(ks[j as int] == keys@[j as int]@);
                        assert(!self.cat().has_key(ks[j as int]));
                    }
                    return Err(e);
                },
            }
            j += 1;
        }
        Ok(mask)
    }

    /// The plugins named by `ids`, in the order given; all plugins when none
    /// is named.  An unknown id is an error naming the first one.
    pub fn resolve_plugin_indexes(&self, ids: &Vec<String>) -> (r: PluginResult<Vec<PluginIx>>)
        requires
            self.wf(),
        ensures
            ids@.len() == 0 ==> (r matches Ok(v) && v@ == Seq::new(
                self.plugs().len(),
                |p: int| p as usize,
            )),
            ids@.len() > 0 ==> match r {
                Ok(v) => v@.len() == ids@.len() && forall|k: int|
                    0 <= k < ids@.len() ==> (#[trigger] v@[k]) < self.plugs().len()
                        && self.plugs()[v@[k] as int].id@ == ids@[k]@,
                Err(e) => exists|k: int|
                    0 <= k < ids@.len() && !self.has_plugin(#[trigger] ids@[k]@) && (forall|j: int|
                        0 <= j < k ==> self.has_plugin(#[trigger] ids@[j]@)) && e@
                        == "unknown plugin id: "@ + ids@[k]@,
            },
    {
        if ids.len() == 0 {
            let mut all: Vec<PluginIx> = Vec::new();
            let mut p: usize = 0;
            while p < self.plugins.len()
                invariant
                    p <= self.plugs().len(),
                    all@ == Seq::new(p as nat, |q: int| q as usize),
                decreases self.plugs().len() - p,
            {
                all.push(p);
                p += 1;
                assert(all@ =~= Seq::new(p as nat, |q: int| q as usize));
            }
            return Ok(all);
        }
        let mut resolved: Vec<PluginIx> = Vec::new();
        let mut k: usize = 0;
        while k < ids.len()
            invariant
                k <= ids@.len(),
                resolved@.len() == k,
                forall|j: int| 0 <= j < k ==> self.has_plugin(#[trigger] ids@[j]@),
                forall|j: int|
                    0 <= j < k ==> (#[trigger] resolved@[j]) < self.plugs().len()
                        && self.plugs()[resolved@[j] as int].id@ == ids@[j]@,
            decreases ids@.len() - k,
        {
            match self.plugin_ix(ids[k].as_str()) {
                Some(ix) => {
                    resolved.push(ix);
                },
                None => {
                    let mut msg = chars_of("unknown plugin id: ");
                    extend_chars(&mut msg, &chars_of(ids[k].as_str()));
                    return Err(string_of(&msg));
                },
            }
            k += 1;
        }
        Ok(resolved)
    }

    /// The configuration of every plugin, in registration order, from the
    /// parsed arguments.
    pub fn configure_all(&self, store: &ArgStore) -> (r: Vec<PluginConfig>)
        ensures
            r@.len() == self.plugs().len(),
            forall|p: int|
                0 <= p < r@.len() ==> (#[trigger] r@[p]).enabled && r@[p].options@ == Map::<
                    String,
                    String,
                >::empty(),
    {
        let mut configs: Vec<PluginConfig> = Vec::new();
        let mut p: usize = 0;
        while p < self.plugins.len()
            invariant
                p <= self.plugs().len(),
                configs@.len() == p,
                forall|q: int|
                    0 <= q < p ==> (#[trigger] configs@[q]).enabled && configs@[q].options@ == Map::<
                        String,
                        String,
                    >::empty(),
            decreases self.plugs().len() - p,
        {
            let args = PluginArgs::new(self.args.plugin_args(p), store);
            configs.push(self.plugins[p].configure(args));
            p += 1;
        }
        configs
    }
}

/// Whether a plugin may write an update: the column exists and the plugin
/// owns it.
pub open spec fn update_ok(cat: ColumnCatalog, plugin_ix: nat, u: (ColumnIx, CellValue)) -> bool {
    u.0 < cat.cols().len() && cat.cols()[u.0 as int].owner_plugin_ix == plugin_ix
}

/// The number of leading updates a plugin may write.
pub open spec fn valid_prefix(cat: ColumnCatalog, plugin_ix: nat, ups: Seq<(ColumnIx, CellValue)>) -> nat
    decreases ups.len(),
{
    if ups.len() > 0 && update_ok(cat, plugin_ix, ups[0]) {
        1 + valid_prefix(cat, plugin_ix, ups.drop_first())
    } else {
        0
    }
}

/// Cells after writing the updates in order (a later write to the same
/// cell wins).
pub open spec fn apply_updates(cells: Seq<CellValue>, ups: Seq<(ColumnIx, CellValue)>) -> Seq<CellValue>
    decreases ups.len(),
{
    if ups.len() == 0 {
        cells
    } else {
        apply_updates(cells.update(ups[0].0 as int, ups[0].1), ups.drop_first())
    }
}

/// `"unknown row id: <id>"`.
pub open spec fn unknown_row_msg(row_id: nat) -> Seq<char> {
    "unknown row id: "@ + decimal(row_id)
}

/// `"row cell width mismatch: expected <e>, got <g>"`.
pub open spec fn width_msg(expected: nat, got: nat) -> Seq<char> {
    "row cell width mismatch: expected "@ + decimal(expected) + ", got "@ + decimal(got)
}

/// The error for an update a plugin may not write: an unknown column, or a
/// column of another plugin.
pub open spec fn update_error(cat: ColumnCatalog, plugin_ix: nat, u: (ColumnIx, CellValue)) -> Seq<char> {
    if u.0 >= cat.cols().len() {
        "unknown column index: "@ + decimal(u.0 as nat)
    } else {
        "plugin index "@ + decimal(plugin_ix) + " attempted to write non-owned column '"@
            + cat.cols()[u.0 as int].key@ + "'"@
    }
}

/// The cells of each row.
pub open spec fn table_of(rows: Seq<OutputRow>) -> Seq<Seq<CellValue>> {
    rows.map_values(|r: OutputRow| r.cells@)
}

/// Merging one patch of plugin `plugin_ix` into a table: the row must
/// exist and have one cell per column; updates are written in order until
/// the first one the plugin may not write, which is the error.
pub open spec fn merge_patch_result(
    cat: ColumnCatalog,
    plugin_ix: nat,
    table: Seq<Seq<CellValue>>,
    row_id: nat,
    ups: Seq<(ColumnIx, CellValue)>,
) -> (Seq<Seq<CellValue>>, Option<Seq<char>>) {
    if row_id >= table.len() {
        (table, Some(unknown_row_msg(row_id)))
    } else if table[row_id as int].len() != cat.cols().len() {
        (table, Some(width_msg(cat.cols().len(), table[row_id as int].len())))
    } else {
        let n = valid_prefix(cat, plugin_ix, ups);
        (
            table.update(row_id as int, apply_updates(table[row_id as int], ups.take(n as int))),
            if n == ups.len() {
                None
            } else {
                Some(update_error(cat, plugin_ix, ups[n as int]))
            },
        )
    }
}

/// Merging a batch: its patches in order, stopping at the first error.
pub open spec fn merge_batch_result(
    cat: ColumnCatalog,
    plugin_ix: nat,
    table: Seq<Seq<CellValue>>,
    batch: Seq<RowPatch>,
) -> (Seq<Seq<CellValue>>, Option<Seq<char>>)
    decreases batch.len(),
{
    if batch.len() == 0 {
        (table, None)
    } else {
        let step = merge_patch_result(
            cat,
            plugin_ix,
            table,
            batch[0].row_id as nat,
            batch[0].updates@,
        );
        if step.1 is Some {
            step
        } else {
            merge_batch_result(cat, plugin_ix, step.0, batch.drop_first())
        }
    }
}

proof fn lemma_valid_prefix(cat: ColumnCatalog, p: nat, ups: Seq<(ColumnIx, CellValue)>, k: int)
    requires
        0 <= k <= ups.len(),
        forall|j: int| 0 <= j < k ==> update_ok(cat, p, #[trigger] ups[j]),
        k < ups.len() ==> !update_ok(cat, p, ups[k]),
    ensures
        valid_prefix(cat, p, ups) == k,
    decreases k,
{
    if k > 0 {
        assert forall|j: int| 0 <= j < k - 1 implies update_ok(cat, p, #[trigger] ups.drop_first()[j]) by {
            assert(ups.drop_first()[j] == ups[j + 1]);
        }
        lemma_valid_prefix(cat, p, ups.drop_first(), k - 1);
    }
}

pub(crate) proof fn lemma_apply_push(cells: Seq<CellValue>, ups: Seq<(ColumnIx, CellValue)>, u: (ColumnIx, CellValue))
    ensures
        apply_updates(cells, ups.push(u)) == apply_updates(cells, ups).update(u.0 as int, u.1),
    decreases ups.len(),
{
    if ups.len() > 0 {
        assert(ups.push(u).drop_first() =~= ups.drop_first().push(u));
        assert(ups.push(u)[0] == ups[0]);
        lemma_apply_push(cells.update(ups[0].0 as int, ups[0].1), ups.drop_first(), u);
    } else {
        assert(ups.push(u).drop_first() =~= Seq::<(ColumnIx, CellValue)>::empty());
        assert(ups.push(u)[0] == u);
        let c1 = cells.update(u.0 as int, u.1);
        assert(apply_updates(c1, Seq::<(ColumnIx, CellValue)>::empty()) == c1);
        assert(apply_updates(cells, ups) == cells);
    }
}

/// Appends the decimal rendering of `n`.
fn push_usize(v: &mut Vec<char>, n: usize)
    ensures
        final(v)@ == old(v)@ + decimal(n as nat),
{
    push_decimal(v, n as u64);
}

impl PluginRegistry {
    /// Merges one patch of plugin `plugin_ix` into `rows`: the row must exist
    /// and be as wide as the catalog; updates are written in order, and
    /// the first update of a column that does not exist or that the plugin
    /// does not own is an error (earlier updates stay written).
    pub fn merge_patch(&self, rows: &mut Vec<OutputRow>, plugin_ix: PluginIx, patch: RowPatch) -> (r:
        PluginResult<()>)
        ensures
            final(rows)@.len() == old(rows)@.len(),
            forall|i: int|
                0 <= i < old(rows)@.len() ==> (#[trigger] final(rows)@[i]).row_id == old(rows)@[i].row_id
                    && final(rows)@[i].path == old(rows)@[i].path,
            ({
                let res = merge_patch_result(
                    self.cat(),
                    plugin_ix as nat,
                    table_of(old(rows)@),
                    patch.row_id as nat,
                    patch.updates@,
                );
                &&& table_of(final(rows)@) == res.0
                &&& match r {
                    Ok(_) => res.1 is None,
                    Err(e) => res.1 == Some(e@),
                }
            }),
    {
        let ghost cat = self.cat();
        let ghost table0 = table_of(rows@);
        let row_id = patch.row_id;
        if row_id >= rows.len() {
            let mut msg = chars_of("unknown row id: ");
            push_usize(&mut msg, row_id);
            let e = string_of(&msg);
            assert(e@ =~= unknown_row_msg(row_id as nat));
            return Err(e);
        }
        assert(table0[row_id as int] == rows@[row_id as int].cells@);
        let width = self.columns.len();
        if rows[row_id].cells.len() != width {
            let mut msg = chars_of("row cell width mismatch: expected ");
            push_usize(&mut msg, width);
            extend_chars(&mut msg, &chars_of(", got "));
            push_usize(&mut msg, rows[row_id].cells.len());
            let e = string_of(&msg);
            assert(e@ =~= width_msg(width as nat, rows@[row_id as int].cells@.len()));
            return Err(e);
        }
        let ghost ups = patch.updates@;
        let mut k: usize = 0;
        while k < patch.updates.len()
            invariant
                cat == self.cat(),
                ups == patch.updates@,
                row_id == patch.row_id,
                k <= ups.len(),
                row_id < rows@.len(),
                rows@.len() == table0.len(),
                width == cat.cols().len(),
                forall|j: int| 0 <= j < k ==> update_ok(cat, plugin_ix as nat, #[trigger] ups[j]),
                forall|i: int|
                    0 <= i < rows@.len() ==> (#[trigger] rows@[i]).row_id == old(rows)@[i].row_id
                        && rows@[i].path == old(rows)@[i].path,
                table0 == table_of(old(rows)@),
                table0[row_id as int].len() == width,
                table_of(rows@) == table0.update(
                    row_id as int,
                    apply_updates(table0[row_id as int], ups.take(k as int)),
                ),
                apply_updates(table0[row_id as int], ups.take(k as int)).len() == width,
            decreases ups.len() - k,
        {
            let column_ix = patch.updates[k].0;
            if column_ix >= self.columns.len() {
                let mut msg = chars_of("unknown column index: ");
                push_usize(&mut msg, column_ix);
                proof {
                    lemma_valid_prefix(cat, plugin_ix as nat, ups, k as int);
                }
                let e = string_of(&msg);
                assert(e@ =~= update_error(cat, plugin_ix as nat, ups[k as int]));
                proof {
                    let res = merge_patch_result(cat, plugin_ix as nat, table0, row_id as nat, ups);
                    assert(valid_prefix(cat, plugin_ix as nat, ups) == k);
                    assert(!(row_id >= table0.len()));
                    assert(table0[row_id as int].len() == cat.cols().len());
                    assert(res.0 == table_of(rows@));
                    assert(res.1 == Some(e@));
                }
                return Err(e);
            }
            let spec_owner = self.columns.columns[column_ix].owner_plugin_ix;
            if spec_owner != plugin_ix {
                let mut msg = chars_of("plugin index ");
                push_usize(&mut msg, plugin_ix);
                extend_chars(&mut msg, &chars_of(" attempted to write non-owned column '"));
                extend_chars(&mut msg, &chars_of(self.columns.columns[column_ix].key));
                extend_chars(&mut msg, &chars_of("'"));
                proof {
                    lemma_valid_prefix(cat, plugin_ix as nat, ups, k as int);
                }
                let e = string_of(&msg);
                assert(e@ =~= update_error(cat, plugin_ix as nat, ups[k as int]));
                proof {
                    let res = merge_patch_result(cat, plugin_ix as nat, table0, row_id as nat, ups);
                    assert(valid_prefix(cat, plugin_ix as nat, ups) == k);
                    assert(!(row_id >= table0.len()));
                    assert(table0[row_id as int].len() == cat.cols().len());
                    assert(res.0 == table_of(rows@));
                    assert(res.1 == Some(e@));
                }
                return Err(e);
            }
            let value = copy_cell(&patch.updates[k].1);
            let ghost before = rows@;
            assert(table_of(before)[row_id as int] == before[row_id as int].cells@);
            rows[row_id].cells.set(column_ix, value);
            proof {
                assert(rows@[row_id as int].cells@ == before[row_id as int].cells@.update(
                    column_ix as int,
                    value,
                ));
                assert(ups[k as int] == (column_ix, value));
                assert forall|i: int| 0 <= i < rows@.len() && i != row_id implies #[trigger] rows@[i]
                    == before[i] by {}
                lemma_apply_push(table0[row_id as int], ups.take(k as int), ups[k as int]);
                assert(ups.take(k + 1) =~= ups.take(k as int).push(ups[k as int]));
                let expected = table0.update(
                    row_id as int,
                    apply_updates(table0[row_id as int], ups.take(k + 1)),
                );
                assert(table_of(rows@).len() == expected.len());
                assert forall|i: int| 0 <= i < expected.len() implies #[trigger] table_of(rows@)[i]
                    == expected[i] by {
                    if i == row_id {
                        assert(table_of(rows@)[i] == rows@[i].cells@);
                        assert(table_of(before)[i] == apply_updates(
                            table0[row_id as int],
                            ups.take(k as int),
                        ));
                    } else {
                        assert(table_of(rows@)[i] == rows@[i].cells@);
                        assert(table_of(before)[i] == before[i].cells@);
                    }
                }
                assert(table_of(rows@) =~= table0.update(
                    row_id as int,
                    apply_updates(table0[row_id as int], ups.take(k + 1)),
                ));
            }
            k += 1;
        }
        proof {
            lemma_valid_prefix(cat, plugin_ix as nat, ups, ups.len() as int);
            assert(ups.take(ups.len() as int) =~= ups);
        }
        Ok(())
    }
}

/// A copy of a row patch.
pub fn copy_patch(p: &RowPatch) -> (r: RowPatch)
    ensures
        r.row_id == p.row_id,
        r.updates@ == p.updates@,
{
    let mut updates: Vec<(ColumnIx, CellValue)> = Vec::new();
    let mut i: usize = 0;
    while i < p.updates.len()
        invariant
            i <= p.updates@.len(),
            updates@ == p.updates@.take(i as int),
        decreases p.updates@.len() - i,
    {
        let c = copy_cell(&p.updates[i].1);
        updates.push((p.updates[i].0, c));
        i += 1;
        assert(updates@ =~= p.updates@.take(i as int));
    }
    assert(p.updates@.take(p.updates@.len() as int) =~= p.updates@);
    RowPatch { row_id: p.row_id, updates }
}

impl PluginRegistry {
    /// Merges the patches of a batch in order; the first failing patch is
    /// the error (earlier patches stay merged).
    pub fn merge_batch(&self, rows: &mut Vec<OutputRow>, plugin_ix: PluginIx, batch: MicroBatch) -> (r:
        PluginResult<()>)
        ensures
            final(rows)@.len() == old(rows)@.len(),
            forall|i: int|
                0 <= i < old(rows)@.len() ==> (#[trigger] final(rows)@[i]).row_id == old(rows)@[i].row_id
                    && final(rows)@[i].path == old(rows)@[i].path,
            ({
                let res = merge_batch_result(
                    self.cat(),
                    plugin_ix as nat,
                    table_of(old(rows)@),
                    batch@,
                );
                &&& table_of(final(rows)@) == res.0
                &&& match r {
                    Ok(_) => res.1 is None,
                    Err(e) => res.1 == Some(e@),
                }
            }),
    {
        let ghost cat = self.cat();
        let ghost whole = merge_batch_result(cat, plugin_ix as nat, table_of(rows@), batch@);
        let mut i: usize = 0;
        assert(batch@.skip(0) =~= batch@);
        while i < batch.len()
            invariant
                cat == self.cat(),
                i <= batch@.len(),
                rows@.len() == old(rows)@.len(),
                forall|k: int|
                    0 <= k < rows@.len() ==> (#[trigger] rows@[k]).row_id == old(rows)@[k].row_id
                        && rows@[k].path == old(rows)@[k].path,
                whole == merge_batch_result(cat, plugin_ix as nat, table_of(old(rows)@), batch@),
                whole == merge_batch_result(cat, plugin_ix as nat, table_of(rows@), batch@.skip(i as int)),
            decreases batch@.len() - i,
        {
            let patch = copy_patch(&batch[i]);
            let ghost t = table_of(rows@);
            let ghost rest = batch@.skip(i as int);
            assert(rest[0] == batch@[i as int]);
            assert(rest.drop_first() =~= batch@.skip(i + 1));
            let res = self.merge_patch(rows, plugin_ix, patch);
            match res {
                Ok(_) => {},
                Err(e) => {
                    return Err(e);
                },
            }
            i += 1;
        }
        Ok(())
    }
}

/// The patches of a sequence of batches, in order.
pub open spec fn concat_batches(bs: Seq<Seq<RowPatch>>) -> Seq<RowPatch>
    decreases bs.len(),
{
    if bs.len() == 0 {
        Seq::empty()
    } else {
        concat_batches(bs.drop_last()) + bs.last()
    }
}

/// The views of a sequence of batches.
pub open spec fn batches_view(out: Seq<MicroBatch>) -> Seq<Seq<RowPatch>> {
    out.map_values(|b: MicroBatch| b@)
}

/// The batch size actually used: at least one.
pub open spec fn effective_batch_size(size: usize) -> nat {
    if size == 0 {
        1
    } else {
        size as nat
    }
}

/// Splits `patches` into batches of `size` patches (at least one), in
/// order; only the last batch may be smaller, and no batch is empty.
pub fn microbatch_rows(patches: MicroBatch, size: usize) -> (out: Vec<MicroBatch>)
    ensures
        concat_batches(batches_view(out@)) == patches@,
        forall|j: int|
            0 <= j < out@.len() ==> 0 < (#[trigger] out@[j])@.len() <= effective_batch_size(size),
        forall|j: int| 0 <= j < out@.len() - 1 ==> (#[trigger] out@[j])@.len() == effective_batch_size(size),
{
    let batch_size = if size == 0 {
        1
    } else {
        size
    };
    let ghost all = patches@;
    let mut out: Vec<MicroBatch> = Vec::new();
    let mut current: MicroBatch = Vec::new();
    assert(batches_view(out@) =~= Seq::<Seq<RowPatch>>::empty());
    for patch in it: patches
        invariant
            batch_size == effective_batch_size(size),
            all == it.seq(),
            concat_batches(batches_view(out@)) + current@ == all.take(it.index() as int),
            current@.len() < batch_size,
            forall|j: int| 0 <= j < out@.len() ==> (#[trigger] out@[j])@.len() == batch_size,
    {
        current.push(patch);
        if current.len() >= batch_size {
            let ghost old_out = out@;
            out.push(current);
            current = Vec::new();
            assert(batches_view(out@) =~= batches_view(old_out).push(out@[out@.len() - 1]@));
            assert(batches_view(out@).drop_last() =~= batches_view(old_out));
        }
        assert(all.take(it.index() as int + 1) =~= all.take(it.index() as int).push(patch));
    }
    if current.len() > 0 {
        let ghost old_out = out@;
        out.push(current);
        assert(batches_view(out@).drop_last() =~= batches_view(old_out));
    }
    assert(all.take(all.len() as int) =~= all);
    out
}

/// Whether argument `k` of plugin `p` is set (parsed as `true`).
pub open spec fn arg_on(reg: PluginRegistry, vals: Seq<ArgValueView>, p: int, k: int) -> bool {
    store_bool(vals, reg.arg_cat().slot(p)[k] as int) == Some(true)
}

/// Whether argument `k` of plugin `p` requests column `g`: a set plugin
/// toggle requests every column of the plugin, a set column toggle its one
/// column.
pub open spec fn arg_requests(reg: PluginRegistry, vals: Seq<ArgValueView>, p: int, k: int, g: int) -> bool {
    arg_on(reg, vals, p, k) && match reg.plugs()[p].arg_kinds@[k] {
        ArgKind::PluginToggle { .. } => exists|j: int|
            0 <= j < reg.cat().slot(p).len() && reg.cat().slot(p)[j] == g,
        ArgKind::ColumnToggle { local_col_ix, .. } => local_col_ix < reg.cat().slot(p).len()
            && reg.cat().slot(p)[local_col_ix as int] == g,
        _ => false,
    }
}

/// Whether an argument of one of the first `p0` plugins requests column
/// `g`.
pub open spec fn requested_before(reg: PluginRegistry, vals: Seq<ArgValueView>, p0: int, g: int) -> bool {
    exists|p: int, k: int|
        0 <= p < p0 && 0 <= k < reg.plugs()[p].arg_kinds@.len() && #[trigger] arg_requests(
            reg,
            vals,
            p,
            k,
            g,
        )
}

/// Whether some argument requests column `g`.
pub open spec fn requested_by_args(reg: PluginRegistry, vals: Seq<ArgValueView>, g: int) -> bool {
    requested_before(reg, vals, reg.plugs().len() as int, g)
}

/// Whether one of the first `k0` arguments of plugin `p` is a set plugin
/// toggle.
pub open spec fn plugin_toggled(reg: PluginRegistry, vals: Seq<ArgValueView>, p: int, k0: int) -> bool {
    exists|k: int|
        0 <= k < k0 && #[trigger] arg_on(reg, vals, p, k) && reg.plugs()[p].arg_kinds@[k] is PluginToggle
}

/// Whether one of the first `k0` arguments of plugin `p` is a set column
/// toggle of column `g`.
pub open spec fn column_toggled(reg: PluginRegistry, vals: Seq<ArgValueView>, p: int, k0: int, g: int) -> bool {
    exists|k: int|
        0 <= k < k0 && #[trigger] arg_requests(reg, vals, p, k, g)
            && reg.plugs()[p].arg_kinds@[k] is ColumnToggle
}

impl PluginRegistry {
    /// Adds to `mask` the columns that the plugin arguments request: every
    /// column of a plugin whose toggle is set, and each column whose own
    /// toggle is set.  (An argument id or local column index out of range is
    /// an error; in a well-formed registry neither occurs.)
    pub fn augment_requested_column_mask_from_args(&self, store: &ArgStore, mask: &mut Vec<bool>) -> (r:
        PluginResult<()>)
        requires
            self.wf(),
        ensures
            r is Ok,
            final(mask)@.len() == old(mask)@.len(),
            forall|g: int|
                0 <= g < old(mask)@.len() ==> #[trigger] final(mask)@[g] == (old(mask)@[g]
                    || requested_by_args(*self, store.vals(), g)),
    {
        let ghost reg = *self;
        let ghost vals = store.vals();
        let mut p: usize = 0;
        while p < self.plugins.len()
            invariant
                reg == *self,
                vals == store.vals(),
                self.wf(),
                p <= self.plugs().len(),
                mask@.len() == old(mask)@.len(),
                forall|g: int|
                    0 <= g < mask@.len() ==> #[trigger] mask@[g] == (old(mask)@[g] || requested_before(
                        reg,
                        vals,
                        p as int,
                        g,
                    )),
            decreases self.plugs().len() - p,
        {
            let ghost mask_p = mask@;
            let mut enable_all = false;
            let arg_ids = self.args.plugin_args(p);
            let cols = self.columns.plugin_columns(p);
            let mut k: usize = 0;
            while k < arg_ids.len()
                invariant
                    reg == *self,
                    vals == store.vals(),
                    self.wf(),
                    p < self.plugs().len(),
                    arg_ids@ == self.arg_cat().slot(p as int),
                    cols@ == self.cat().slot(p as int),
                    k <= arg_ids@.len(),
                    mask@.len() == mask_p.len(),
                    enable_all == plugin_toggled(reg, vals, p as int, k as int),
                    forall|g: int|
                        0 <= g < mask@.len() ==> #[trigger] mask@[g] == (mask_p[g] || column_toggled(
                            reg,
                            vals,
                            p as int,
                            k as int,
                            g,
                        )),
                decreases arg_ids@.len() - k,
            {
                let arg_id = arg_ids[k];
                let entries = self.args.entries();
                if arg_id >= entries.len() {
                    let mut msg = chars_of("unknown arg id: ");
                    push_usize(&mut msg, arg_id);
                    return Err(string_of(&msg));
                }
                let kind = entries[arg_id].kind;
                assert(kind == self.plugs()[p as int].arg_kinds@[k as int]);
                let enabled = match store.bool(arg_id) {
                    Some(b) => b,
                    None => false,
                };
                assert(enabled == arg_on(reg, vals, p as int, k as int));
                let ghost mask_k = mask@;
                match kind {
                    ArgKind::PluginToggle { .. } => {
                        if enabled {
                            enable_all = true;
                        }
                    },
                    ArgKind::ColumnToggle { local_col_ix, .. } => {
                        if enabled {
                            assert(arg_kind_fits(
                                self.plugs()[p as int].arg_kinds@[k as int],
                                self.plugs()[p as int].column_decls@,
                            ));
                            if local_col_ix >= cols.len() {
                                let mut msg = chars_of("plugin '");
                                extend_chars(&mut msg, &chars_of(self.plugins[p].id));
                                extend_chars(&mut msg, &chars_of("' references invalid local column index "));
                                push_usize(&mut msg, local_col_ix);
                                return Err(string_of(&msg));
                            }
                            let global_ix = cols[local_col_ix];
                            if global_ix < mask.len() {
                                mask.set(global_ix, true);
                            }
                        }
                    },
                    _ => {},
                }
                proof {
                    assert forall|g: int| 0 <= g < mask@.len() implies #[trigger] mask@[g] == (
                    mask_p[g] || column_toggled(reg, vals, p as int, k + 1, g)) by {
                        if column_toggled(reg, vals, p as int, k + 1, g) {
                            let k2 = choose|k2: int|
                                0 <= k2 < k + 1 && #[trigger] arg_requests(reg, vals, p as int, k2, g)
                                    && reg.plugs()[p as int].arg_kinds@[k2] is ColumnToggle;
                            if k2 < k {
                                assert(column_toggled(reg, vals, p as int, k as int, g));
                            }
                        }
                        if column_toggled(reg, vals, p as int, k as int, g) {
                            let k2 = choose|k2: int|
                                0 <= k2 < k && #[trigger] arg_requests(reg, vals, p as int, k2, g)
                                    && reg.plugs()[p as int].arg_kinds@[k2] is ColumnToggle;
                            assert(0 <= k2 < k + 1);
                        }
                        if mask@[g] != mask_k[g] {
                            assert(arg_requests(reg, vals, p as int, k as int, g));
                        }
                    }
                    if plugin_toggled(reg, vals, p as int, k + 1) {
                        let k2 = choose|k2: int|
                            0 <= k2 < k + 1 && #[trigger] arg_on(reg, vals, p as int, k2)
                                && reg.plugs()[p as int].arg_kinds@[k2] is PluginToggle;
                        if k2 < k {
                            assert(plugin_toggled(reg, vals, p as int, k as int));
                        }
                    }
                    if plugin_toggled(reg, vals, p as int, k as int) {
                        let k2 = choose|k2: int|
                            0 <= k2 < k && #[trigger] arg_on(reg, vals, p as int, k2)
                                && reg.plugs()[p as int].arg_kinds@[k2] is PluginToggle;
                        assert(0 <= k2 < k + 1);
                    }
                }
                k += 1;
            }
            let ghost mask_t = mask@;
            if enable_all {
                let mut j: usize = 0;
                while j < cols.len()
                    invariant
                        j <= cols@.len(),
                        cols@ == self.cat().slot(p as int),
                        mask@.len() == mask_t.len(),
                        forall|g: int|
                            0 <= g < mask@.len() ==> #[trigger] mask@[g] == (mask_t[g] || exists|j2: int|
                                0 <= j2 < j && cols@[j2] == g),
                    decreases cols@.len() - j,
                {
                    let global_ix = cols[j];
                    let ghost before = mask@;
                    if global_ix < mask.len() {
                        mask.set(global_ix, true);
                    }
                    proof {
                        assert forall|g: int| 0 <= g < mask@.len() implies #[trigger] mask@[g] == (
                        mask_t[g] || exists|j2: int| 0 <= j2 < j + 1 && cols@[j2] == g) by {
                            if exists|j2: int| 0 <= j2 < j + 1 && cols@[j2] == g {
                                let j2 = choose|j2: int| 0 <= j2 < j + 1 && cols@[j2] == g;
                                if j2 < j {
                                    assert(exists|j3: int| 0 <= j3 < j && cols@[j3] == g);
                                }
                            }
                            if exists|j2: int| 0 <= j2 < j && cols@[j2] == g {
                                let j2 = choose|j2: int| 0 <= j2 < j && cols@[j2] == g;
                                assert(0 <= j2 < j + 1 && cols@[j2] == g);
                            }
                            if mask@[g] != before[g] {
                                assert(cols@[j as int] == g);
                            }
                        }
                    }
                    j += 1;
                }
            }
            proof {
                let n_args = reg.plugs()[p as int].arg_kinds@.len() as int;
                assert(arg_ids@.len() == n_args);
                assert forall|g: int| 0 <= g < mask@.len() implies #[trigger] mask@[g] == (old(mask)@[g]
                    || requested_before(reg, vals, p + 1, g)) by {
                    let toggled = plugin_toggled(reg, vals, p as int, n_args);
                    let in_slot = exists|j2: int| 0 <= j2 < cols@.len() && cols@[j2] == g;
                    assert(mask@[g] == (mask_p[g] || column_toggled(reg, vals, p as int, n_args, g)
                        || (toggled && in_slot)));
                    if requested_before(reg, vals, p + 1, g) {
                        let (p2, k2) = choose|p2: int, k2: int|
                            0 <= p2 < p + 1 && 0 <= k2 < reg.plugs()[p2].arg_kinds@.len()
                                && #[trigger] arg_requests(reg, vals, p2, k2, g);
                        if p2 < p {
                            assert(requested_before(reg, vals, p as int, g));
                        } else {
                            match reg.plugs()[p as int].arg_kinds@[k2] {
                                ArgKind::PluginToggle { .. } => {
                                    assert(arg_on(reg, vals, p as int, k2));
                                    assert(toggled);
                                    let j2 = choose|j2: int|
                                        0 <= j2 < reg.cat().slot(p as int).len()
                                            && reg.cat().slot(p as int)[j2] == g;
                                    assert(cols@[j2] == g);
                                },
                                ArgKind::ColumnToggle { .. } => {
                                    assert(column_toggled(reg, vals, p as int, n_args, g));
                                },
                                _ => {},
                            }
                        }
                    }
                    if requested_before(reg, vals, p as int, g) {
                        let (p2, k2) = choose|p2: int, k2: int|
                            0 <= p2 < p && 0 <= k2 < reg.plugs()[p2].arg_kinds@.len()
                                && #[trigger] arg_requests(reg, vals, p2, k2, g);
                        assert(0 <= p2 < p + 1);
                    }
                    if column_toggled(reg, vals, p as int, n_args, g) {
                        let k2 = choose|k2: int|
                            0 <= k2 < n_args && #[trigger] arg_requests(reg, vals, p as int, k2, g)
                                && reg.plugs()[p as int].arg_kinds@[k2] is ColumnToggle;
                        assert(0 <= p < p + 1);
                    }
                    if toggled && in_slot {
                        let k2 = choose|k2: int|
                            0 <= k2 < n_args && #[trigger] arg_on(reg, vals, p as int, k2)
                                && reg.plugs()[p as int].arg_kinds@[k2] is PluginToggle;
                        let j2 = choose|j2: int| 0 <= j2 < cols@.len() && cols@[j2] == g;
                        assert(reg.cat().slot(p as int)[j2] == g);
                        assert(arg_requests(reg, vals, p as int, k2, g));
                    }
                }
            }
            p += 1;
        }
        Ok(())
    }
}

/// The columns of plugin slot `p`, none for an unknown plugin.
pub open spec fn plugin_slot(cat: ColumnCatalog, p: int) -> Seq<ColumnIx> {
    if 0 <= p < cat.by_plugin@.len() {
        cat.slot(p)
    } else {
        Seq::empty()
    }
}

/// The requested columns among the first `k` columns of a slot, as
/// `(local index, global index)` pairs in order.
pub open spec fn requested_pairs(slot: Seq<ColumnIx>, mask: Seq<bool>, k: int) -> Seq<(usize, ColumnIx)>
    decreases k,
{
    if k <= 0 {
        Seq::empty()
    } else {
        let prev = requested_pairs(slot, mask, k - 1);
        let ix = slot[k - 1];
        if ix < mask.len() && mask[ix as int] {
            prev.push(((k - 1) as usize, ix))
        } else {
            prev
        }
    }
}

/// The work items a plugin applies to, in order.
pub open spec fn applicable(items: Seq<RepoWorkItem>, scope: RepoScope) -> Seq<RepoWorkItem>
    decreases items.len(),
{
    if items.len() == 0 {
        Seq::empty()
    } else {
        let prev = applicable(items.drop_last(), scope);
        if scope_applies(scope, items.last().repo) {
            prev.push(items.last())
        } else {
            prev
        }
    }
}

/// A copy of a work item.
pub fn copy_item(item: &RepoWorkItem) -> (r: RepoWorkItem)
    ensures
        r == *item,
{
    RepoWorkItem { row_id: item.row_id, path: item.path.clone(), repo: item.repo }
}

/// One plugin run: the plugin, the work items it applies to, the requested
/// columns as `(local, global)` pairs, and the largest microbatch.
pub struct PluginJob {
    pub plugin_ix: PluginIx,
    pub items: Vec<RepoWorkItem>,
    pub requested_columns: Vec<(usize, ColumnIx)>,
    pub microbatch_rows: usize,
}

/// The next step of running the selected plugins.
pub enum PluginStep {
    /// Every selected plugin has been considered.
    Finished,
    /// A selected plugin index or its configuration is missing.
    Failed(String),
    /// Run this job, then continue from position `next`.
    Run { job: PluginJob, next: usize },
}

/// The view of a plugin step.
pub enum PluginStepView {
    Finished,
    Failed(Seq<char>),
    Run {
        plugin_ix: PluginIx,
        items: Seq<RepoWorkItem>,
        requested: Seq<(usize, ColumnIx)>,
        microbatch_rows: usize,
        next: nat,
    },
}

impl PluginStep {
    pub open spec fn view(&self) -> PluginStepView {
        match self {
            PluginStep::Finished => PluginStepView::Finished,
            PluginStep::Failed(e) => PluginStepView::Failed(e@),
            PluginStep::Run { job, next } => PluginStepView::Run {
                plugin_ix: job.plugin_ix,
                items: job.items@,
                requested: job.requested_columns@,
                microbatch_rows: job.microbatch_rows,
                next: *next as nat,
            },
        }
    }
}

/// The step from position `pos` of the selected plugins: skip plugins that
/// are disabled, have no requested column or apply to no item; fail on an
/// unknown plugin index or a missing configuration.
pub open spec fn plugin_step_from(
    reg: PluginRegistry,
    pos: int,
    items: Seq<RepoWorkItem>,
    selected: Seq<PluginIx>,
    configs: Seq<PluginConfig>,
    mask: Seq<bool>,
    microbatch_rows: usize,
) -> PluginStepView
    decreases selected.len() - pos,
{
    if pos < 0 || pos >= selected.len() {
        PluginStepView::Finished
    } else {
        let p = selected[pos];
        if p >= reg.plugs().len() {
            PluginStepView::Failed("unknown plugin index: "@ + decimal(p as nat))
        } else if p >= configs.len() {
            PluginStepView::Failed("missing config for plugin index: "@ + decimal(p as nat))
        } else {
            let slot = plugin_slot(reg.cat(), p as int);
            let req = requested_pairs(slot, mask, slot.len() as int);
            let app = applicable(items, reg.plugs()[p as int].scope);
            if !configs[p as int].enabled || req.len() == 0 || app.len() == 0 {
                plugin_step_from(reg, pos + 1, items, selected, configs, mask, microbatch_rows)
            } else {
                PluginStepView::Run {
                    plugin_ix: p,
                    items: app,
                    requested: req,
                    microbatch_rows,
                    next: (pos + 1) as nat,
                }
            }
        }
    }
}

impl PluginRegistry {
    /// The requested columns of plugin `plugin_ix` as `(local, global)`
    /// pairs, in the plugin's column order.
    pub fn requested_columns_for_plugin(&self, plugin_ix: PluginIx, mask: &Vec<bool>) -> (r: Vec<
        (usize, ColumnIx),
    >)
        ensures
            r@ == requested_pairs(
                plugin_slot(self.cat(), plugin_ix as int),
                mask@,
                plugin_slot(self.cat(), plugin_ix as int).len() as int,
            ),
    {
        let cols = self.columns.plugin_columns(plugin_ix);
        let mut r: Vec<(usize, ColumnIx)> = Vec::new();
        let mut k: usize = 0;
        while k < cols.len()
            invariant
                cols@ == plugin_slot(self.cat(), plugin_ix as int),
                k <= cols@.len(),
                r@ == requested_pairs(cols@, mask@, k as int),
            decreases cols@.len() - k,
        {
            let ix = cols[k];
            if ix < mask.len() && mask[ix] {
                r.push((k, ix));
            }
            k += 1;
        }
        r
    }

    /// The work items `plugin_ix` applies to.
    fn applicable_items(&self, plugin_ix: PluginIx, items: &Vec<RepoWorkItem>) -> (r: Vec<RepoWorkItem>)
        requires
            plugin_ix < self.plugs().len(),
        ensures
            r@ == applicable(items@, self.plugs()[plugin_ix as int].scope),
    {
        let mut r: Vec<RepoWorkItem> = Vec::new();
        let mut i: usize = 0;
        while i < items.len()
            invariant
                plugin_ix < self.plugs().len(),
                i <= items@.len(),
                r@ == applicable(items@.take(i as int), self.plugs()[plugin_ix as int].scope),
            decreases items@.len() - i,
        {
            assert(items@.take(i + 1).drop_last() =~= items@.take(i as int));
            if self.plugins[plugin_ix].applies_to(&items[i].repo) {
                r.push(copy_item(&items[i]));
            }
            i += 1;
        }
        assert(items@.take(items@.len() as int) =~= items@);
        r
    }

    /// The next plugin run, starting at position `from` of the selected
    /// plugins.
    pub fn next_plugin_job(
        &self,
        from: usize,
        items: &Vec<RepoWorkItem>,
        selected_plugin_indexes: &Vec<PluginIx>,
        configs: &Vec<PluginConfig>,
        requested_column_mask: &Vec<bool>,
        microbatch_rows: usize,
    ) -> (r: PluginStep)
        ensures
            r.view() == plugin_step_from(
                *self,
                from as int,
                items@,
                selected_plugin_indexes@,
                configs@,
                requested_column_mask@,
                microbatch_rows,
            ),
    {
        let mut pos = from;
        while pos < selected_plugin_indexes.len()
            invariant
                from <= pos,
                plugin_step_from(
                    *self,
                    from as int,
                    items@,
                    selected_plugin_indexes@,
                    configs@,
                    requested_column_mask@,
                    microbatch_rows,
                ) == plugin_step_from(
                    *self,
                    pos as int,
                    items@,
                    selected_plugin_indexes@,
                    configs@,
                    requested_column_mask@,
                    microbatch_rows,
                ),
            decreases selected_plugin_indexes@.len() - pos,
        {
            let plugin_ix = selected_plugin_indexes[pos];
            if plugin_ix >= self.plugins.len() {
                let mut msg = chars_of("unknown plugin index: ");
                push_usize(&mut msg, plugin_ix);
                return PluginStep::Failed(string_of(&msg));
            }
            if plugin_ix >= configs.len() {
                let mut msg = chars_of("missing config for plugin index: ");
                push_usize(&mut msg, plugin_ix);
                return PluginStep::Failed(string_of(&msg));
            }
            if configs[plugin_ix].enabled {
                let requested_columns = self.requested_columns_for_plugin(
                    plugin_ix,
                    requested_column_mask,
                );
                if requested_columns.len() > 0 {
                    let applicable_items = self.applicable_items(plugin_ix, items);
                    if applicable_items.len() > 0 {
                        return PluginStep::Run {
                            job: PluginJob {
                                plugin_ix,
                                items: applicable_items,
                                requested_columns,
                                microbatch_rows,
                            },
                            next: pos + 1,
                        };
                    }
                }
            }
            pos += 1;
        }
        PluginStep::Finished
    }
}

/// The column selected for local column `local` by the requested pairs: the
/// global index of the last pair naming it.
pub open spec fn selected_global(req: Seq<(usize, ColumnIx)>, local: int) -> Option<ColumnIx>
    decreases req.len(),
{
    if req.len() == 0 {
        None
    } else if req.last().0 == local {
        Some(req.last().1)
    } else {
        selected_global(req.drop_last(), local)
    }
}

/// The sub-processors that have a requested column, with that column, in
/// sub-processor order.
pub open spec fn subprocessor_targets_of(subs: Seq<SubProcessor>, req: Seq<(usize, ColumnIx)>) -> Seq<
    (SubProcessor, ColumnIx),
>
    decreases subs.len(),
{
    if subs.len() == 0 {
        Seq::empty()
    } else {
        let prev = subprocessor_targets_of(subs.drop_last(), req);
        match selected_global(req, subs.last().local_col_ix as int) {
            Some(g) => prev.push((subs.last(), g)),
            None => prev,
        }
    }
}

impl PluginRegistry {
    /// The sub-processors of a job's plugin that have a requested column,
    /// each with the global index of that column.
    pub fn subprocessor_targets(&self, job: &PluginJob) -> (r: Vec<(SubProcessor, ColumnIx)>)
        requires
            self.wf(),
            job.plugin_ix < self.plugs().len(),
        ensures
            r@ == subprocessor_targets_of(
                self.plugs()[job.plugin_ix as int].subprocessors@,
                job.requested_columns@,
            ),
    {
        let plugin = &self.plugins[job.plugin_ix];
        assert(plugin_consistent(self.plugs()[job.plugin_ix as int]));
        let n = plugin.column_decls.len();
        let mut selected: Vec<Option<ColumnIx>> = Vec::new();
        let mut l: usize = 0;
        while l < n
            invariant
                l <= n,
                selected@ == Seq::new(l as nat, |i: int| None::<ColumnIx>),
            decreases n - l,
        {
            selected.push(None);
            l += 1;
            assert(selected@ =~= Seq::new(l as nat, |i: int| None::<ColumnIx>));
        }
        let req = &job.requested_columns;
        let mut q: usize = 0;
        while q < req.len()
            invariant
                q <= req@.len(),
                selected@.len() == n,
                forall|loc: int| 0 <= loc < n ==> #[trigger] selected@[loc] == selected_global(
                    req@.take(q as int),
                    loc,
                ),
            decreases req@.len() - q,
        {
            let (local, global) = req[q];
            if local < selected.len() {
                selected.set(local, Some(global));
            }
            proof {
                assert(req@.take(q + 1).drop_last() =~= req@.take(q as int));
                assert(req@.take(q + 1).last() == req@[q as int]);
            }
            q += 1;
        }
        assert(req@.take(req@.len() as int) =~= req@);
        let subs = &plugin.subprocessors;
        let mut r: Vec<(SubProcessor, ColumnIx)> = Vec::new();
        let mut k: usize = 0;
        while k < subs.len()
            invariant
                k <= subs@.len(),
                subs@ == self.plugs()[job.plugin_ix as int].subprocessors@,
                n == self.plugs()[job.plugin_ix as int].column_decls@.len(),
                plugin_consistent(self.plugs()[job.plugin_ix as int]),
                selected@.len() == n,
                forall|loc: int| 0 <= loc < n ==> #[trigger] selected@[loc] == selected_global(req@, loc),
                r@ == subprocessor_targets_of(subs@.take(k as int), req@),
            decreases subs@.len() - k,
        {
            let sp = subs[k];
            assert(subs@.take(k + 1).drop_last() =~= subs@.take(k as int));
            assert(sp.local_col_ix < n);
            match selected[sp.local_col_ix] {
                Some(g) => {
                    r.push((sp, g));
                },
                None => {},
            }
            k += 1;
        }
        assert(subs@.take(subs@.len() as int) =~= subs@);
        r
    }
}

/// The patches of one sub-processor: for each work item, in order, its row
/// with the collected cell in column `global_col_ix`.
pub fn collect_subprocessor_batches(
    items: &Vec<RepoWorkItem>,
    global_col_ix: ColumnIx,
    cells: Vec<CellValue>,
) -> (r: MicroBatch)
    requires
        cells@.len() == items@.len(),
    ensures
        r@.len() == items@.len(),
        forall|i: int|
            0 <= i < r@.len() ==> (#[trigger] r@[i]).row_id == items@[i].row_id && r@[i].updates@
                == seq![(global_col_ix, cells@[i])],
{
    let mut r: MicroBatch = Vec::new();
    let mut i: usize = 0;
    while i < items.len()
        invariant
            i <= items@.len(),
            cells@.len() == items@.len(),
            r@.len() == i,
            forall|k: int|
                0 <= k < i ==> (#[trigger] r@[k]).row_id == items@[k].row_id && r@[k].updates@
                    == seq![(global_col_ix, cells@[k])],
        decreases items@.len() - i,
    {
        let c = copy_cell(&cells[i]);
        let updates = vec![(global_col_ix, c)];
        assert(updates@ =~= seq![(global_col_ix, cells@[i as int])]);
        r.push(RowPatch { row_id: items[i].row_id, updates });
        i += 1;
    }
    r
}

/// The microbatches of one sub-processor of a job.
pub fn job_batches(job: &PluginJob, global_col_ix: ColumnIx, cells: Vec<CellValue>) -> (out: Vec<
    MicroBatch,
>)
    requires
        cells@.len() == job.items@.len(),
    ensures
        concat_batches(batches_view(out@)).len() == job.items@.len(),
        forall|i: int|
            0 <= i < job.items@.len() ==> (#[trigger] concat_batches(batches_view(out@))[i]).row_id
                == job.items@[i].row_id && concat_batches(batches_view(out@))[i].updates@ == seq![
                (global_col_ix, cells@[i]),
            ],
        forall|j: int|
            0 <= j < out@.len() ==> 0 < (#[trigger] out@[j])@.len() <= effective_batch_size(
                job.microbatch_rows,
            ),
        forall|j: int|
            0 <= j < out@.len() - 1 ==> (#[trigger] out@[j])@.len() == effective_batch_size(
                job.microbatch_rows,
            ),
{
    let patches = collect_subprocessor_batches(&job.items, global_col_ix, cells);
    microbatch_rows(patches, job.microbatch_rows)
}

/// The status of a repository as the `status` column shows it: `git`,
/// `jj`, `worktree-git`, `worktree-jj` or `none`.
pub open spec fn status_text(repo: RepoInfo) -> Seq<char> {
    match repo.repo_type {
        RepoType::Git => if repo.is_worktree {
            "worktree-git"@
        } else {
            "git"@
        },
        RepoType::Jujutsu => if repo.is_worktree {
            "worktree-jj"@
        } else {
            "jj"@
        },
        RepoType::NoRepo => "none"@,
    }
}

/// The cell of the status column.
pub fn status_cell(repo: &RepoInfo) -> (r: CellValue)
    ensures
        r matches CellValue::Text(s) && s@ == status_text(*repo),
{
    let text = match repo.repo_type {
        RepoType::Git => if repo.is_worktree {
            "worktree-git"
        } else {
            "git"
        },
        RepoType::Jujutsu => if repo.is_worktree {
            "worktree-jj"
        } else {
            "jj"
        },
        RepoType::NoRepo => "none",
    };
    CellValue::Text(text.to_owned())
}

/// The cell of the directory column: the path of the work item.
pub fn directory_cell(item: &RepoWorkItem) -> (r: CellValue)
    ensures
        r == CellValue::Text(item.path),
{
    CellValue::Text(item.path.clone())
}

/// The cell of the ahead column: the count, or empty when unknown.
pub fn jj_collect_ahead(ahead: Option<isize>) -> (r: CellValue)
    ensures
        r == match ahead {
            Some(n) => CellValue::Number(n),
            None => CellValue::Empty,
        },
{
    match ahead {
        Some(n) => CellValue::Number(n),
        None => CellValue::Empty,
    }
}

/// The cell of the beads last-change column: the text, or empty when
/// unknown.
pub fn beads_collect_last_changed(last_changed: Option<String>) -> (r: CellValue)
    ensures
        r == match last_changed {
            Some(s) => CellValue::Text(s),
            None => CellValue::Empty,
        },
{
    match last_changed {
        Some(s) => CellValue::Text(s),
        None => CellValue::Empty,
    }
}

} // verus!
