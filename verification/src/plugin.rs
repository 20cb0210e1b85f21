//! The data model shared by the detector plugins: work items, cells,
//! column and argument catalogs, row patches, and plugin configuration.
use vstd::prelude::*;
use std::collections::HashMap;
use crate::repo::RepoInfo;

verus! {

/// The index of an output row.
pub type RowId = usize;

/// The index of a registered plugin.
pub type PluginIx = usize;

/// The index of a registered column.
pub type ColumnIx = usize;

/// The index of a registered argument.
pub type ArgId = usize;

/// One directory to report on: its row, its path and its classification.
#[derive(Debug, Clone, PartialEq, Eq)]
pub struct RepoWorkItem {
    pub row_id: RowId,
    pub path: String,
    pub repo: RepoInfo,
}

/// The value of one table cell.
#[derive(Debug, Clone, PartialEq, Eq)]
pub enum CellValue {
    Text(String),
    Number(isize),
    Empty,
}

/// A copy of a cell.
pub fn copy_cell(c: &CellValue) -> (r: CellValue)
    ensures
        r == *c,
{
    match c {
        CellValue::Text(s) => CellValue::Text(s.clone()),
        CellValue::Number(n) => CellValue::Number(*n),
        CellValue::Empty => CellValue::Empty,
    }
}

/// A column as a plugin declares it.
#[derive(Debug, Clone, Copy, PartialEq, Eq)]
pub struct ColumnDecl {
    pub key: &'static str,
    pub title: &'static str,
    pub description: &'static str,
    pub sortable: bool,
    pub default_in_base_format: bool,
}

/// A registered column: its declaration, its global index and the plugin
/// that owns it.
#[derive(Debug, Clone, Copy, PartialEq, Eq)]
pub struct ColumnSpec {
    pub ix: ColumnIx,
    pub key: &'static str,
    pub owner_plugin_ix: PluginIx,
    pub title: &'static str,
    pub description: &'static str,
    pub sortable: bool,
    pub default_in_base_format: bool,
}

/// All registered columns, in registration order, and the columns of each
/// plugin slot.
#[derive(Debug, Clone, PartialEq, Eq)]
pub struct ColumnCatalog {
    pub columns: Vec<ColumnSpec>,
    pub by_plugin: Vec<Vec<ColumnIx>>,
}

/// The spec a declaration gets when registered at `ix` for `plugin_ix`.
pub open spec fn spec_of_decl(decl: ColumnDecl, ix: nat, plugin_ix: nat) -> ColumnSpec {
    ColumnSpec {
        ix: ix as usize,
        key: decl.key,
        owner_plugin_ix: plugin_ix as usize,
        title: decl.title,
        description: decl.description,
        sortable: decl.sortable,
        default_in_base_format: decl.default_in_base_format,
    }
}

impl ColumnCatalog {
    /// The column specs.
    pub open spec fn cols(&self) -> Seq<ColumnSpec> {
        self.columns@
    }

    /// The global indices of the columns of plugin slot `p`.
    pub open spec fn slot(&self, p: int) -> Seq<ColumnIx> {
        self.by_plugin@[p]@
    }

    /// Whether some column has key `key`.
    pub open spec fn has_key(&self, key: Seq<char>) -> bool {
        exists|i: int| 0 <= i < self.cols().len() && (#[trigger] self.cols()[i]).key@ == key
    }

    /// Well-formedness: every column sits at its own index and belongs to an
    /// existing plugin slot; keys are unique; each slot lists, in increasing
    /// order, exactly the columns its plugin owns.
    pub open spec fn wf(&self) -> bool {
        &&& forall|i: int|
            0 <= i < self.cols().len() ==> (#[trigger] self.cols()[i]).ix == i
                && self.cols()[i].owner_plugin_ix < self.by_plugin@.len()
        &&& forall|i: int, j: int|
            0 <= i < j < self.cols().len() ==> (#[trigger] self.cols()[i]).key@
                != (#[trigger] self.cols()[j]).key@
        &&& forall|p: int, k: int|
            0 <= p < self.by_plugin@.len() && 0 <= k < self.slot(p).len() ==> #[trigger] self.slot(
                p,
            )[k] < self.cols().len() && self.cols()[self.slot(p)[k] as int].owner_plugin_ix == p
        &&& forall|p: int, k1: int, k2: int|
            0 <= p < self.by_plugin@.len() && 0 <= k1 < k2 < self.slot(p).len() ==> #[trigger] self.slot(
                p,
            )[k1] < #[trigger] self.slot(p)[k2]
        &&& forall|i: int|
            0 <= i < self.cols().len() ==> self.slot(
                (#[trigger] self.cols()[i]).owner_plugin_ix as int,
            ).contains(i as usize)
    }

    /// An empty catalog.
    pub fn new() -> (r: Self)
        ensures
            r.wf(),
            r.cols().len() == 0,
            r.by_plugin@.len() == 0,
    {
        ColumnCatalog { columns: Vec::new(), by_plugin: Vec::new() }
    }

    /// Adds an empty slot for the next plugin.
    pub fn register_plugin_slot(&mut self)
        requires
            old(self).wf(),
        ensures
            final(self).wf(),
            final(self).cols() == old(self).cols(),
            final(self).by_plugin@.len() == old(self).by_plugin@.len() + 1,
            forall|p: int| 0 <= p < old(self).by_plugin@.len() ==> final(self).slot(p) == old(self).slot(p),
            final(self).slot(old(self).by_plugin@.len() as int).len() == 0,
    {
        let ghost old_cat = *self;
        self.by_plugin.push(Vec::new());
        proof {
            assert(self.cols() == old_cat.cols());
            assert forall|p: int, k: int|
                0 <= p < self.by_plugin@.len() && 0 <= k < self.slot(p).len() implies #[trigger] self.slot(
                p,
            )[k] < self.cols().len() && self.cols()[self.slot(p)[k] as int].owner_plugin_ix
                == p by {
                assert(p < old_cat.by_plugin@.len());
                assert(self.slot(p) == old_cat.slot(p));
            }
            assert forall|i: int| 0 <= i < self.cols().len() implies self.slot(
                (#[trigger] self.cols()[i]).owner_plugin_ix as int,
            ).contains(i as usize) by {
                assert(old_cat.cols()[i] == self.cols()[i]);
                assert(self.slot(self.cols()[i].owner_plugin_ix as int) == old_cat.slot(
                    self.cols()[i].owner_plugin_ix as int,
                ));
            }
        }
    }

    /// Registers `decl` as the next column, owned by `plugin_ix`.  Keys must
    /// be unique and the slot must exist (the registry checks both).
    pub fn push_column(&mut self, plugin_ix: PluginIx, decl: ColumnDecl)
        requires
            old(self).wf(),
            plugin_ix < old(self).by_plugin@.len(),
            !old(self).has_key(decl.key@),
        ensures
            final(self).wf(),
            final(self).cols() == old(self).cols().push(
                spec_of_decl(decl, old(self).cols().len(), plugin_ix as nat),
            ),
            final(self).by_plugin@.len() == old(self).by_plugin@.len(),
            final(self).slot(plugin_ix as int) == old(self).slot(plugin_ix as int).push(
                old(self).cols().len() as usize,
            ),
            forall|p: int|
                0 <= p < old(self).by_plugin@.len() && p != plugin_ix ==> final(self).slot(p)
                    == old(self).slot(p),
    {
        let ghost old_cat = *self;
        let ix = self.columns.len();
        self.columns.push(
            ColumnSpec {
                ix,
                key: decl.key,
                owner_plugin_ix: plugin_ix,
                title: decl.title,
                description: decl.description,
                sortable: decl.sortable,
                default_in_base_format: decl.default_in_base_format,
            },
        );
        self.by_plugin[plugin_ix].push(ix);
        proof {
            assert forall|i: int| 0 <= i < self.cols().len() implies (#[trigger] self.cols()[i]).ix
                == i && self.cols()[i].owner_plugin_ix < self.by_plugin@.len() by {
                if i < ix {
                    assert(old_cat.cols()[i] == self.cols()[i]);
                }
            }
            assert forall|i: int, j: int|
                0 <= i < j < self.cols().len() implies (#[trigger] self.cols()[i]).key@
                != (#[trigger] self.cols()[j]).key@ by {
                assert(old_cat.cols()[i] == self.cols()[i]);
                if j == ix {
                    assert(old_cat.cols()[i].key@ != decl.key@);
                } else {
                    assert(old_cat.cols()[j] == self.cols()[j]);
                }
            }
            assert forall|p: int, k: int|
                0 <= p < self.by_plugin@.len() && 0 <= k < self.slot(p).len() implies #[trigger] self.slot(
                p,
            )[k] < self.cols().len() && self.cols()[self.slot(p)[k] as int].owner_plugin_ix
                == p by {
                if p != plugin_ix || k < old_cat.slot(p).len() {
                    assert(self.slot(p)[k] == old_cat.slot(p)[k]);
                }
            }
            assert forall|p: int, k1: int, k2: int|
                0 <= p < self.by_plugin@.len() && 0 <= k1 < k2 < self.slot(
                    p,
                ).len() implies #[trigger] self.slot(p)[k1] < #[trigger] self.slot(p)[k2] by {
                if p == plugin_ix {
                    assert(self.slot(p)[k1] == old_cat.slot(p)[k1]);
                    if k2 < old_cat.slot(p).len() {
                        assert(self.slot(p)[k2] == old_cat.slot(p)[k2]);
                    }
                } else {
                    assert(self.slot(p) == old_cat.slot(p));
                }
            }
            assert forall|i: int| 0 <= i < self.cols().len() implies self.slot(
                (#[trigger] self.cols()[i]).owner_plugin_ix as int,
            ).contains(i as usize) by {
                let o = self.cols()[i].owner_plugin_ix as int;
                if i == ix {
                    assert(self.slot(o)[self.slot(o).len() - 1] == ix);
                } else {
                    assert(old_cat.cols()[i] == self.cols()[i]);
                    assert(old_cat.slot(o).contains(i as usize));
                    let k = choose|k: int|
                        0 <= k < old_cat.slot(o).len() && old_cat.slot(o)[k] == i as usize;
                    assert(self.slot(o)[k] == i as usize);
                }
            }
        }
    }

    /// The index of the column with key `key`.
    pub fn column_ix(&self, key: &str) -> (r: Option<ColumnIx>)
        ensures
            match r {
                Some(i) => i < self.cols().len() && self.cols()[i as int].key@ == key@ && forall|
                    j: int,
                | 0 <= j < i ==> (#[trigger] self.cols()[j]).key@ != key@,
                None => !self.has_key(key@),
            },
    {
        let mut i: usize = 0;
        while i < self.columns.len()
            invariant
                i <= self.cols().len(),
                forall|j: int| 0 <= j < i ==> (#[trigger] self.cols()[j]).key@ != key@,
            decreases self.cols().len() - i,
        {
            if crate::text::str_eq(self.columns[i].key, key) {
                return Some(i);
            }
            i += 1;
        }
        None
    }

    /// The global indices of the columns of plugin `plugin_ix` (none for an
    /// unknown plugin).
    pub fn plugin_columns(&self, plugin_ix: PluginIx) -> (r: &[ColumnIx])
        ensures
            r@ == if plugin_ix < self.by_plugin@.len() {
                self.slot(plugin_ix as int)
            } else {
                Seq::<ColumnIx>::empty()
            },
    {
        if plugin_ix < self.by_plugin.len() {
            self.by_plugin[plugin_ix].as_slice()
        } else {
            &[]
        }
    }

    /// The number of registered columns.
    pub fn len(&self) -> (r: usize)
        ensures
            r == self.cols().len(),
    {
        self.columns.len()
    }
}

/// One output row: the cells of a work item, one per registered column.
#[derive(Debug, Clone, PartialEq, Eq)]
pub struct OutputRow {
    pub row_id: RowId,
    pub path: String,
    pub cells: Vec<CellValue>,
}

impl OutputRow {
    /// A row of `width` empty cells.
    pub fn new(row_id: RowId, path: String, width: usize) -> (r: Self)
        ensures
            r.row_id == row_id,
            r.path == path,
            r.cells@ == Seq::new(width as nat, |i: int| CellValue::Empty),
    {
        let mut cells: Vec<CellValue> = Vec::new();
        let mut i: usize = 0;
        while i < width
            invariant
                i <= width,
                cells@ == Seq::new(i as nat, |k: int| CellValue::Empty),
            decreases width - i,
        {
            cells.push(CellValue::Empty);
            i += 1;
            assert(cells@ =~= Seq::new(i as nat, |k: int| CellValue::Empty));
        }
        OutputRow { row_id, path, cells }
    }
}

/// New values for some cells of one row.
#[derive(Debug, Clone, PartialEq, Eq)]
pub struct RowPatch {
    pub row_id: RowId,
    pub updates: Vec<(ColumnIx, CellValue)>,
}

/// A group of row patches merged together.
pub type MicroBatch = Vec<RowPatch>;

/// An error message.
pub type PluginError = String;

/// A result whose error is a message.
pub type PluginResult<T> = Result<T, PluginError>;

/// A command-line argument a plugin declares.
#[derive(Debug, Clone, Copy, PartialEq, Eq)]
pub enum ArgKind {
    /// `--<plugin>`: request all columns of the plugin.
    PluginToggle { help: &'static str },
    /// `--<plugin>-<column key>`: request one column.
    ColumnToggle { local_col_ix: usize, help: &'static str },
    /// `--<plugin>-<suffix>`: a flag with a default.
    Flag { suffix: &'static str, help: &'static str, default: bool },
    /// `--<plugin>-<suffix> <value>`: an optional string.
    String {
        suffix: &'static str,
        help: &'static str,
        value_name: &'static str,
        default: Option<&'static str>,
    },
    /// `--<plugin>-<suffix> <value>`, repeatable.
    StringList { suffix: &'static str, help: &'static str, value_name: &'static str },
    /// `--<plugin>-<suffix>`, counted.
    Count { suffix: &'static str, help: &'static str },
}

/// The parsed value of an argument.
#[derive(Debug, Clone, PartialEq, Eq)]
pub enum ArgValue {
    Bool(bool),
    String(Option<String>),
    Strings(Vec<String>),
    Count(u8),
}

/// The long name of an argument: the plugin id for the plugin toggle,
/// `<plugin>-<column key>` for a column toggle, `<plugin>-<suffix>` for the
/// others.
pub open spec fn arg_long(plugin_id: Seq<char>, kind: ArgKind, decls: Seq<ColumnDecl>) -> Seq<char> {
    match kind {
        ArgKind::PluginToggle { .. } => plugin_id,
        ArgKind::ColumnToggle { local_col_ix, .. } => plugin_id + seq!['-']
            + decls[local_col_ix as int].key@,
        ArgKind::Flag { suffix, .. } => plugin_id + seq!['-'] + suffix@,
        ArgKind::String { suffix, .. } => plugin_id + seq!['-'] + suffix@,
        ArgKind::StringList { suffix, .. } => plugin_id + seq!['-'] + suffix@,
        ArgKind::Count { suffix, .. } => plugin_id + seq!['-'] + suffix@,
    }
}

/// The argument kinds whose long name can be formed: a column toggle must
/// name one of the plugin's columns.
pub open spec fn arg_kind_fits(kind: ArgKind, decls: Seq<ColumnDecl>) -> bool {
    match kind {
        ArgKind::ColumnToggle { local_col_ix, .. } => local_col_ix < decls.len(),
        _ => true,
    }
}

/// The long name of an argument of plugin `plugin_id`.
pub fn make_arg_long(plugin_id: &str, kind: ArgKind, decls: &Vec<ColumnDecl>) -> (r: String)
    requires
        arg_kind_fits(kind, decls@),
    ensures
        r@ == arg_long(plugin_id@, kind, decls@),
{
    let suffix: &str = match kind {
        ArgKind::PluginToggle { .. } => {
            return plugin_id.to_owned();
        },
        ArgKind::ColumnToggle { local_col_ix, .. } => decls[local_col_ix].key,
        ArgKind::Flag { suffix, .. } => suffix,
        ArgKind::String { suffix, .. } => suffix,
        ArgKind::StringList { suffix, .. } => suffix,
        ArgKind::Count { suffix, .. } => suffix,
    };
    let mut v = crate::text::chars_of(plugin_id);
    v.push('-');
    crate::text::extend_chars(&mut v, &crate::text::chars_of(suffix));
    crate::text::string_of(&v)
}

/// The clap id of argument `local_arg_ix` of plugin `plugin_ix`:
/// `p<plugin>a<arg>`.
pub open spec fn clap_id_text(plugin_ix: nat, local_arg_ix: nat) -> Seq<char> {
    seq!['p'] + crate::text::decimal(plugin_ix) + seq!['a'] + crate::text::decimal(local_arg_ix)
}

/// A registered argument.
#[derive(Debug, Clone)]
pub struct ArgEntry {
    pub plugin_ix: PluginIx,
    pub local_arg_ix: usize,
    pub kind: ArgKind,
    pub clap_id: String,
    pub long: String,
}

/// All registered arguments, in registration order, and the arguments of
/// each plugin slot.
#[derive(Debug, Clone)]
pub struct ArgCatalog {
    entries: Vec<ArgEntry>,
    by_plugin: Vec<Vec<ArgId>>,
}

impl ArgCatalog {
    /// The entries.
    pub closed spec fn ents(&self) -> Seq<ArgEntry> {
        self.entries@
    }

    /// The number of plugin slots.
    pub closed spec fn slot_count(&self) -> nat {
        self.by_plugin@.len()
    }

    /// The argument ids of plugin slot `p`.
    pub closed spec fn slot(&self, p: int) -> Seq<ArgId> {
        self.by_plugin@[p]@
    }

    /// Whether some argument has long name `long`.
    pub open spec fn has_long(&self, long: Seq<char>) -> bool {
        exists|i: int| 0 <= i < self.ents().len() && (#[trigger] self.ents()[i]).long@ == long
    }

    /// Well-formedness: each entry is the `local_arg_ix`-th argument of its
    /// plugin's slot and carries the clap id `p<plugin>a<arg>`; each slot
    /// lists entries of its own plugin, the `k`-th one having local index
    /// `k`; long names are unique.
    pub open spec fn wf(&self) -> bool {
        &&& forall|i: int|
            0 <= i < self.ents().len() ==> {
                let e = #[trigger] self.ents()[i];
                &&& e.plugin_ix < self.slot_count()
                &&& e.local_arg_ix < self.slot(e.plugin_ix as int).len()
                &&& self.slot(e.plugin_ix as int)[e.local_arg_ix as int] == i
                &&& e.clap_id@ == clap_id_text(e.plugin_ix as nat, e.local_arg_ix as nat)
            }
        &&& forall|p: int, k: int|
            0 <= p < self.slot_count() && 0 <= k < self.slot(p).len() ==> #[trigger] self.slot(
                p,
            )[k] < self.ents().len() && self.ents()[self.slot(p)[k] as int].plugin_ix == p
                && self.ents()[self.slot(p)[k] as int].local_arg_ix == k
        &&& forall|i: int, j: int|
            0 <= i < j < self.ents().len() ==> (#[trigger] self.ents()[i]).long@
                != (#[trigger] self.ents()[j]).long@
    }

    /// An empty catalog.
    pub fn new() -> (r: Self)
        ensures
            r.wf(),
            r.ents().len() == 0,
            r.slot_count() == 0,
    {
        ArgCatalog { entries: Vec::new(), by_plugin: Vec::new() }
    }

    /// The registered entries.
    pub fn entries(&self) -> (r: &Vec<ArgEntry>)
        ensures
            r@ == self.ents(),
    {
        &self.entries
    }

    /// Adds an empty slot for the next plugin.
    pub fn register_plugin_slot(&mut self)
        requires
            old(self).wf(),
        ensures
            final(self).wf(),
            final(self).ents() == old(self).ents(),
            final(self).slot_count() == old(self).slot_count() + 1,
            forall|p: int| 0 <= p < old(self).slot_count() ==> final(self).slot(p) == old(self).slot(p),
            final(self).slot(old(self).slot_count() as int).len() == 0,
    {
        let ghost old_cat = *self;
        self.by_plugin.push(Vec::new());
        proof {
            assert forall|i: int| 0 <= i < self.ents().len() implies {
                let e = #[trigger] self.ents()[i];
                &&& e.plugin_ix < self.slot_count()
                &&& e.local_arg_ix < self.slot(e.plugin_ix as int).len()
                &&& self.slot(e.plugin_ix as int)[e.local_arg_ix as int] == i
                &&& e.clap_id@ == clap_id_text(e.plugin_ix as nat, e.local_arg_ix as nat)
            } by {
                assert(old_cat.ents()[i] == self.ents()[i]);
                assert(self.slot(self.ents()[i].plugin_ix as int) == old_cat.slot(
                    self.ents()[i].plugin_ix as int,
                ));
            }
            assert forall|p: int, k: int|
                0 <= p < self.slot_count() && 0 <= k < self.slot(p).len() implies #[trigger] self.slot(
                p,
            )[k] < self.ents().len() && self.ents()[self.slot(p)[k] as int].plugin_ix == p
                && self.ents()[self.slot(p)[k] as int].local_arg_ix == k by {
                assert(p < old_cat.slot_count());
                assert(self.slot(p) == old_cat.slot(p));
            }
        }
    }

    /// Registers argument `local_arg_ix` of plugin `plugin_ix`.  Long names
    /// must be unique and arguments are numbered in order within a plugin
    /// (the registry ensures both).
    pub fn push_arg(&mut self, plugin_ix: PluginIx, local_arg_ix: usize, kind: ArgKind, long: String)
        requires
            old(self).wf(),
            plugin_ix < old(self).slot_count(),
            local_arg_ix == old(self).slot(plugin_ix as int).len(),
            !old(self).has_long(long@),
        ensures
            final(self).wf(),
            final(self).ents().len() == old(self).ents().len() + 1,
            forall|i: int| 0 <= i < old(self).ents().len() ==> final(self).ents()[i] == old(self).ents()[i],
            final(self).ents().last().plugin_ix == plugin_ix,
            final(self).ents().last().local_arg_ix == local_arg_ix,
            final(self).ents().last().kind == kind,
            final(self).ents().last().long@ == long@,
            final(self).slot_count() == old(self).slot_count(),
            final(self).slot(plugin_ix as int) == old(self).slot(plugin_ix as int).push(
                old(self).ents().len() as usize,
            ),
            forall|p: int|
                0 <= p < old(self).slot_count() && p != plugin_ix ==> final(self).slot(p) == old(self).slot(p),
    {
        let ghost old_cat = *self;
        let arg_id = self.entries.len();
        let mut id: Vec<char> = Vec::new();
        id.push('p');
        crate::text::push_decimal(&mut id, plugin_ix as u64);
        id.push('a');
        crate::text::push_decimal(&mut id, local_arg_ix as u64);
        let clap_id = crate::text::string_of(&id);
        assert(clap_id@ =~= clap_id_text(plugin_ix as nat, local_arg_ix as nat));
        self.entries.push(ArgEntry { plugin_ix, local_arg_ix, kind, clap_id, long });
        self.by_plugin[plugin_ix].push(arg_id);
        proof {
            assert forall|i: int| 0 <= i < self.ents().len() implies {
                let e = #[trigger] self.ents()[i];
                &&& e.plugin_ix < self.slot_count()
                &&& e.local_arg_ix < self.slot(e.plugin_ix as int).len()
                &&& self.slot(e.plugin_ix as int)[e.local_arg_ix as int] == i
                &&& e.clap_id@ == clap_id_text(e.plugin_ix as nat, e.local_arg_ix as nat)
            } by {
                if i < arg_id {
                    assert(old_cat.ents()[i] == self.ents()[i]);
                    let q = self.ents()[i].plugin_ix as int;
                    assert(self.slot(q)[self.ents()[i].local_arg_ix as int] == old_cat.slot(q)[self.ents()[i].local_arg_ix as int]);
                }
            }
            assert forall|p: int, k: int|
                0 <= p < self.slot_count() && 0 <= k < self.slot(p).len() implies #[trigger] self.slot(
                p,
            )[k] < self.ents().len() && self.ents()[self.slot(p)[k] as int].plugin_ix == p
                && self.ents()[self.slot(p)[k] as int].local_arg_ix == k by {
                if p != plugin_ix || k < old_cat.slot(p).len() {
                    assert(self.slot(p)[k] == old_cat.slot(p)[k]);
                    assert(old_cat.ents()[old_cat.slot(p)[k] as int] == self.ents()[self.slot(p)[k] as int]);
                }
            }
            assert forall|i: int, j: int|
                0 <= i < j < self.ents().len() implies (#[trigger] self.ents()[i]).long@
                != (#[trigger] self.ents()[j]).long@ by {
                assert(old_cat.ents()[i] == self.ents()[i]);
                if j < arg_id {
                    assert(old_cat.ents()[j] == self.ents()[j]);
                } else {
                    assert(old_cat.ents()[i].long@ != long@);
                }
            }
        }
    }

    /// The argument ids of plugin `plugin_ix` (none for an unknown plugin).
    pub fn plugin_args(&self, plugin_ix: PluginIx) -> (r: &[ArgId])
        ensures
            r@ == if plugin_ix < self.slot_count() {
                self.slot(plugin_ix as int)
            } else {
                Seq::<ArgId>::empty()
            },
    {
        if plugin_ix < self.by_plugin.len() {
            self.by_plugin[plugin_ix].as_slice()
        } else {
            &[]
        }
    }

    /// Parses the raw command-line values of all arguments, one per entry.
    pub fn parse_store(&self, raws: &Vec<RawArg>) -> (r: ArgStore)
        requires
            raws@.len() == self.ents().len(),
            forall|i: int| 0 <= i < raws@.len() ==> raw_fits(self.ents()[i].kind, #[trigger] raws@[i]),
        ensures
            r.vals().len() == self.ents().len(),
            forall|i: int|
                0 <= i < raws@.len() ==> #[trigger] r.vals()[i] == arg_value_of(
                    self.ents()[i].kind,
                    raws@[i],
                ),
    {
        let mut values: Vec<ArgValue> = Vec::new();
        let mut i: usize = 0;
        while i < self.entries.len()
            invariant
                i <= self.ents().len(),
                raws@.len() == self.ents().len(),
                forall|k: int| 0 <= k < raws@.len() ==> raw_fits(self.ents()[k].kind, #[trigger] raws@[k]),
                values@.len() == i,
                forall|k: int| 0 <= k < i ==> #[trigger] values@[k]@ == arg_value_of(
                    self.ents()[k].kind,
                    raws@[k],
                ),
            decreases self.ents().len() - i,
        {
            let v = parse_arg_value(self.entries[i].kind, &raws[i]);
            values.push(v);
            i += 1;
        }
        let r = ArgStore { values };
        assert forall|k: int| 0 <= k < raws@.len() implies #[trigger] r.vals()[k] == arg_value_of(
            self.ents()[k].kind,
            raws@[k],
        ) by {
            assert(r.vals()[k] == r.values@[k]@);
        }
        r
    }
}

/// What the command line gave for one argument, as its parser reads it:
/// whether a flag was set, the value of a single-valued argument, the values
/// of a repeatable one, or the number of occurrences.
#[derive(Debug, Clone)]
pub enum RawArg {
    Flag(bool),
    One(Option<String>),
    Many(Option<Vec<String>>),
    Counted(u8),
}

/// Whether a raw value has the shape of its argument kind.
pub open spec fn raw_fits(kind: ArgKind, raw: RawArg) -> bool {
    match kind {
        ArgKind::PluginToggle { .. } => raw is Flag,
        ArgKind::ColumnToggle { .. } => raw is Flag,
        ArgKind::Flag { .. } => raw is Flag,
        ArgKind::String { .. } => raw is One,
        ArgKind::StringList { .. } => raw is Many,
        ArgKind::Count { .. } => raw is Counted,
    }
}

/// Whether `raw_fits(kind, raw)` holds.
pub fn raw_fits_exec(kind: ArgKind, raw: &RawArg) -> (r: bool)
    ensures
        r == raw_fits(kind, *raw),
{
    match kind {
        ArgKind::PluginToggle { .. } | ArgKind::ColumnToggle { .. } | ArgKind::Flag { .. } => {
            matches!(raw, RawArg::Flag(_))
        },
        ArgKind::String { .. } => matches!(raw, RawArg::One(_)),
        ArgKind::StringList { .. } => matches!(raw, RawArg::Many(_)),
        ArgKind::Count { .. } => matches!(raw, RawArg::Counted(_)),
    }
}

/// The view of a vector of strings.
pub open spec fn strs_view(v: Seq<String>) -> Seq<Seq<char>> {
    v.map_values(|s: String| s@)
}

/// The abstract value of an argument: strings by their text.
pub enum ArgValueView {
    Bool(bool),
    Str(Option<Seq<char>>),
    Strs(Seq<Seq<char>>),
    Count(u8),
}

impl View for ArgValue {
    type V = ArgValueView;

    open spec fn view(&self) -> ArgValueView {
        match self {
            ArgValue::Bool(b) => ArgValueView::Bool(*b),
            ArgValue::String(v) => ArgValueView::Str(crate::text::opt_view(*v)),
            ArgValue::Strings(v) => ArgValueView::Strs(strs_view(v@)),
            ArgValue::Count(n) => ArgValueView::Count(*n),
        }
    }
}

/// The value of an argument from its raw command-line value: toggles as
/// given; a flag set, or its default; a string as given, or its default; a
/// list as given, or empty; a count as given.
pub open spec fn arg_value_of(kind: ArgKind, raw: RawArg) -> ArgValueView {
    match raw {
        RawArg::Flag(b) => match kind {
            ArgKind::Flag { default, .. } => ArgValueView::Bool(b || default),
            _ => ArgValueView::Bool(b),
        },
        RawArg::One(v) => match v {
            Some(s) => ArgValueView::Str(Some(s@)),
            None => match kind {
                ArgKind::String { default, .. } => ArgValueView::Str(
                    match default {
                        Some(d) => Some(d@),
                        None => None,
                    },
                ),
                _ => ArgValueView::Str(None),
            },
        },
        RawArg::Many(v) => ArgValueView::Strs(
            match v {
                Some(l) => strs_view(l@),
                None => Seq::empty(),
            },
        ),
        RawArg::Counted(n) => ArgValueView::Count(n),
    }
}

/// The value of one argument from its raw command-line value.
pub fn parse_arg_value(kind: ArgKind, raw: &RawArg) -> (r: ArgValue)
    ensures
        r@ == arg_value_of(kind, *raw),
{
    match raw {
        RawArg::Flag(b) => match kind {
            ArgKind::Flag { default, .. } => ArgValue::Bool(*b || default),
            _ => ArgValue::Bool(*b),
        },
        RawArg::One(v) => match v {
            Some(s) => ArgValue::String(Some(s.clone())),
            None => match kind {
                ArgKind::String { default, .. } => ArgValue::String(
                    match default {
                        Some(d) => Some(d.to_owned()),
                        None => None,
                    },
                ),
                _ => ArgValue::String(None),
            },
        },
        RawArg::Many(v) => match v {
            Some(l) => {
                let c = copy_strings(l);
                ArgValue::Strings(c)
            },
            None => {
                let e: Vec<String> = Vec::new();
                assert(strs_view(e@) =~= Seq::<Seq<char>>::empty());
                ArgValue::Strings(e)
            },
        },
        RawArg::Counted(n) => ArgValue::Count(*n),
    }
}

/// The parsed values of all registered arguments, by argument id.
#[derive(Debug, Clone)]
pub struct ArgStore {
    values: Vec<ArgValue>,
}

impl ArgStore {
    /// The values, by argument id.
    pub closed spec fn vals(&self) -> Seq<ArgValueView> {
        self.values@.map_values(|v: ArgValue| v@)
    }

    /// The value of argument `arg_id`.
    pub fn value(&self, arg_id: ArgId) -> (r: Option<&ArgValue>)
        ensures
            match r {
                Some(v) => arg_id < self.vals().len() && v@ == self.vals()[arg_id as int],
                None => arg_id >= self.vals().len(),
            },
    {
        if arg_id < self.values.len() {
            Some(&self.values[arg_id])
        } else {
            None
        }
    }

    /// The value of argument `arg_id` if it is a boolean.
    pub fn bool(&self, arg_id: ArgId) -> (r: Option<bool>)
        ensures
            r == store_bool(self.vals(), arg_id as int),
    {
        if arg_id < self.values.len() {
            match &self.values[arg_id] {
                ArgValue::Bool(b) => Some(*b),
                _ => None,
            }
        } else {
            None
        }
    }
}

/// The boolean value of argument `arg_id`, if it has one.
pub open spec fn store_bool(vals: Seq<ArgValueView>, arg_id: int) -> Option<bool> {
    if 0 <= arg_id < vals.len() {
        match vals[arg_id] {
            ArgValueView::Bool(b) => Some(b),
            _ => None,
        }
    } else {
        None
    }
}

/// A copy of a vector of strings.
fn copy_strings(v: &Vec<String>) -> (r: Vec<String>)
    ensures
        r@ == v@,
{
    let mut r: Vec<String> = Vec::new();
    let mut i: usize = 0;
    while i < v.len()
        invariant
            i <= v@.len(),
            r@ == v@.take(i as int),
        decreases v@.len() - i,
    {
        r.push(v[i].clone());
        i += 1;
        assert(r@ =~= v@.take(i as int));
    }
    assert(v@.take(v@.len() as int) =~= v@);
    r
}

/// The value of argument `local_arg_ix` of a plugin whose argument ids are
/// `arg_ids`.
pub open spec fn local_arg_value(arg_ids: Seq<ArgId>, vals: Seq<ArgValueView>, local_arg_ix: int) -> Option<
    ArgValueView,
> {
    if 0 <= local_arg_ix < arg_ids.len() && arg_ids[local_arg_ix] < vals.len() {
        Some(vals[arg_ids[local_arg_ix] as int])
    } else {
        None
    }
}

/// The arguments of one plugin, looked up by their local index.
#[derive(Debug, Clone, Copy)]
pub struct PluginArgs<'a> {
    arg_ids: &'a [ArgId],
    store: &'a ArgStore,
}

impl<'a> PluginArgs<'a> {
    /// The arguments with ids `arg_ids`, looked up in `store`.
    pub fn new(arg_ids: &'a [ArgId], store: &'a ArgStore) -> (r: Self)
        ensures
            forall|k: int| #[trigger] r.local(k) == local_arg_value(arg_ids@, store.vals(), k),
    {
        PluginArgs { arg_ids, store }
    }

    /// The argument values of this plugin, by local index.
    pub closed spec fn local(&self, local_arg_ix: int) -> Option<ArgValueView> {
        local_arg_value(self.arg_ids@, self.store.vals(), local_arg_ix)
    }

    /// The boolean argument `local_arg_ix`.
    pub fn bool(&self, local_arg_ix: usize) -> (r: Option<bool>)
        ensures
            r == match self.local(local_arg_ix as int) {
                Some(ArgValueView::Bool(b)) => Some(b),
                _ => None,
            },
    {
        if local_arg_ix >= self.arg_ids.len() {
            return None;
        }
        let arg_id = self.arg_ids[local_arg_ix];
        match self.store.value(arg_id) {
            Some(ArgValue::Bool(v)) => Some(*v),
            _ => None,
        }
    }

    /// The string argument `local_arg_ix`, if it has a value.
    pub fn string(&self, local_arg_ix: usize) -> (r: Option<&str>)
        ensures
            crate::text::opt_str_view(r) == match self.local(local_arg_ix as int) {
                Some(ArgValueView::Str(v)) => v,
                _ => None,
            },
    {
        if local_arg_ix >= self.arg_ids.len() {
            return None;
        }
        let arg_id = self.arg_ids[local_arg_ix];
        match self.store.value(arg_id) {
            Some(ArgValue::String(v)) => match v {
                Some(s) => Some(s.as_str()),
                None => None,
            },
            _ => None,
        }
    }

    /// The list argument `local_arg_ix`.
    pub fn strings(&self, local_arg_ix: usize) -> (r: Option<&[String]>)
        ensures
            match r {
                Some(l) => self.local(local_arg_ix as int) == Some(ArgValueView::Strs(strs_view(l@))),
                None => !(self.local(local_arg_ix as int) matches Some(ArgValueView::Strs(_))),
            },
    {
        if local_arg_ix >= self.arg_ids.len() {
            return None;
        }
        let arg_id = self.arg_ids[local_arg_ix];
        match self.store.value(arg_id) {
            Some(ArgValue::Strings(v)) => Some(v.as_slice()),
            _ => None,
        }
    }

    /// The counted argument `local_arg_ix`.
    pub fn count(&self, local_arg_ix: usize) -> (r: Option<u8>)
        ensures
            r == match self.local(local_arg_ix as int) {
                Some(ArgValueView::Count(n)) => Some(n),
                _ => None,
            },
    {
        if local_arg_ix >= self.arg_ids.len() {
            return None;
        }
        let arg_id = self.arg_ids[local_arg_ix];
        match self.store.value(arg_id) {
            Some(ArgValue::Count(v)) => Some(*v),
            _ => None,
        }
    }
}

/// How a plugin is configured for a run.
#[derive(Debug, Clone, PartialEq, Eq)]
pub struct PluginConfig {
    pub enabled: bool,
    pub options: HashMap<String, String>,
}

impl PluginConfig {
    /// An enabled plugin without options.
    pub fn enabled() -> (r: Self)
        ensures
            r.enabled,
            r.options@ == Map::<String, String>::empty(),
    {
        PluginConfig { enabled: true, options: HashMap::new() }
    }

    /// A disabled plugin without options.
    pub fn disabled() -> (r: Self)
        ensures
            !r.enabled,
            r.options@ == Map::<String, String>::empty(),
    {
        PluginConfig { enabled: false, options: HashMap::new() }
    }
}

impl Default for PluginConfig {
    fn default() -> (r: Self)
        ensures
            r.enabled,
            r.options@ == Map::<String, String>::empty(),
    {
        Self::enabled()
    }
}

/// What one plugin run is asked to collect: the work items it applies to,
/// its configuration, the requested columns as `(local, global)` index
/// pairs, and the largest number of row patches per microbatch.
#[derive(Debug, Clone)]
pub struct CollectRequest<'a> {
    pub items: &'a [RepoWorkItem],
    pub cfg: &'a PluginConfig,
    pub requested_columns: &'a [(usize, ColumnIx)],
    pub microbatch_rows: usize,
}

} // verus!
