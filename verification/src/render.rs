//! Output selection and rendering: which columns a format template asks
//! for, the template used when none is given, and the text and JSON shapes
//! of the table.
use vstd::prelude::*;
use crate::plugin::{strs_view, CellValue, ColumnCatalog, ColumnSpec, OutputRow, PluginResult};
use crate::registry::PluginRegistry;
use crate::text::{
    chars_eq, chars_of, extend_chars, push_signed_decimal, replace_all, replace_all_chars,
    signed_decimal, string_of, str_eq, trim, trim_chars, lex_le, lex_le_chars, lemma_lex_le_total,
    lemma_lex_le_trans,
};

verus! {

// ---------------------------------------------------------------------------
// Placeholders of a format template
// ---------------------------------------------------------------------------

/// The index of the first `}` in `s`, or `s.len()` if there is none.
pub open spec fn first_close(s: Seq<char>) -> nat
    decreases s.len(),
{
    if s.len() == 0 {
        0
    } else if s[0] == '}' {
        0
    } else {
        1 + first_close(s.drop_first())
    }
}

/// The column keys a template names: each `{` opens a placeholder that runs
/// to the next `}` (or the end); its text, trimmed, is a key unless empty.
pub open spec fn placeholders(s: Seq<char>) -> Seq<Seq<char>>
    decreases s.len(),
{
    if s.len() == 0 {
        Seq::empty()
    } else if s[0] != '{' {
        placeholders(s.drop_first())
    } else {
        let rest = s.drop_first();
        let j = first_close(rest) as int;
        let key = trim(rest.take(j));
        let after = if j < rest.len() {
            rest.skip(j + 1)
        } else {
            Seq::empty()
        };
        (if key.len() > 0 {
            seq![key]
        } else {
            Seq::empty()
        }) + placeholders(after)
    }
}

pub(crate) proof fn lemma_first_close(s: Seq<char>, j: int)
    requires
        0 <= j <= s.len(),
        forall|i: int| 0 <= i < j ==> s[i] != '}',
        j < s.len() ==> s[j] == '}',
    ensures
        first_close(s) == j,
    decreases j,
{
    if j > 0 {
        lemma_first_close(s.drop_first(), j - 1);
    }
}

/// The column keys named by the placeholders of `format`.
pub fn parse_columns_from_format(format: &str) -> (r: Vec<String>)
    ensures
        strs_view(r@) == placeholders(format@),
{
    let s = chars_of(format);
    let n = s.len();
    let mut columns: Vec<String> = Vec::new();
    let mut i: usize = 0;
    assert(s@.skip(0) =~= s@);
    assert(strs_view(columns@) =~= Seq::<Seq<char>>::empty());
    while i < n
        invariant
            n == s@.len(),
            i <= n,
            strs_view(columns@) + placeholders(s@.skip(i as int)) == placeholders(s@),
        decreases n - i,
    {
        let ghost t = s@.skip(i as int);
        if s[i] != '{' {
            assert(t.drop_first() =~= s@.skip(i + 1));
            i += 1;
        } else {
            let start = i + 1;
            let mut j = start;
            while j < n && s[j] != '}'
                invariant
                    start <= j <= n,
                    n == s@.len(),
                    forall|k: int| start <= k < j ==> s@[k] != '}',
                decreases n - j,
            {
                j += 1;
            }
            let ghost rest = t.drop_first();
            proof {
                assert(rest =~= s@.skip(start as int));
                lemma_first_close(rest, (j - start) as int);
                assert(rest.take((j - start) as int) =~= s@.subrange(start as int, j as int));
            }
            let mut key_chars: Vec<char> = Vec::new();
            let mut k = start;
            while k < j
                invariant
                    start <= k <= j <= n,
                    n == s@.len(),
                    key_chars@ == s@.subrange(start as int, k as int),
                decreases j - k,
            {
                key_chars.push(s[k]);
                k += 1;
                assert(key_chars@ =~= s@.subrange(start as int, k as int));
            }
            let trimmed = trim_chars(&key_chars);
            let ghost old_cols = columns@;
            if trimmed.len() > 0 {
                columns.push(string_of(&trimmed));
                assert(strs_view(columns@) =~= strs_view(old_cols).push(trimmed@));
            }
            if j < n {
                assert(rest.skip((j - start) + 1) =~= s@.skip(j + 1));
                i = j + 1;
            } else {
                assert(s@.skip(n as int) =~= Seq::<char>::empty());
                i = n;
            }
            proof {
                if trimmed@.len() > 0 {
                    assert(strs_view(columns@) + placeholders(s@.skip(i as int)) =~= strs_view(
                        old_cols,
                    ) + (seq![trimmed@] + placeholders(s@.skip(i as int))));
                } else {
                    assert(strs_view(columns@) + placeholders(s@.skip(i as int)) =~= strs_view(
                        old_cols,
                    ) + (Seq::<Seq<char>>::empty() + placeholders(s@.skip(i as int))));
                }
            }
        }
    }
    assert(s@.skip(n as int) =~= Seq::<char>::empty());
    assert(strs_view(columns@) + Seq::<Seq<char>>::empty() =~= strs_view(columns@));
    columns
}

// ---------------------------------------------------------------------------
// Comma-separated lists
// ---------------------------------------------------------------------------

/// `str::split(',')` with a partially read piece `cur` in front of `s`.
pub open spec fn split_commas_from(s: Seq<char>, cur: Seq<char>) -> Seq<Seq<char>>
    decreases s.len(),
{
    if s.len() == 0 {
        seq![cur]
    } else if s[0] == ',' {
        seq![cur] + split_commas_from(s.drop_first(), Seq::empty())
    } else {
        split_commas_from(s.drop_first(), cur.push(s[0]))
    }
}

/// The trimmed pieces that are not empty, in order.
pub open spec fn nonempty_trimmed(pieces: Seq<Seq<char>>) -> Seq<Seq<char>>
    decreases pieces.len(),
{
    if pieces.len() == 0 {
        Seq::empty()
    } else {
        let t = trim(pieces[0]);
        (if t.len() > 0 {
            seq![t]
        } else {
            Seq::empty()
        }) + nonempty_trimmed(pieces.drop_first())
    }
}

/// The items of a comma-separated list: split at `,`, trimmed, empty ones
/// dropped.
pub open spec fn csv_items(s: Seq<char>) -> Seq<Seq<char>> {
    nonempty_trimmed(split_commas_from(s, Seq::empty()))
}

/// The items of an optional comma-separated list (none without a list).
pub fn parse_csv(value: Option<&String>) -> (r: Vec<String>)
    ensures
        strs_view(r@) == match value {
            Some(v) => csv_items(v@),
            None => Seq::empty(),
        },
{
    let mut out: Vec<String> = Vec::new();
    assert(strs_view(out@) =~= Seq::<Seq<char>>::empty());
    let v = match value {
        Some(v) => v,
        None => {
            return out;
        },
    };
    let s = chars_of(v.as_str());
    let n = s.len();
    let mut cur: Vec<char> = Vec::new();
    let mut i: usize = 0;
    assert(s@.skip(0) =~= s@);
    while i < n
        invariant
            n == s@.len(),
            i <= n,
            strs_view(out@) + nonempty_trimmed(split_commas_from(s@.skip(i as int), cur@))
                == csv_items(s@),
        decreases n - i,
    {
        assert(s@.skip(i as int).drop_first() =~= s@.skip(i + 1));
        if s[i] == ',' {
            let t = trim_chars(&cur);
            let ghost old_out = out@;
            if t.len() > 0 {
                out.push(string_of(&t));
                assert(strs_view(out@) =~= strs_view(old_out).push(t@));
            }
            proof {
                let rest = split_commas_from(s@.skip(i + 1), Seq::empty());
                assert((seq![cur@] + rest)[0] == cur@);
                assert((seq![cur@] + rest).drop_first() =~= rest);
                if t@.len() > 0 {
                    assert(strs_view(out@) + nonempty_trimmed(rest) =~= strs_view(old_out) + (
                    seq![t@] + nonempty_trimmed(rest)));
                } else {
                    assert(strs_view(out@) + nonempty_trimmed(rest) =~= strs_view(old_out) + (
                    Seq::<Seq<char>>::empty() + nonempty_trimmed(rest)));
                }
            }
            cur = Vec::new();
            assert(cur@ =~= Seq::<char>::empty());
        } else {
            cur.push(s[i]);
        }
        i += 1;
    }
    let t = trim_chars(&cur);
    let ghost old_out = out@;
    proof {
        assert(s@.skip(n as int) =~= Seq::<char>::empty());
        let last = seq![cur@];
        assert(last[0] == cur@);
        assert(last.drop_first() =~= Seq::<Seq<char>>::empty());
        assert(split_commas_from(s@.skip(n as int), cur@) == last);
        assert(nonempty_trimmed(Seq::<Seq<char>>::empty()) == Seq::<Seq<char>>::empty());
    }
    if t.len() > 0 {
        out.push(string_of(&t));
        assert(strs_view(out@) =~= strs_view(old_out) + seq![t@]);
    } else {
        assert(strs_view(out@) =~= strs_view(old_out) + Seq::<Seq<char>>::empty());
    }
    out
}

// ---------------------------------------------------------------------------
// Directory-only output
// ---------------------------------------------------------------------------

/// `"directory"`.
pub open spec fn directory_word() -> Seq<char> {
    seq!['d', 'i', 'r', 'e', 'c', 't', 'o', 'r', 'y']
}

/// `"{directory}"`.
pub open spec fn directory_placeholder() -> Seq<char> {
    seq!['{'] + directory_word() + seq!['}']
}

/// Whether the format asks for the directory column alone (`directory` or
/// `{directory}`, surrounding whitespace ignored); then nothing needs to be
/// detected.
pub open spec fn directory_only(explicit_format: Option<Seq<char>>) -> bool {
    match explicit_format {
        Some(f) => trim(f) == directory_word() || trim(f) == directory_placeholder(),
        None => false,
    }
}

/// Whether output can skip detection and list directories only.
pub fn should_short_circuit_directory_only(explicit_format: Option<&str>) -> (r: bool)
    ensures
        r == directory_only(crate::text::opt_str_view(explicit_format)),
{
    match explicit_format {
        Some(f) => {
            let t = trim_chars(&chars_of(f));
            let a = chars_of("directory");
            let b = chars_of("{directory}");
            proof {
                reveal_strlit("directory");
                reveal_strlit("{directory}");
                assert(a@ =~= directory_word());
                assert(b@ =~= directory_placeholder());
            }
            chars_eq(&t, &a) || chars_eq(&t, &b)
        },
        None => false,
    }
}

/// The text lines of directory-only output: an optional `directory` header,
/// then one path per line.
pub fn directory_only_lines(paths: &Vec<String>, header: bool) -> (r: Vec<String>)
    ensures
        strs_view(r@) == (if header {
            seq![directory_word()]
        } else {
            Seq::<Seq<char>>::empty()
        }) + strs_view(paths@),
{
    let mut out: Vec<String> = Vec::new();
    if header {
        let w = "directory";
        proof {
            reveal_strlit("directory");
        }
        assert(w@ =~= directory_word());
        out.push(w.to_owned());
    }
    let ghost head = strs_view(out@);
    assert(head =~= (if header {
        seq![directory_word()]
    } else {
        Seq::<Seq<char>>::empty()
    }));
    let mut i: usize = 0;
    while i < paths.len()
        invariant
            i <= paths@.len(),
            strs_view(out@) == head + strs_view(paths@.take(i as int)),
        decreases paths@.len() - i,
    {
        let ghost old_out = out@;
        out.push(paths[i].clone());
        assert(strs_view(out@) =~= strs_view(old_out).push(paths@[i as int]@));
        assert(paths@.take(i + 1) =~= paths@.take(i as int).push(paths@[i as int]));
        assert(strs_view(paths@.take(i + 1)) =~= strs_view(paths@.take(i as int)).push(
            paths@[i as int]@,
        ));
        i += 1;
        assert(strs_view(out@) =~= head + strs_view(paths@.take(i as int)));
    }
    assert(paths@.take(paths@.len() as int) =~= paths@);
    out
}

// ---------------------------------------------------------------------------
// Cells and rows as text
// ---------------------------------------------------------------------------

/// The text of a cell: a string as it is, a number in decimal, nothing for
/// an empty cell.
pub open spec fn cell_text(cell: CellValue) -> Seq<char> {
    match cell {
        CellValue::Text(s) => s@,
        CellValue::Number(n) => signed_decimal(n as int),
        CellValue::Empty => Seq::empty(),
    }
}

/// The text of a cell.
pub fn cell_to_text(cell: &CellValue) -> (r: String)
    ensures
        r@ == cell_text(*cell),
{
    match cell {
        CellValue::Text(value) => value.clone(),
        CellValue::Number(value) => {
            let mut v: Vec<char> = Vec::new();
            push_signed_decimal(&mut v, *value as i64);
            assert(v@ =~= signed_decimal(*value as int));
            string_of(&v)
        },
        CellValue::Empty => String::new(),
    }
}

/// `"{" + key + "}"`.
pub open spec fn placeholder_of(key: Seq<char>) -> Seq<char> {
    seq!['{'] + key + seq!['}']
}

fn placeholder_chars(key: &str) -> (r: Vec<char>)
    ensures
        r@ == placeholder_of(key@),
{
    let mut v: Vec<char> = Vec::new();
    v.push('{');
    extend_chars(&mut v, &chars_of(key));
    v.push('}');
    assert(v@ =~= placeholder_of(key@));
    v
}

/// The template after replacing the placeholders of the first `k` columns
/// by their titles, in column order.
pub open spec fn header_text(template: Seq<char>, cols: Seq<ColumnSpec>, k: int) -> Seq<char>
    decreases k,
{
    if k <= 0 {
        template
    } else {
        replace_all(
            header_text(template, cols, k - 1),
            placeholder_of(cols[k - 1].key@),
            cols[k - 1].title@,
        )
    }
}

/// The cell text of column `ix` of a row, nothing when the row has no such
/// cell.
pub open spec fn row_cell_text(cells: Seq<CellValue>, ix: int) -> Seq<char> {
    if 0 <= ix < cells.len() {
        cell_text(cells[ix])
    } else {
        Seq::empty()
    }
}

/// The template after replacing the placeholders of the first `k` columns
/// by the row's cell texts, in column order.
pub open spec fn row_text(
    template: Seq<char>,
    cols: Seq<ColumnSpec>,
    cells: Seq<CellValue>,
    k: int,
) -> Seq<char>
    decreases k,
{
    if k <= 0 {
        template
    } else {
        replace_all(
            row_text(template, cols, cells, k - 1),
            placeholder_of(cols[k - 1].key@),
            row_cell_text(cells, cols[k - 1].ix as int),
        )
    }
}

/// The spaces of a template replaced by the separator (the template
/// unchanged when the separator is a single space).
pub open spec fn with_separator(text: Seq<char>, separator: Seq<char>) -> Seq<char> {
    if separator == seq![' '] {
        text
    } else {
        replace_all(text, seq![' '], separator)
    }
}

fn apply_separator(text: Vec<char>, separator: &str) -> (r: Vec<char>)
    ensures
        r@ == with_separator(text@, separator@),
{
    let sep = chars_of(separator);
    let space: Vec<char> = vec![' '];
    assert(space@ =~= seq![' ']);
    if chars_eq(&sep, &space) {
        text
    } else {
        replace_all_chars(&text, &space, &sep)
    }
}

/// The header line: the template's own spaces replaced by the separator,
/// then each placeholder replaced by its column's title (spaces inside a
/// title are kept).
pub fn format_header(template: &str, separator: &str, columns: &ColumnCatalog) -> (r: String)
    ensures
        r@ == header_text(
            with_separator(template@, separator@),
            columns.cols(),
            columns.cols().len() as int,
        ),
{
    let ghost sep_template = with_separator(template@, separator@);
    let mut output = apply_separator(chars_of(template), separator);
    let mut k: usize = 0;
    while k < columns.columns.len()
        invariant
            k <= columns.cols().len(),
            output@ == header_text(sep_template, columns.cols(), k as int),
        decreases columns.cols().len() - k,
    {
        let column = &columns.columns[k];
        let placeholder = placeholder_chars(column.key);
        let title = chars_of(column.title);
        output = replace_all_chars(&output, &placeholder, &title);
        k += 1;
    }
    string_of(&output)
}

/// One row line: the template's own spaces replaced by the separator, then
/// each placeholder replaced by the text of the row's cell in that column
/// (spaces inside a cell are kept).
pub fn format_row(row: &OutputRow, template: &str, separator: &str, columns: &ColumnCatalog) -> (r:
    String)
    ensures
        r@ == row_text(
            with_separator(template@, separator@),
            columns.cols(),
            row.cells@,
            columns.cols().len() as int,
        ),
{
    let ghost sep_template = with_separator(template@, separator@);
    let mut output = apply_separator(chars_of(template), separator);
    let mut k: usize = 0;
    while k < columns.columns.len()
        invariant
            k <= columns.cols().len(),
            output@ == row_text(sep_template, columns.cols(), row.cells@, k as int),
        decreases columns.cols().len() - k,
    {
        let column = &columns.columns[k];
        let placeholder = placeholder_chars(column.key);
        let value = if column.ix < row.cells.len() {
            cell_to_text(&row.cells[column.ix])
        } else {
            String::new()
        };
        output = replace_all_chars(&output, &placeholder, &chars_of(value.as_str()));
        k += 1;
    }
    string_of(&output)
}

// ---------------------------------------------------------------------------
// Format templates
// ---------------------------------------------------------------------------

/// `parts` joined with single spaces.
pub open spec fn join_spaced(parts: Seq<Seq<char>>) -> Seq<char>
    decreases parts.len(),
{
    if parts.len() == 0 {
        Seq::empty()
    } else if parts.len() == 1 {
        parts[0]
    } else {
        join_spaced(parts.drop_last()) + seq![' '] + parts.last()
    }
}

/// The template that names `keys` in order: `{k1} {k2} ...`.
pub open spec fn template_of(keys: Seq<Seq<char>>) -> Seq<char> {
    join_spaced(keys.map_values(|k: Seq<char>| placeholder_of(k)))
}

/// The texts of a sequence of static strings.
pub open spec fn key_views(keys: Seq<&'static str>) -> Seq<Seq<char>> {
    keys.map_values(|k: &'static str| k@)
}

/// The keys of the columns, in catalog order.
pub open spec fn column_keys(cols: Seq<ColumnSpec>) -> Seq<Seq<char>> {
    cols.map_values(|c: ColumnSpec| c.key@)
}

fn template_chars(keys: &Vec<&'static str>) -> (r: Vec<char>)
    ensures
        r@ == template_of(key_views(keys@)),
{
    let mut out: Vec<char> = Vec::new();
    let mut i: usize = 0;
    assert(key_views(keys@.take(0)).map_values(|k: Seq<char>| placeholder_of(k)) =~= Seq::<
        Seq<char>,
    >::empty());
    while i < keys.len()
        invariant
            i <= keys@.len(),
            out@ == template_of(key_views(keys@.take(i as int))),
        decreases keys@.len() - i,
    {
        let ghost parts_before = key_views(keys@.take(i as int)).map_values(
            |k: Seq<char>| placeholder_of(k),
        );
        let ghost parts = key_views(keys@.take(i + 1)).map_values(|k: Seq<char>| placeholder_of(k));
        assert(parts.drop_last() =~= parts_before);
        assert(parts.last() == placeholder_of(keys@[i as int]@));
        if i > 0 {
            out.push(' ');
        }
        extend_chars(&mut out, &placeholder_chars(keys[i]));
        proof {
            if i == 0 {
                assert(out@ =~= parts[0]);
            } else {
                assert(out@ =~= join_spaced(parts_before) + seq![' '] + parts.last());
            }
        }
        i += 1;
    }
    assert(keys@.take(keys@.len() as int) =~= keys@);
    out
}

/// The template that names every column, in catalog order.
pub fn all_columns_template(columns: &ColumnCatalog) -> (r: String)
    ensures
        r@ == template_of(column_keys(columns.cols())),
{
    let mut keys: Vec<&'static str> = Vec::new();
    let mut i: usize = 0;
    while i < columns.columns.len()
        invariant
            i <= columns.cols().len(),
            key_views(keys@) == column_keys(columns.cols().take(i as int)),
        decreases columns.cols().len() - i,
    {
        let ghost old_keys = keys@;
        keys.push(columns.columns[i].key);
        assert(columns.cols().take(i + 1) =~= columns.cols().take(i as int).push(
            columns.cols()[i as int],
        ));
        assert(keys@ =~= old_keys.push(columns.cols()[i as int].key));
        assert(key_views(keys@) =~= key_views(old_keys).push(columns.cols()[i as int].key@));
        i += 1;
        assert(key_views(keys@) =~= column_keys(columns.cols().take(i as int)));
    }
    assert(columns.cols().take(columns.cols().len() as int) =~= columns.cols());
    string_of(&template_chars(&keys))
}

/// The keys of the columns whose mask entry (at the column's index) is
/// set; an index past the mask counts as unset.
pub open spec fn selected_keys(cols: Seq<ColumnSpec>, mask: Seq<bool>) -> Seq<Seq<char>>
    decreases cols.len(),
{
    if cols.len() == 0 {
        Seq::empty()
    } else {
        let c = cols.last();
        let before = selected_keys(cols.drop_last(), mask);
        if c.ix < mask.len() && mask[c.ix as int] {
            before.push(c.key@)
        } else {
            before
        }
    }
}

/// The error when no column is selected.
pub open spec fn no_columns_msg() -> Seq<char> {
    "No columns selected. Use --format, --jj, --jj-ahead, or plugin-specific toggles."@
}

/// The template that rendering uses: `all` names every column, any other
/// explicit format is used as it is, and without one the selected columns
/// are named in catalog order (an error when there are none).
pub open spec fn template_result(
    explicit_format: Option<Seq<char>>,
    cols: Seq<ColumnSpec>,
    mask: Seq<bool>,
) -> Result<Seq<char>, Seq<char>> {
    match explicit_format {
        Some(f) => if f == "all"@ {
            Ok(template_of(column_keys(cols)))
        } else {
            Ok(f)
        },
        None => {
            let keys = selected_keys(cols, mask);
            if keys.len() == 0 {
                Err(no_columns_msg())
            } else {
                Ok(template_of(keys))
            }
        },
    }
}

/// A result of strings by its text.
pub open spec fn result_view(r: Result<String, String>) -> Result<Seq<char>, Seq<char>> {
    match r {
        Ok(s) => Ok(s@),
        Err(e) => Err(e@),
    }
}

fn is_all(f: &str) -> (r: bool)
    ensures
        r == (f@ == "all"@),
{
    let a = "all";
    proof {
        reveal_strlit("all");
    }
    str_eq(f, a)
}

/// The format template for the output.
pub fn resolve_format_template(
    explicit_format: Option<&str>,
    columns: &ColumnCatalog,
    requested_mask: &[bool],
) -> (r: PluginResult<String>)
    ensures
        result_view(r) == template_result(
            crate::text::opt_str_view(explicit_format),
            columns.cols(),
            requested_mask@,
        ),
{
    if let Some(format) = explicit_format {
        if is_all(format) {
            return Ok(all_columns_template(columns));
        }
        return Ok(format.to_owned());
    }
    let mut keys: Vec<&'static str> = Vec::new();
    let mut i: usize = 0;
    while i < columns.columns.len()
        invariant
            i <= columns.cols().len(),
            key_views(keys@) == selected_keys(columns.cols().take(i as int), requested_mask@),
        decreases columns.cols().len() - i,
    {
        let column = &columns.columns[i];
        let ghost before = columns.cols().take(i as int);
        assert(columns.cols().take(i + 1).drop_last() =~= before);
        if column.ix < requested_mask.len() && requested_mask[column.ix] {
            keys.push(column.key);
        }
        i += 1;
        assert(key_views(keys@) =~= selected_keys(columns.cols().take(i as int), requested_mask@));
    }
    assert(columns.cols().take(columns.cols().len() as int) =~= columns.cols());
    if keys.len() == 0 {
        let msg = "No columns selected. Use --format, --jj, --jj-ahead, or plugin-specific toggles.";
        return Err(msg.to_owned());
    }
    Ok(string_of(&template_chars(&keys)))
}

// ---------------------------------------------------------------------------
// The requested columns
// ---------------------------------------------------------------------------

/// The default mask: column `j` is set when some column at index `j` is in
/// the base format.
pub open spec fn default_mask(cols: Seq<ColumnSpec>) -> Seq<bool> {
    Seq::new(
        cols.len(),
        |j: int| exists|i: int| 0 <= i < cols.len() && (#[trigger] cols[i]).ix == j && cols[i].default_in_base_format,
    )
}

/// Whether every column of the base format sits at an index inside the
/// catalog (so that the default mask can be filled).
pub open spec fn defaults_in_range(cols: Seq<ColumnSpec>) -> bool {
    forall|i: int|
        0 <= i < cols.len() && (#[trigger] cols[i]).default_in_base_format ==> cols[i].ix < cols.len()
}

/// The columns that the output asks for: all of them for `all`, those named
/// by the placeholders of another explicit format (an unknown key is an
/// error), and those of the base format when there is no format.
pub fn resolve_requested_mask(
    explicit_format: Option<&str>,
    columns: &ColumnCatalog,
    registry: &PluginRegistry,
) -> (r: PluginResult<Vec<bool>>)
    requires
        registry.wf(),
        explicit_format is None ==> defaults_in_range(columns.cols()),
    ensures
        match explicit_format {
            Some(f) => if f@ == "all"@ {
                r matches Ok(m) && m@ == Seq::new(columns.cols().len(), |i: int| true)
            } else {
                crate::registry::column_mask_outcome(registry.cat(), placeholders(f@), r)
            },
            None => r matches Ok(m) && m@ == default_mask(columns.cols()),
        },
{
    let n = columns.len();
    if let Some(format) = explicit_format {
        if is_all(format) {
            let mut all: Vec<bool> = Vec::new();
            let mut i: usize = 0;
            while i < n
                invariant
                    i <= n,
                    all@ == Seq::new(i as nat, |k: int| true),
                decreases n - i,
            {
                all.push(true);
                i += 1;
                assert(all@ =~= Seq::new(i as nat, |k: int| true));
            }
            return Ok(all);
        }
        let keys = parse_columns_from_format(format);
        return registry.resolve_requested_column_mask(&keys);
    }
    let mut mask: Vec<bool> = Vec::new();
    let mut i: usize = 0;
    while i < n
        invariant
            i <= n,
            mask@ == Seq::new(i as nat, |k: int| false),
        decreases n - i,
    {
        mask.push(false);
        i += 1;
        assert(mask@ =~= Seq::new(i as nat, |k: int| false));
    }
    let ghost cols = columns.cols();
    let mut k: usize = 0;
    while k < n
        invariant
            k <= n,
            n == cols.len(),
            cols == columns.cols(),
            defaults_in_range(cols),
            mask@.len() == n,
            forall|j: int|
                0 <= j < n ==> #[trigger] mask@[j] == exists|i: int|
                    0 <= i < k && (#[trigger] cols[i]).ix == j && cols[i].default_in_base_format,
        decreases n - k,
    {
        let column = &columns.columns[k];
        if column.default_in_base_format {
            let ghost old_mask = mask@;
            mask.set(column.ix, true);
            assert forall|j: int| 0 <= j < n implies #[trigger] mask@[j] == exists|i: int|
                0 <= i < k + 1 && (#[trigger] cols[i]).ix == j && cols[i].default_in_base_format by {
                if j == column.ix {
                    assert(cols[k as int].ix == j);
                } else {
                    assert(mask@[j] == old_mask[j]);
                    if mask@[j] {
                        let i0 = choose|i: int|
                            0 <= i < k && (#[trigger] cols[i]).ix == j && cols[i].default_in_base_format;
                        assert(0 <= i0 < k + 1);
                    }
                }
            }
        } else {
            assert forall|j: int| 0 <= j < n implies #[trigger] mask@[j] == exists|i: int|
                0 <= i < k + 1 && (#[trigger] cols[i]).ix == j && cols[i].default_in_base_format by {
                if mask@[j] {
                    let i0 = choose|i: int|
                        0 <= i < k && (#[trigger] cols[i]).ix == j && cols[i].default_in_base_format;
                    assert(0 <= i0 < k + 1);
                }
            }
        }
        k += 1;
    }
    assert(mask@ =~= default_mask(cols));
    Ok(mask)
}

// ---------------------------------------------------------------------------
// JSON output
// ---------------------------------------------------------------------------

/// The first occurrence of each string, in order of first occurrence.
pub open spec fn dedup(s: Seq<Seq<char>>) -> Seq<Seq<char>>
    decreases s.len(),
{
    if s.len() == 0 {
        Seq::empty()
    } else {
        let d = dedup(s.drop_last());
        if d.contains(s.last()) {
            d
        } else {
            d.push(s.last())
        }
    }
}

fn contains_string(v: &Vec<String>, x: &String) -> (r: bool)
    ensures
        r == strs_view(v@).contains(x@),
{
    let mut i: usize = 0;
    while i < v.len()
        invariant
            i <= v@.len(),
            forall|k: int| 0 <= k < i ==> v@[k]@ != x@,
        decreases v@.len() - i,
    {
        if str_eq(v[i].as_str(), x.as_str()) {
            assert(strs_view(v@)[i as int] == x@);
            return true;
        }
        i += 1;
    }
    proof {
        if strs_view(v@).contains(x@) {
            let k = choose|k: int| 0 <= k < strs_view(v@).len() && strs_view(v@)[k] == x@;
            assert(v@[k]@ == x@);
        }
    }
    false
}

/// The values with repeats removed, each kept where it first occurs.
pub fn unique_preserving_order(values: Vec<String>) -> (r: Vec<String>)
    ensures
        strs_view(r@) == dedup(strs_view(values@)),
{
    let mut out: Vec<String> = Vec::new();
    let mut i: usize = 0;
    assert(strs_view(values@).take(0) =~= Seq::<Seq<char>>::empty());
    assert(strs_view(out@) =~= Seq::<Seq<char>>::empty());
    while i < values.len()
        invariant
            i <= values@.len(),
            strs_view(out@) == dedup(strs_view(values@).take(i as int)),
        decreases values@.len() - i,
    {
        let ghost t = strs_view(values@).take(i + 1);
        assert(t.drop_last() =~= strs_view(values@).take(i as int));
        assert(t.last() == values@[i as int]@);
        let v = &values[i];
        if !contains_string(&out, v) {
            let ghost old_out = out@;
            out.push(v.clone());
            assert(strs_view(out@) =~= strs_view(old_out).push(values@[i as int]@));
        }
        i += 1;
    }
    assert(strs_view(values@).take(values@.len() as int) =~= strs_view(values@));
    out
}

/// A JSON value of one cell: a string or a number.
#[derive(Debug, Clone, PartialEq, Eq)]
pub enum JsonCell {
    Text(String),
    Number(isize),
}

/// The JSON value of a cell: empty cells are left out.
pub open spec fn json_of(cell: CellValue) -> Option<JsonCell> {
    match cell {
        CellValue::Text(s) => Some(JsonCell::Text(s)),
        CellValue::Number(n) => Some(JsonCell::Number(n)),
        CellValue::Empty => None,
    }
}

/// The JSON value of a cell.
pub fn cell_to_json(cell: &CellValue) -> (r: Option<JsonCell>)
    ensures
        r == json_of(*cell),
{
    match cell {
        CellValue::Text(value) => Some(JsonCell::Text(value.clone())),
        CellValue::Number(value) => Some(JsonCell::Number(*value)),
        CellValue::Empty => None,
    }
}

/// The index of the first column with key `key`.
pub open spec fn key_index(cols: Seq<ColumnSpec>, key: Seq<char>) -> Option<int> {
    if exists|i: int| 0 <= i < cols.len() && (#[trigger] cols[i]).key@ == key {
        Some(
            choose|i: int|
                0 <= i < cols.len() && (#[trigger] cols[i]).key@ == key && forall|j: int|
                    0 <= j < i ==> (#[trigger] cols[j]).key@ != key,
        )
    } else {
        None
    }
}

/// The entries of a row's JSON object for `keys`, in order: a key whose
/// column exists, whose cell exists and is not empty, with that cell's
/// value.
pub open spec fn json_entries(keys: Seq<Seq<char>>, cols: Seq<ColumnSpec>, cells: Seq<CellValue>) -> Seq<
    (Seq<char>, JsonCell),
>
    decreases keys.len(),
{
    if keys.len() == 0 {
        Seq::empty()
    } else {
        let before = json_entries(keys.drop_last(), cols, cells);
        let key = keys.last();
        match key_index(cols, key) {
            Some(ix) => if ix < cells.len() {
                match json_of(cells[ix]) {
                    Some(v) => before.push((key, v)),
                    None => before,
                }
            } else {
                before
            },
            None => before,
        }
    }
}

/// Entries by the text of their keys.
pub open spec fn entries_view(v: Seq<(String, JsonCell)>) -> Seq<(Seq<char>, JsonCell)> {
    v.map_values(|e: (String, JsonCell)| (e.0@, e.1))
}

proof fn lemma_key_index(cols: Seq<ColumnSpec>, key: Seq<char>, i: int)
    requires
        0 <= i < cols.len(),
        cols[i].key@ == key,
        forall|j: int| 0 <= j < i ==> (#[trigger] cols[j]).key@ != key,
    ensures
        key_index(cols, key) == Some(i),
{
    let c = choose|c: int|
        0 <= c < cols.len() && (#[trigger] cols[c]).key@ == key && forall|j: int|
            0 <= j < c ==> (#[trigger] cols[j]).key@ != key;
    assert(0 <= c < cols.len() && cols[c].key@ == key && forall|j: int|
        0 <= j < c ==> (#[trigger] cols[j]).key@ != key) by {
        assert(0 <= i < cols.len() && (#[trigger] cols[i]).key@ == key && forall|j: int|
            0 <= j < i ==> (#[trigger] cols[j]).key@ != key);
    }
    if c < i {
        assert(cols[c].key@ != key);
    }
    if i < c {
        assert(cols[i].key@ != key);
    }
}

/// The JSON objects of the rows: for each row, the entries for the keys the
/// template names (each key once, in order of first mention).
pub fn json_objects(rows: &Vec<OutputRow>, template: &str, columns: &ColumnCatalog) -> (r: Vec<
    Vec<(String, JsonCell)>,
>)
    ensures
        r@.len() == rows@.len(),
        forall|i: int|
            0 <= i < r@.len() ==> entries_view((#[trigger] r@[i])@) == json_entries(
                dedup(placeholders(template@)),
                columns.cols(),
                rows@[i].cells@,
            ),
{
    let keys = unique_preserving_order(parse_columns_from_format(template));
    let ghost ks = strs_view(keys@);
    let mut out: Vec<Vec<(String, JsonCell)>> = Vec::new();
    let mut r: usize = 0;
    while r < rows.len()
        invariant
            r <= rows@.len(),
            out@.len() == r,
            ks == strs_view(keys@),
            ks == dedup(placeholders(template@)),
            forall|i: int|
                0 <= i < r ==> entries_view((#[trigger] out@[i])@) == json_entries(
                    ks,
                    columns.cols(),
                    rows@[i].cells@,
                ),
        decreases rows@.len() - r,
    {
        let row = &rows[r];
        let mut obj: Vec<(String, JsonCell)> = Vec::new();
        let mut k: usize = 0;
        assert(ks.take(0) =~= Seq::<Seq<char>>::empty());
        assert(entries_view(obj@) =~= Seq::<(Seq<char>, JsonCell)>::empty());
        while k < keys.len()
            invariant
                k <= keys@.len(),
                ks == strs_view(keys@),
                entries_view(obj@) == json_entries(ks.take(k as int), columns.cols(), row.cells@),
            decreases keys@.len() - k,
        {
            let ghost t = ks.take(k + 1);
            assert(t.drop_last() =~= ks.take(k as int));
            assert(t.last() == keys@[k as int]@);
            let key = &keys[k];
            match columns.column_ix(key.as_str()) {
                Some(ix) => {
                    proof {
                        lemma_key_index(columns.cols(), key@, ix as int);
                    }
                    if ix < row.cells.len() {
                        match cell_to_json(&row.cells[ix]) {
                            Some(value) => {
                                let ghost old_obj = obj@;
                                obj.push((key.clone(), value));
                                assert(entries_view(obj@) =~= entries_view(old_obj).push(
                                    (key@, json_of(row.cells@[ix as int])->Some_0),
                                ));
                            },
                            None => {},
                        }
                    }
                },
                None => {
                    assert(!(exists|i: int|
                        0 <= i < columns.cols().len() && (#[trigger] columns.cols()[i]).key@ == key@));
                },
            }
            k += 1;
        }
        assert(ks.take(keys@.len() as int) =~= ks);
        out.push(obj);
        r += 1;
    }
    out
}

// ---------------------------------------------------------------------------
// The directories to inspect
// ---------------------------------------------------------------------------

/// The usage message when no directory is given.
pub open spec fn usage_msg() -> Seq<char> {
    "Usage: is-tree <directory> [directories...] | --all"@
}

/// The directories to inspect: with `all`, each of the current directory's
/// subdirectories joined to `.`; otherwise the directories given, of which
/// there must be at least one.
pub fn resolve_paths(all: bool, subdirectories: &Vec<String>, directories: &Vec<String>) -> (r:
    PluginResult<Vec<String>>)
    ensures
        match r {
            Ok(v) => if all {
                strs_view(v@) == strs_view(subdirectories@).map_values(
                    |name: Seq<char>| crate::paths::path_join("."@, name),
                )
            } else {
                directories@.len() > 0 && strs_view(v@) == strs_view(directories@)
            },
            Err(e) => !all && directories@.len() == 0 && e@ == usage_msg(),
        },
{
    if all {
        let mut out: Vec<String> = Vec::new();
        let mut i: usize = 0;
        while i < subdirectories.len()
            invariant
                i <= subdirectories@.len(),
                strs_view(out@) == strs_view(subdirectories@.take(i as int)).map_values(
                    |name: Seq<char>| crate::paths::path_join("."@, name),
                ),
            decreases subdirectories@.len() - i,
        {
            let ghost old_out = out@;
            out.push(crate::paths::join_path(".", subdirectories[i].as_str()));
            assert(subdirectories@.take(i + 1) =~= subdirectories@.take(i as int).push(
                subdirectories@[i as int],
            ));
            assert(strs_view(out@) =~= strs_view(old_out).push(
                crate::paths::path_join("."@, subdirectories@[i as int]@),
            ));
            i += 1;
            assert(strs_view(out@) =~= strs_view(subdirectories@.take(i as int)).map_values(
                |name: Seq<char>| crate::paths::path_join("."@, name),
            ));
        }
        assert(subdirectories@.take(subdirectories@.len() as int) =~= subdirectories@);
        return Ok(out);
    }
    if directories.len() == 0 {
        let msg = "Usage: is-tree <directory> [directories...] | --all";
        return Err(msg.to_owned());
    }
    let mut out: Vec<String> = Vec::new();
    let mut i: usize = 0;
    while i < directories.len()
        invariant
            i <= directories@.len(),
            strs_view(out@) == strs_view(directories@.take(i as int)),
        decreases directories@.len() - i,
    {
        let ghost old_out = out@;
        out.push(directories[i].clone());
        assert(strs_view(out@) =~= strs_view(old_out).push(directories@[i as int]@));
        assert(directories@.take(i + 1) =~= directories@.take(i as int).push(directories@[i as int]));
        i += 1;
        assert(strs_view(out@) =~= strs_view(directories@.take(i as int)));
    }
    assert(directories@.take(directories@.len() as int) =~= directories@);
    Ok(out)
}

/// Whether a directory name is hidden (starts with `.`).
pub open spec fn is_hidden(name: Seq<char>) -> bool {
    name.len() > 0 && name[0] == '.'
}

/// Whether the strings are in ascending order.
pub open spec fn sorted_lex(s: Seq<Seq<char>>) -> bool {
    forall|i: int, j: int| 0 <= i < j < s.len() ==> lex_le(#[trigger] s[i], #[trigger] s[j])
}

/// The names that are not hidden.
pub open spec fn visible_names(names: Seq<Seq<char>>) -> Seq<Seq<char>> {
    names.filter(|n: Seq<char>| !is_hidden(n))
}

fn is_hidden_name(name: &String) -> (r: bool)
    ensures
        r == is_hidden(name@),
{
    let c = chars_of(name.as_str());
    c.len() > 0 && c[0] == '.'
}

/// Inserts `x` into a sorted vector at the first position whose element is
/// greater than `x`.
fn insert_sorted(v: &mut Vec<String>, x: String)
    requires
        sorted_lex(strs_view(old(v)@)),
    ensures
        sorted_lex(strs_view(final(v)@)),
        strs_view(final(v)@).to_multiset() == strs_view(old(v)@).to_multiset().insert(x@),
{
    let xc = chars_of(x.as_str());
    let mut p: usize = 0;
    while p < v.len() && lex_le_chars(&chars_of(v[p].as_str()), &xc)
        invariant
            p <= v@.len(),
            xc@ == x@,
            forall|q: int| 0 <= q < p ==> lex_le(#[trigger] strs_view(v@)[q], x@),
        decreases v@.len() - p,
    {
        p += 1;
    }
    let ghost old_s = strs_view(v@);
    proof {
        if p < v@.len() {
            assert(!lex_le(old_s[p as int], x@));
            lemma_lex_le_total(old_s[p as int], x@);
        }
    }
    v.insert(p, x);
    let ghost w = strs_view(v@);
    proof {
        assert(w =~= old_s.insert(p as int, x@));
        vstd::seq_lib::to_multiset_insert(old_s, p as int, x@);
        assert forall|i: int, j: int| 0 <= i < j < w.len() implies lex_le(#[trigger] w[i], #[trigger] w[j]) by {
            if j < p {
                assert(w[i] == old_s[i] && w[j] == old_s[j]);
            } else if j == p {
                assert(w[i] == old_s[i]);
            } else if i > p {
                assert(w[i] == old_s[i - 1] && w[j] == old_s[j - 1]);
            } else if i == p {
                assert(w[j] == old_s[j - 1]);
                if j - 1 > p {
                    assert(lex_le(old_s[p as int], old_s[j - 1]));
                    lemma_lex_le_trans(x@, old_s[p as int], old_s[j - 1]);
                }
            } else {
                assert(w[i] == old_s[i] && w[j] == old_s[j - 1]);
            }
        }
    }
}

/// The subdirectories to scan, from the names of the current directory's
/// subdirectories: those that are not hidden, in ascending order.
pub fn select_subdirectories(names: &Vec<String>) -> (r: Vec<String>)
    ensures
        sorted_lex(strs_view(r@)),
        strs_view(r@).to_multiset() == visible_names(strs_view(names@)).to_multiset(),
{
    let mut out: Vec<String> = Vec::new();
    let mut i: usize = 0;
    assert(strs_view(names@).take(0) =~= Seq::<Seq<char>>::empty());
    assert(visible_names(Seq::<Seq<char>>::empty()) =~= Seq::<Seq<char>>::empty());
    assert(strs_view(out@) =~= Seq::<Seq<char>>::empty());
    while i < names.len()
        invariant
            i <= names@.len(),
            sorted_lex(strs_view(out@)),
            strs_view(out@).to_multiset() == visible_names(strs_view(names@).take(i as int)).to_multiset(),
        decreases names@.len() - i,
    {
        let ghost before = strs_view(names@).take(i as int);
        assert(strs_view(names@).take(i + 1) =~= before.push(names@[i as int]@));
        proof {
            before.lemma_filter_push(names@[i as int]@, |n: Seq<char>| !is_hidden(n));
        }
        if !is_hidden_name(&names[i]) {
            insert_sorted(&mut out, names[i].clone());
            proof {
                vstd::seq_lib::to_multiset_build(visible_names(before), names@[i as int]@);
            }
        }
        i += 1;
    }
    assert(strs_view(names@).take(names@.len() as int) =~= strs_view(names@));
    out
}

} // verus!
