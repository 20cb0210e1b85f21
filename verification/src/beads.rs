//! Metadata of the beads issue tracker of a project, read with
//! `bd sql --json`.
//!
//! The query prints a JSON array of row objects.  It is parsed with
//! `serde_json` into `JsonElement`s, and the value of interest is read from
//! the first row.
use vstd::prelude::*;
use crate::plugin::strs_view;
use crate::process::{stdout_text, text_of_bytes, ProcessOutput};
use crate::text::opt_view;
use serde_json::Value;

verus! {

/// A JSON value as the beads queries read it.
pub enum JsonField {
    /// `null`.
    Null,
    /// A JSON string, unescaped.
    Text(String),
    /// Any other value, in the JSON text that `serde_json` renders for it.
    Other(String),
}

/// One member of a JSON object.
pub struct JsonEntry {
    pub key: String,
    pub value: JsonField,
}

/// One element of the top-level JSON array.
pub enum JsonElement {
    /// An object, with its members.
    Object(Vec<JsonEntry>),
    /// Any value that is not an object.
    NotObject,
}

/// A JSON value by the text it holds.
pub enum JsonFieldView {
    Null,
    Text(Seq<char>),
    Other(Seq<char>),
}

/// An element of the top-level array by the text it holds: an object as its
/// members (key, value) in order.
pub enum JsonElementView {
    Object(Seq<(Seq<char>, JsonFieldView)>),
    NotObject,
}

impl View for JsonField {
    type V = JsonFieldView;

    open spec fn view(&self) -> JsonFieldView {
        match self {
            JsonField::Null => JsonFieldView::Null,
            JsonField::Text(s) => JsonFieldView::Text(s@),
            JsonField::Other(s) => JsonFieldView::Other(s@),
        }
    }
}

/// The members of an object by their text.
pub open spec fn entries_view(entries: Seq<JsonEntry>) -> Seq<(Seq<char>, JsonFieldView)> {
    entries.map_values(|e: JsonEntry| (e.key@, e.value@))
}

impl View for JsonElement {
    type V = JsonElementView;

    open spec fn view(&self) -> JsonElementView {
        match self {
            JsonElement::Object(entries) => JsonElementView::Object(entries_view(entries@)),
            JsonElement::NotObject => JsonElementView::NotObject,
        }
    }
}

/// Parsed rows by their text.
pub open spec fn rows_view(rows: Option<Vec<JsonElement>>) -> Option<Seq<JsonElementView>> {
    match rows {
        Some(v) => Some(v@.map_values(|e: JsonElement| e@)),
        None => None,
    }
}

/// What `serde_json` makes of `text` read as a JSON array: its elements in
/// order, objects with their members in the order of `serde_json::Map`
/// (sorted by key); `None` when `text` is not a JSON array.
pub uninterp spec fn json_array(text: Seq<char>) -> Option<Seq<JsonElementView>>;

/// `serde_json::from_str::<Vec<serde_json::Value>>(text)`, each element
/// taken apart into a `JsonElement` (an object into its members, each
/// member's value into `null`, a string, or the JSON text of any other
/// value).  The result is a function of `text` alone; it is named and not
/// restated.
#[verifier::external_body]
fn parse_json_array(text: &str) -> (r: Option<Vec<JsonElement>>)
    ensures
        rows_view(r) == json_array(text@),
{
    match serde_json::from_str::<Vec<Value>>(text) {
        Ok(values) => Some(values.into_iter().map(|v| match v {
            Value::Object(m) => JsonElement::Object(m.into_iter().map(|(key, f)| JsonEntry {
                key,
                value: match f {
                    Value::Null => JsonField::Null,
                    Value::String(s) => JsonField::Text(s),
                    other => JsonField::Other(other.to_string()),
                },
            }).collect()),
            _ => JsonElement::NotObject,
        }).collect()),
        Err(_) => None,
    }
}

/// What has happened so far.
pub enum BeadsEvent {
    /// Nothing has run yet; whether `<dir>/.beads` exists.
    Start { beads_dir_exists: bool },
    /// The query finished (`None`: it could not be started).
    QueryDone { output: Option<ProcessOutput> },
}

/// What to do next.
pub enum BeadsAction {
    /// Run the `bd sql --json` query.
    RunQuery,
    /// Stop with this result.
    Finish(Option<String>),
}

/// The value of the first member named `key`.
pub open spec fn lookup(entries: Seq<(Seq<char>, JsonFieldView)>, key: Seq<char>) -> Option<
    JsonFieldView,
>
    decreases entries.len(),
{
    if entries.len() == 0 {
        None
    } else if entries[0].0 == key {
        Some(entries[0].1)
    } else {
        lookup(entries.drop_first(), key)
    }
}

/// The member `key` of the first row, if the rows parsed, there is a first
/// row, it is an object and it has that member.
pub open spec fn first_row_field(rows: Option<Seq<JsonElementView>>, key: Seq<char>) -> Option<
    JsonFieldView,
> {
    match rows {
        Some(v) => if v.len() > 0 {
            match v[0] {
                JsonElementView::Object(entries) => lookup(entries, key),
                JsonElementView::NotObject => None,
            }
        } else {
            None
        },
        None => None,
    }
}

/// `"value"`.
pub open spec fn value_key() -> Seq<char> {
    seq!['v', 'a', 'l', 'u', 'e']
}

/// `"last_changed"`.
pub open spec fn last_changed_key() -> Seq<char> {
    seq!['l', 'a', 's', 't', '_', 'c', 'h', 'a', 'n', 'g', 'e', 'd']
}

/// The view of a beads action: `None` for `RunQuery`.
pub open spec fn beads_action_view(a: BeadsAction) -> Option<Option<Seq<char>>> {
    match a {
        BeadsAction::RunQuery => None,
        BeadsAction::Finish(r) => Some(opt_view(r)),
    }
}

/// The issue prefix: the non-empty string `value` of the first row.
pub open spec fn prefix_of(rows: Option<Seq<JsonElementView>>) -> Option<Seq<char>> {
    match first_row_field(rows, value_key()) {
        Some(JsonFieldView::Text(s)) => if s.len() > 0 {
            Some(s)
        } else {
            None
        },
        _ => None,
    }
}

/// The last change: `last_changed` of the first row; a string as it is, any
/// other non-null value in its JSON rendering.
pub open spec fn last_changed_of(rows: Option<Seq<JsonElementView>>) -> Option<Seq<char>> {
    match first_row_field(rows, last_changed_key()) {
        Some(JsonFieldView::Text(s)) => Some(s),
        Some(JsonFieldView::Other(t)) => Some(t),
        _ => None,
    }
}

/// The step function shared by both queries: no `.beads` directory, no
/// query; a query that cannot start or fails gives nothing; otherwise its
/// output, parsed as a JSON array, gives the result.
pub open spec fn beads_step(
    event: BeadsEvent,
    pick: spec_fn(Option<Seq<JsonElementView>>) -> Option<Seq<char>>,
) -> Option<Option<Seq<char>>> {
    match event {
        BeadsEvent::Start { beads_dir_exists } => if beads_dir_exists {
            None
        } else {
            Some(None)
        },
        BeadsEvent::QueryDone { output } => match output {
            Some(o) => if o.success {
                Some(pick(json_array(stdout_text(o))))
            } else {
                Some(None)
            },
            None => Some(None),
        },
    }
}

/// The value of the first member of `entries` named `key`.
fn lookup_entry<'a>(entries: &'a Vec<JsonEntry>, key: &str) -> (r: Option<&'a JsonField>)
    ensures
        match r {
            Some(f) => lookup(entries_view(entries@), key@) == Some(f@),
            None => lookup(entries_view(entries@), key@) is None,
        },
{
    let mut i: usize = 0;
    assert(entries_view(entries@).skip(0) =~= entries_view(entries@));
    while i < entries.len()
        invariant
            i <= entries@.len(),
            lookup(entries_view(entries@), key@) == lookup(
                entries_view(entries@).skip(i as int),
                key@,
            ),
        decreases entries@.len() - i,
    {
        let ghost t = entries_view(entries@).skip(i as int);
        assert(t.drop_first() =~= entries_view(entries@).skip(i + 1));
        assert(t[0] == (entries@[i as int].key@, entries@[i as int].value@));
        if crate::text::str_eq(entries[i].key.as_str(), key) {
            return Some(&entries[i].value);
        }
        i += 1;
    }
    assert(entries_view(entries@).skip(i as int) =~= Seq::<(Seq<char>, JsonFieldView)>::empty());
    None
}

/// The member `key` of the first row.
fn first_field<'a>(rows: &'a Option<Vec<JsonElement>>, key: &str) -> (r: Option<&'a JsonField>)
    ensures
        match r {
            Some(f) => first_row_field(rows_view(*rows), key@) == Some(f@),
            None => first_row_field(rows_view(*rows), key@) is None,
        },
{
    match rows {
        Some(v) => {
            if v.len() == 0 {
                return None;
            }
            assert(rows_view(*rows)->Some_0[0] == v@[0]@);
            match &v[0] {
                JsonElement::Object(entries) => lookup_entry(entries, key),
                JsonElement::NotObject => None,
            }
        },
        None => None,
    }
}

/// The issue prefix from the parsed rows of the prefix query.
pub fn prefix_from_rows(rows: &Option<Vec<JsonElement>>) -> (r: Option<String>)
    ensures
        opt_view(r) == prefix_of(rows_view(*rows)),
{
    proof {
        reveal_strlit("value");
    }
    let key = "value";
    assert(key@ =~= value_key());
    match first_field(rows, key) {
        Some(JsonField::Text(s)) => {
            if s.as_str().is_empty() {
                None
            } else {
                Some(s.clone())
            }
        },
        _ => None,
    }
}

/// The last change from the parsed rows of the last-change query.
pub fn last_changed_from_rows(rows: &Option<Vec<JsonElement>>) -> (r: Option<String>)
    ensures
        opt_view(r) == last_changed_of(rows_view(*rows)),
{
    proof {
        reveal_strlit("last_changed");
    }
    let key = "last_changed";
    assert(key@ =~= last_changed_key());
    match first_field(rows, key) {
        Some(JsonField::Text(s)) => Some(s.clone()),
        Some(JsonField::Other(t)) => Some(t.clone()),
        _ => None,
    }
}

/// The parsed rows of a successful query's output.
fn query_rows(o: &ProcessOutput) -> (r: Option<Vec<JsonElement>>)
    ensures
        rows_view(r) == json_array(stdout_text(*o)),
{
    let text = text_of_bytes(o.stdout.as_slice());
    parse_json_array(text.as_str())
}

/// One step of the issue-prefix lookup (`SELECT value FROM config WHERE
/// key = 'issue_prefix'`).
pub fn get_beads_prefix(event: BeadsEvent) -> (action: BeadsAction)
    ensures
        beads_action_view(action) == beads_step(event, |rows| prefix_of(rows)),
{
    match event {
        BeadsEvent::Start { beads_dir_exists } => {
            if beads_dir_exists {
                BeadsAction::RunQuery
            } else {
                BeadsAction::Finish(None)
            }
        },
        BeadsEvent::QueryDone { output } => match output {
            Some(o) => {
                if o.success {
                    BeadsAction::Finish(prefix_from_rows(&query_rows(&o)))
                } else {
                    BeadsAction::Finish(None)
                }
            },
            None => BeadsAction::Finish(None),
        },
    }
}

/// One step of the last-change lookup (`SELECT MAX(updated_at) AS
/// last_changed FROM issues`).
pub fn get_beads_last_changed(event: BeadsEvent) -> (action: BeadsAction)
    ensures
        beads_action_view(action) == beads_step(event, |rows| last_changed_of(rows)),
{
    match event {
        BeadsEvent::Start { beads_dir_exists } => {
            if beads_dir_exists {
                BeadsAction::RunQuery
            } else {
                BeadsAction::Finish(None)
            }
        },
        BeadsEvent::QueryDone { output } => match output {
            Some(o) => {
                if o.success {
                    BeadsAction::Finish(last_changed_from_rows(&query_rows(&o)))
                } else {
                    BeadsAction::Finish(None)
                }
            },
            None => BeadsAction::Finish(None),
        },
    }
}

/// The command line of the issue-prefix query, run in the project
/// directory: `bd sql --json` with the query that selects `value` from
/// `config` where the key is `issue_prefix`.
pub fn prefix_query_command() -> (r: Vec<String>)
    ensures
        strs_view(r@) == seq![
            "bd"@,
            "sql"@,
            "--json"@,
            "SELECT value FROM config WHERE `key` = 'issue_prefix'"@,
        ],
{
    let r = vec![
        "bd".to_owned(),
        "sql".to_owned(),
        "--json".to_owned(),
        "SELECT value FROM config WHERE `key` = 'issue_prefix'".to_owned(),
    ];
    assert(strs_view(r@) =~= seq![
        "bd"@,
        "sql"@,
        "--json"@,
        "SELECT value FROM config WHERE `key` = 'issue_prefix'"@,
    ]);
    r
}

/// The command line of the last-change query, run in the project
/// directory: `bd sql --json "SELECT MAX(updated_at) AS last_changed FROM
/// issues"`.
pub fn last_changed_query_command() -> (r: Vec<String>)
    ensures
        strs_view(r@) == seq![
            "bd"@,
            "sql"@,
            "--json"@,
            "SELECT MAX(updated_at) AS last_changed FROM issues"@,
        ],
{
    let r = vec![
        "bd".to_owned(),
        "sql".to_owned(),
        "--json".to_owned(),
        "SELECT MAX(updated_at) AS last_changed FROM issues".to_owned(),
    ];
    assert(strs_view(r@) =~= seq![
        "bd"@,
        "sql"@,
        "--json"@,
        "SELECT MAX(updated_at) AS last_changed FROM issues"@,
    ]);
    r
}

} // verus!
