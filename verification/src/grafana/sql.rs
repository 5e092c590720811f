//! Extraction of per-panel SQL and sample rows from scraped data.
//!
//! Two kinds of SQL, never conflated:
//!
//! - Template SQL: the panel target's raw `rawSql`. Always present,
//!   deterministic, `$variables` shown verbatim.
//! - Executed SQL: `results.<refId>.meta.executedQueryString` of the query
//!   response. Present only where the datasource exposes it; never invented.

use crate::collect::{
    clip_chars, clipped, collected, first_some, lemma_collected_step, lemma_first_some_step,
    byte_len,
};
use crate::json::{
    array_view, bool_member, get_bool, get_member, get_text, get_text_or, items_of, items_of_json,
    json_text, member, members_of_json, opt_view, pretty_text, ref_views, text_member,
    text_member_or, with_member, Json, JsonMap, JsonV,
};
use crate::text::{chars_of, decimal, decimal_usize, same, trim, trim_chars};
use vstd::prelude::*;

verus! {

/// Max rows in a sample.
pub const SAMPLE_MAX_ROWS: usize = 10;

/// Max bytes of indented JSON in a sample.
pub const SAMPLE_MAX_BYTES: usize = 4096;

// ---------------------------------------------------------------------------
// Template and executed SQL
// ---------------------------------------------------------------------------

/// The SQL of a target that is not hidden, as it stands; none where it is blank.
pub open spec fn target_sql(target: JsonV) -> Option<Seq<char>> {
    if bool_member(Some(target), "hide"@) == Some(true) {
        None
    } else {
        match text_member(Some(target), "rawSql"@) {
            Some(s) => if trim(s).len() > 0 {
                Some(s)
            } else {
                None
            },
            None => None,
        }
    }
}

/// The SQL of a panel's targets.
pub open spec fn template_sql_of(panel: JsonV) -> Seq<Seq<char>> {
    collected(items_of_json(member(Some(panel), "targets"@)), |t: JsonV| target_sql(t))
}

fn one_target_sql(target: &Json) -> (r: Option<String>)
    ensures
        r.deep_view() == target_sql(target@),
{
    match get_bool(Some(target), "hide") {
        Some(true) => None,
        _ => match get_text(Some(target), "rawSql") {
            Some(s) => if trim_chars(&chars_of(s.as_str())).len() > 0 {
                Some(s)
            } else {
                None
            },
            None => None,
        },
    }
}

/// Raw `rawSql` per non-hidden target of a panel, in target order, verbatim
/// (`$variables` intact); redaction is a later render-time pass.
pub fn template_sql(panel: &Json) -> (r: Vec<String>)
    ensures
        r.deep_view() == template_sql_of(panel@),
{
    let targets = items_of(get_member(Some(panel), "targets"));
    let ghost all = ref_views(targets@);
    let ghost f = |t: JsonV| target_sql(t);
    let mut out: Vec<String> = Vec::new();
    for i in 0..targets.len()
        invariant
            all == ref_views(targets@),
            f == (|t: JsonV| target_sql(t)),
            out.deep_view() == collected(all.take(i as int), f),
    {
        proof {
            lemma_collected_step(all, f, i as int);
        }
        if let Some(s) = one_target_sql(targets[i]) {
            out.push(s);
        }
        assert(out.deep_view() =~= collected(all.take(i + 1), f));
    }
    assert(all.take(all.len() as int) =~= all);
    out
}

/// The executed SQL that one frame of a result exposes.
pub open spec fn frame_executed_sql(frame: JsonV) -> Option<Seq<char>> {
    text_member(member(member(Some(frame), "schema"@), "meta"@), "executedQueryString"@)
}

/// The executed SQL that a result exposes: at the top level, else in its first
/// frame that does.
pub open spec fn result_executed_sql_of(result: JsonV) -> Option<Seq<char>> {
    match text_member(member(Some(result), "meta"@), "executedQueryString"@) {
        Some(s) => Some(s),
        None => first_some(
            items_of_json(member(Some(result), "frames"@)),
            |f: JsonV| frame_executed_sql(f),
        ),
    }
}

/// The executed SQL of a response, by query id.
pub open spec fn executed_sql_of(data: JsonV) -> Seq<Seq<char>> {
    collected(
        members_of_json(member(Some(data), "results"@)),
        |m: (Seq<char>, JsonV)| result_executed_sql_of(m.1),
    )
}

fn result_executed_sql(result: &Json) -> (r: Option<String>)
    ensures
        r.deep_view() == result_executed_sql_of(result@),
{
    if let Some(s) = get_text(get_member(Some(result), "meta"), "executedQueryString") {
        return Some(s);
    }
    let frames = items_of(get_member(Some(result), "frames"));
    let ghost all = ref_views(frames@);
    let ghost f = |f: JsonV| frame_executed_sql(f);
    assert(all.skip(0) =~= all);
    for i in 0..frames.len()
        invariant
            all == ref_views(frames@),
            f == (|f: JsonV| frame_executed_sql(f)),
            text_member(member(Some(result@), "meta"@), "executedQueryString"@) is None,
            all == items_of_json(member(Some(result@), "frames"@)),
            first_some(all, f) == first_some(all.skip(i as int), f),
    {
        proof {
            lemma_first_some_step(all, f, i as int);
        }
        let schema = get_member(Some(frames[i]), "schema");
        if let Some(s) = get_text(get_member(schema, "meta"), "executedQueryString") {
            return Some(s);
        }
    }
    assert(all.skip(all.len() as int) =~= Seq::<JsonV>::empty());
    None
}

/// Executed SQL read from a query response, one per query id that exposes it,
/// in the order of the ids. Empty where the datasource does not expose any.
pub fn executed_sql(data: &Json) -> (r: Vec<String>)
    ensures
        r.deep_view() == executed_sql_of(data@),
{
    let mut out: Vec<String> = Vec::new();
    let results = get_member(Some(data), "results");
    if let Some(r) = results {
        if let Some(m) = r.as_object() {
            let ghost f = |m: (Seq<char>, JsonV)| result_executed_sql_of(m.1);
            let n: usize = m.len();
            for i in 0..n
                invariant
                    n == m@.len(),
                    f == (|m: (Seq<char>, JsonV)| result_executed_sql_of(m.1)),
                    out.deep_view() == collected(m@.take(i as int), f),
            {
                proof {
                    lemma_collected_step(m@, f, i as int);
                }
                if let Some(s) = result_executed_sql(m.value(i)) {
                    out.push(s);
                }
                assert(out.deep_view() =~= collected(m@.take(i + 1), f));
            }
            assert(m@.take(m@.len() as int) =~= m@);
        }
    }
    assert(results is None || !(results->0@ is Object) ==> out.deep_view() =~= executed_sql_of(data@));
    out
}

// ---------------------------------------------------------------------------
// Sample rows
// ---------------------------------------------------------------------------

/// A frame that has an array of columns.
pub open spec fn frame_with_values(frame: JsonV) -> Option<JsonV> {
    if columns_of(frame) is Some {
        Some(frame)
    } else {
        None
    }
}

/// The first frame of a result that has an array of columns.
pub open spec fn result_frame(result: JsonV) -> Option<JsonV> {
    first_some(
        items_of_json(member(Some(result), "frames"@)),
        |f: JsonV| frame_with_values(f),
    )
}

/// The first frame of a response, by query id, that has an array of columns.
pub open spec fn first_frame_of(data: JsonV) -> Option<JsonV> {
    first_some(
        members_of_json(member(Some(data), "results"@)),
        |m: (Seq<char>, JsonV)| result_frame(m.1),
    )
}

fn first_frame_of_result<'a>(result: &'a Json) -> (r: Option<&'a Json>)
    ensures
        opt_view(r) == result_frame(result@),
{
    let frames = items_of(get_member(Some(result), "frames"));
    let ghost all = ref_views(frames@);
    let ghost f = |f: JsonV| frame_with_values(f);
    assert(all.skip(0) =~= all);
    for i in 0..frames.len()
        invariant
            all == ref_views(frames@),
            f == (|f: JsonV| frame_with_values(f)),
            all == items_of_json(member(Some(result@), "frames"@)),
            first_some(all, f) == first_some(all.skip(i as int), f),
    {
        proof {
            lemma_first_some_step(all, f, i as int);
        }
        if columns(frames[i]).is_some() {
            return Some(frames[i]);
        }
    }
    assert(all.skip(all.len() as int) =~= Seq::<JsonV>::empty());
    None
}

fn first_frame<'a>(data: &'a Json) -> (r: Option<&'a Json>)
    ensures
        opt_view(r) == first_frame_of(data@),
{
    if let Some(r) = get_member(Some(data), "results") {
        if let Some(m) = r.as_object() {
            let ghost f = |m: (Seq<char>, JsonV)| result_frame(m.1);
            assert(m@.skip(0) =~= m@);
            let n: usize = m.len();
            for i in 0..n
                invariant
                    n == m@.len(),
                    f == (|m: (Seq<char>, JsonV)| result_frame(m.1)),
                    m@ == members_of_json(member(Some(data@), "results"@)),
                    first_some(m@, f) == first_some(m@.skip(i as int), f),
            {
                proof {
                    lemma_first_some_step(m@, f, i as int);
                }
                if let Some(frame) = first_frame_of_result(m.value(i)) {
                    return Some(frame);
                }
            }
            assert(m@.skip(m@.len() as int) =~= Seq::<(Seq<char>, JsonV)>::empty());
        }
    }
    None
}

/// The columns of a frame, where it has an array of them.
pub open spec fn columns_of(frame: JsonV) -> Option<Seq<JsonV>> {
    match member(member(Some(frame), "data"@), "values"@) {
        Some(JsonV::Array(xs)) => Some(xs),
        _ => None,
    }
}

fn columns<'a>(frame: &'a Json) -> (r: Option<&'a Vec<Json>>)
    ensures
        match r {
            Some(xs) => columns_of(frame@) == Some(array_view(xs@)),
            None => columns_of(frame@) is None,
        },
{
    match get_member(get_member(Some(frame), "data"), "values") {
        Some(v) => v.as_array(),
        None => None,
    }
}

/// The name of the column number `c` when nothing names it.
pub open spec fn unnamed_column(c: nat) -> Seq<char> {
    "col"@ + decimal(c)
}

/// The name that a field gives its column.
pub open spec fn field_name(field: JsonV, c: nat) -> Seq<char> {
    match text_member(Some(field), "name"@) {
        Some(s) => s,
        None => unnamed_column(c),
    }
}

/// The names that a frame's fields give its columns.
pub open spec fn field_names_of(frame: JsonV) -> Seq<Seq<char>> {
    let fields = items_of_json(member(member(Some(frame), "schema"@), "fields"@));
    Seq::new(fields.len(), |i: int| field_name(fields[i], i as nat))
}

fn numbered_column(c: usize) -> (r: String)
    ensures
        r@ == unnamed_column(c as nat),
{
    let mut s = "col".to_owned();
    s.append(decimal_usize(c).as_str());
    s
}

fn field_names(frame: &Json) -> (r: Vec<String>)
    ensures
        r.deep_view() == field_names_of(frame@),
{
    let fields = items_of(get_member(get_member(Some(frame), "schema"), "fields"));
    let ghost all = ref_views(fields@);
    let mut out: Vec<String> = Vec::new();
    for i in 0..fields.len()
        invariant
            all == ref_views(fields@),
            out@.len() == i,
            forall|k: int| 0 <= k < i ==> (#[trigger] out@[k])@ == field_name(all[k], k as nat),
    {
        let name = match get_text(Some(fields[i]), "name") {
            Some(s) => s,
            None => numbered_column(i),
        };
        out.push(name);
    }
    assert(out.deep_view() =~= field_names_of(frame@));
    out
}

/// The name of the column number `c`.
pub open spec fn column_name(names: Seq<Seq<char>>, c: int) -> Seq<char> {
    if 0 <= c < names.len() {
        names[c]
    } else {
        unnamed_column(c as nat)
    }
}

/// The cell number `i` of a column.
pub open spec fn column_cell(column: JsonV, i: int) -> JsonV {
    match column {
        JsonV::Array(cells) => if 0 <= i < cells.len() {
            cells[i]
        } else {
            JsonV::Null
        },
        _ => JsonV::Null,
    }
}

/// Row `i` as the members of an object, from the first `c` columns.
pub open spec fn row_members(
    names: Seq<Seq<char>>,
    columns: Seq<JsonV>,
    i: int,
    c: int,
) -> Seq<(Seq<char>, JsonV)>
    decreases c,
{
    if c <= 0 {
        Seq::empty()
    } else {
        with_member(
            row_members(names, columns, i, c - 1),
            column_name(names, c - 1),
            column_cell(columns[c - 1], i),
        )
    }
}

fn row_object(names: &Vec<String>, columns: &Vec<Json>, i: usize) -> (r: Json)
    ensures
        r@ == JsonV::Object(
            row_members(names.deep_view(), array_view(columns@), i as int, columns@.len() as int),
        ),
{
    let mut row = JsonMap::new();
    for c in 0..columns.len()
        invariant
            row@ == row_members(names.deep_view(), array_view(columns@), i as int, c as int),
    {
        let name = if c < names.len() {
            names[c].clone()
        } else {
            numbered_column(c)
        };
        assert(c < names@.len() ==> names.deep_view()[c as int] == names@[c as int]@);
        let cell = match columns[c].as_array() {
            Some(cells) => if i < cells.len() {
                cells[i].copy()
            } else {
                Json::Null
            },
            None => Json::Null,
        };
        row.insert(name, cell);
    }
    Json::Object(row)
}

/// The length of the longest column that is an array.
pub open spec fn longest_column(columns: Seq<JsonV>) -> Option<nat>
    decreases columns.len(),
{
    if columns.len() == 0 {
        None
    } else {
        let before = longest_column(columns.drop_last());
        match columns.last() {
            JsonV::Array(cells) => match before {
                Some(n) => if n >= cells.len() {
                    Some(n)
                } else {
                    Some(cells.len())
                },
                None => Some(cells.len()),
            },
            _ => before,
        }
    }
}

pub(crate) fn longest(columns: &Vec<Json>) -> (r: Option<usize>)
    ensures
        match r {
            Some(n) => longest_column(array_view(columns@)) == Some(n as nat),
            None => longest_column(array_view(columns@)) is None,
        },
{
    let ghost all = array_view(columns@);
    let mut best: Option<usize> = None;
    for i in 0..columns.len()
        invariant
            all == array_view(columns@),
            match best {
                Some(n) => longest_column(all.take(i as int)) == Some(n as nat),
                None => longest_column(all.take(i as int)) is None,
            },
    {
        assert(all.take(i + 1).drop_last() =~= all.take(i as int));
        if let Some(cells) = columns[i].as_array() {
            best = match best {
                Some(n) => if n >= cells.len() {
                    Some(n)
                } else {
                    Some(cells.len())
                },
                None => Some(cells.len()),
            };
        }
    }
    assert(all.take(all.len() as int) =~= all);
    best
}

/// What follows a sample that was cut short.
pub open spec fn clip_marker() -> Seq<char> {
    "\n… (clipped to "@ + decimal(SAMPLE_MAX_BYTES as nat) + " bytes)"@
}

/// The indented form of a value, cut to the byte limit of a sample.
pub open spec fn clip_of(v: JsonV) -> Seq<char> {
    clipped_text(pretty_text(v))
}

/// `s`, cut between two characters where it takes more bytes than a sample may.
pub open spec fn clipped_text(s: Seq<char>) -> Seq<char> {
    if byte_len(s) <= SAMPLE_MAX_BYTES {
        s
    } else {
        clipped(s, SAMPLE_MAX_BYTES as nat) + clip_marker()
    }
}

/// Cut a text to the byte limit of a sample, with a marker where it was cut.
pub fn clip_text(s: &str) -> (r: String)
    ensures
        r@ == clipped_text(s@),
{
    let (mut kept, whole) = clip_chars(&chars_of(s), SAMPLE_MAX_BYTES);
    if whole {
        assert(clipped(s@, SAMPLE_MAX_BYTES as nat) == s@);
        return kept;
    }
    let mut marker = "\n… (clipped to ".to_owned();
    marker.append(decimal_usize(SAMPLE_MAX_BYTES).as_str());
    marker.append(" bytes)");
    kept.append(marker.as_str());
    kept
}

/// The first rows of a frame, as objects.
pub open spec fn row_list(names: Seq<Seq<char>>, columns: Seq<JsonV>, rows: nat) -> Seq<JsonV> {
    Seq::new(
        rows,
        |i: int| JsonV::Object(row_members(names, columns, i, columns.len() as int)),
    )
}

/// A sample of the rows of a response.
pub open spec fn sample_rows_of(data: JsonV) -> Option<Seq<char>> {
    match first_frame_of(data) {
        Some(frame) => match columns_of(frame) {
            Some(columns) => match longest_column(columns) {
                Some(n) => {
                    let rows = if n <= SAMPLE_MAX_ROWS {
                        n
                    } else {
                        SAMPLE_MAX_ROWS as nat
                    };
                    Some(clip_of(JsonV::Array(row_list(field_names_of(frame), columns, rows))))
                },
                None => None,
            },
            None => None,
        },
        None => None,
    }
}

/// A sample of returned rows from the first frame that carries data, as
/// indented JSON, limited in rows and bytes. `None` when the response carries
/// no columns.
pub fn sample_rows(data: &Json) -> (r: Option<String>)
    ensures
        r.deep_view() == sample_rows_of(data@),
{
    let frame = match first_frame(data) {
        Some(f) => f,
        None => return None,
    };
    let cols = match columns(frame) {
        Some(c) => c,
        None => return None,
    };
    let n = match longest(cols) {
        Some(n) => n,
        None => return None,
    };
    let names = field_names(frame);
    let take: usize = if n <= SAMPLE_MAX_ROWS {
        n
    } else {
        SAMPLE_MAX_ROWS
    };
    let mut rows: Vec<Json> = Vec::new();
    let ghost goal = row_list(names.deep_view(), array_view(cols@), take as nat);
    for i in 0..take
        invariant
            goal == row_list(names.deep_view(), array_view(cols@), take as nat),
            rows@.len() == i,
            forall|k: int| 0 <= k < i ==> (#[trigger] rows@[k])@ == goal[k],
    {
        rows.push(row_object(&names, cols, i));
    }
    assert(array_view(rows@) =~= goal);
    let all = Json::Array(rows);
    Some(clip_text(all.to_pretty_text().as_str()))
}

// ---------------------------------------------------------------------------
// Representative value
// ---------------------------------------------------------------------------

/// A JSON cell as a compact table-cell text.
pub open spec fn cell_text(v: JsonV) -> Seq<char> {
    match v {
        JsonV::Text(s) => s,
        _ => json_text(v),
    }
}

pub(crate) fn cell_display(v: &Json) -> (r: String)
    ensures
        r@ == cell_text(v@),
{
    match v {
        Json::Text(s) => s.clone(),
        _ => v.to_text(),
    }
}

/// The last cell of a column that is not null.
pub open spec fn last_value(cells: Seq<JsonV>) -> Option<Seq<char>>
    decreases cells.len(),
{
    if cells.len() == 0 {
        None
    } else if cells.last() is Null {
        last_value(cells.drop_last())
    } else {
        Some(cell_text(cells.last()))
    }
}

/// The representative value of a response: the last cell that is not null of
/// the last column of the first frame.
pub open spec fn representative_value_of(data: JsonV) -> Option<Seq<char>> {
    match first_frame_of(data) {
        Some(frame) => match columns_of(frame) {
            Some(columns) => if columns.len() == 0 {
                None
            } else {
                match columns.last() {
                    JsonV::Array(cells) => last_value(cells),
                    _ => None,
                }
            },
            None => None,
        },
        None => None,
    }
}

/// A single representative value for the panels table. `None` when there is no
/// data.
pub fn representative_value(data: &Json) -> (r: Option<String>)
    ensures
        r.deep_view() == representative_value_of(data@),
{
    let frame = match first_frame(data) {
        Some(f) => f,
        None => return None,
    };
    let cols = match columns(frame) {
        Some(c) => c,
        None => return None,
    };
    if cols.len() == 0 {
        return None;
    }
    let cells = match cols[cols.len() - 1].as_array() {
        Some(c) => c,
        None => return None,
    };
    let ghost all = array_view(cells@);
    assert(array_view(cols@).last() == JsonV::Array(all));
    let mut i: usize = cells.len();
    assert(all.take(all.len() as int) =~= all);
    while i > 0
        invariant
            i <= cells@.len(),
            all == array_view(cells@),
            last_value(all) == last_value(all.take(i as int)),
            last_value(all) == representative_value_of(data@),
        decreases i,
    {
        assert(all.take(i as int).drop_last() =~= all.take(i - 1));
        if !cells[i - 1].is_null() {
            return Some(cell_display(&cells[i - 1]));
        }
        i = i - 1;
    }
    None
}

// ---------------------------------------------------------------------------
// Datasources
// ---------------------------------------------------------------------------

/// One datasource as recorded in the instance sidecar.
#[derive(Debug, Clone)]
pub struct DsEntry {
    pub name: String,
    pub ds_type: String,
    pub uid: Option<String>,
    pub is_default: bool,
}

/// The model of a [`DsEntry`].
pub struct DsEntryV {
    pub name: Seq<char>,
    pub ds_type: Seq<char>,
    pub uid: Option<Seq<char>>,
    pub is_default: bool,
}

impl DeepView for DsEntry {
    type V = DsEntryV;

    open spec fn deep_view(&self) -> DsEntryV {
        DsEntryV {
            name: self.name@,
            ds_type: self.ds_type@,
            uid: self.uid.deep_view(),
            is_default: self.is_default,
        }
    }
}

/// The datasource that a row of the sidecar's list describes; it has a name.
pub open spec fn ds_of_row(row: JsonV) -> Option<DsEntryV> {
    match text_member(Some(row), "name"@) {
        Some(name) => Some(
            DsEntryV {
                name,
                ds_type: text_member_or(Some(row), "type"@, ""@),
                uid: text_member(Some(row), "uid"@),
                is_default: bool_member(Some(row), "isDefault"@) == Some(true),
            },
        ),
        None => None,
    }
}

/// The datasources of the sidecar's list.
pub open spec fn ds_list(datasources: JsonV) -> Seq<DsEntryV> {
    collected(items_of_json(Some(datasources)), |row: JsonV| ds_of_row(row))
}

impl DsEntry {
    fn from_row(row: &Json) -> (r: Option<DsEntry>)
        ensures
            r.deep_view() == ds_of_row(row@),
    {
        match get_text(Some(row), "name") {
            Some(name) => Some(
                DsEntry {
                    name,
                    ds_type: get_text_or(Some(row), "type", ""),
                    uid: get_text(Some(row), "uid"),
                    is_default: match get_bool(Some(row), "isDefault") {
                        Some(b) => b,
                        None => false,
                    },
                },
            ),
            None => None,
        }
    }

    /// Parse the sidecar's datasource array. Anything else yields an empty list.
    pub fn parse_list(datasources: &Json) -> (r: Vec<DsEntry>)
        ensures
            r.deep_view() == ds_list(datasources@),
    {
        let rows = items_of(Some(datasources));
        let ghost all = ref_views(rows@);
        let ghost f = |row: JsonV| ds_of_row(row);
        let mut out: Vec<DsEntry> = Vec::new();
        for i in 0..rows.len()
            invariant
                all == ref_views(rows@),
                f == (|row: JsonV| ds_of_row(row)),
                out.deep_view() == collected(all.take(i as int), f),
        {
            proof {
                lemma_collected_step(all, f, i as int);
            }
            if let Some(d) = DsEntry::from_row(rows[i]) {
                out.push(d);
            }
            assert(out.deep_view() =~= collected(all.take(i + 1), f));
        }
        assert(all.take(all.len() as int) =~= all);
        out
    }
}

/// What a datasource is searched by.
#[derive(Clone, Copy, PartialEq, Eq, Structural)]
pub enum DsBy {
    /// The default datasource.
    Default,
    Uid,
    Type,
    NameOrUid,
}

/// Whether `d` is what a search `by` the text `s` looks for.
pub open spec fn ds_is(d: DsEntryV, by: DsBy, s: Seq<char>) -> bool {
    match by {
        DsBy::Default => d.is_default,
        DsBy::Uid => d.uid == Some(s),
        DsBy::Type => d.ds_type == s,
        DsBy::NameOrUid => d.name == s || d.uid == Some(s),
    }
}

/// The name of `d` if it is what a search looks for.
pub open spec fn ds_name_if(d: DsEntryV, by: DsBy, s: Seq<char>) -> Option<Seq<char>> {
    if ds_is(d, by, s) {
        Some(d.name)
    } else {
        None
    }
}

/// The name of the first datasource that a search finds.
pub open spec fn found_ds(datasources: Seq<DsEntryV>, by: DsBy, s: Seq<char>) -> Option<Seq<char>> {
    first_some(datasources, |d: DsEntryV| ds_name_if(d, by, s))
}

pub(crate) fn find_ds(datasources: &Vec<DsEntry>, by: DsBy, s: &str) -> (r: Option<String>)
    ensures
        r.deep_view() == found_ds(datasources.deep_view(), by, s@),
{
    let ghost all = datasources.deep_view();
    let ghost f = |d: DsEntryV| ds_name_if(d, by, s@);
    assert(all.skip(0) =~= all);
    for i in 0..datasources.len()
        invariant
            all == datasources.deep_view(),
            f == (|d: DsEntryV| ds_name_if(d, by, s@)),
            first_some(all, f) == first_some(all.skip(i as int), f),
    {
        proof {
            lemma_first_some_step(all, f, i as int);
        }
        let d = &datasources[i];
        assert(all[i as int] == d.deep_view());
        let uid_is = match &d.uid {
            Some(u) => same(u.as_str(), s),
            None => false,
        };
        let hit = match by {
            DsBy::Default => d.is_default,
            DsBy::Uid => uid_is,
            DsBy::Type => same(d.ds_type.as_str(), s),
            DsBy::NameOrUid => same(d.name.as_str(), s) || uid_is,
        };
        if hit {
            return Some(d.name.clone());
        }
    }
    assert(all.skip(all.len() as int) =~= Seq::<DsEntryV>::empty());
    None
}

/// The name of the default datasource.
pub open spec fn default_ds_of(datasources: Seq<DsEntryV>) -> Seq<char> {
    match found_ds(datasources, DsBy::Default, ""@) {
        Some(name) => name,
        None => "default"@,
    }
}

fn default_ds(datasources: &Vec<DsEntry>) -> (r: String)
    ensures
        r@ == default_ds_of(datasources.deep_view()),
{
    match find_ds(datasources, DsBy::Default, "") {
        Some(name) => name,
        None => "default".to_owned(),
    }
}

/// The display name of a datasource reference that is an object. One with a uid
/// is found by it, or is the uid itself; one without is found by its type, or is
/// the type itself; one without either is the default.
pub open spec fn ds_object_name(obj: JsonV, datasources: Seq<DsEntryV>) -> Seq<char> {
    match text_member(Some(obj), "uid"@) {
        Some(uid) => match found_ds(datasources, DsBy::Uid, uid) {
            Some(name) => name,
            None => uid,
        },
        None => match text_member(Some(obj), "type"@) {
            Some(ty) => match found_ds(datasources, DsBy::Type, ty) {
                Some(name) => name,
                None => ty,
            },
            None => default_ds_of(datasources),
        },
    }
}

/// The display name of a datasource reference.
pub open spec fn ds_name_of(ds_ref: Option<JsonV>, datasources: Seq<DsEntryV>) -> Seq<char> {
    match ds_ref {
        None => default_ds_of(datasources),
        Some(JsonV::Null) => default_ds_of(datasources),
        Some(JsonV::Text(s)) => if s == "default"@ || s == "-- Grafana --"@ {
            default_ds_of(datasources)
        } else {
            match found_ds(datasources, DsBy::NameOrUid, s) {
                Some(name) => name,
                None => s,
            }
        },
        Some(JsonV::Object(_)) => ds_object_name(ds_ref->0, datasources),
        Some(other) => json_text(other),
    }
}

fn resolve_ds_object(obj: &Json, datasources: &Vec<DsEntry>) -> (r: String)
    ensures
        r@ == ds_object_name(obj@, datasources.deep_view()),
{
    if let Some(uid) = get_text(Some(obj), "uid") {
        return match find_ds(datasources, DsBy::Uid, uid.as_str()) {
            Some(name) => name,
            None => uid,
        };
    }
    match get_text(Some(obj), "type") {
        Some(ty) => match find_ds(datasources, DsBy::Type, ty.as_str()) {
            Some(name) => name,
            None => ty,
        },
        None => default_ds(datasources),
    }
}

/// Resolve a panel or target `datasource` reference to a display name. Never
/// invents: an unknown reference is returned verbatim (it may be a
/// `$variable`), and a missing one resolves to the default datasource.
pub fn resolve_ds_name(ds_ref: Option<&Json>, datasources: &Vec<DsEntry>) -> (r: String)
    ensures
        r@ == ds_name_of(opt_view(ds_ref), datasources.deep_view()),
{
    match ds_ref {
        None => default_ds(datasources),
        Some(v) => match v {
            Json::Null => default_ds(datasources),
            Json::Text(s) => if same(s.as_str(), "default") || same(s.as_str(), "-- Grafana --") {
                default_ds(datasources)
            } else {
                match find_ds(datasources, DsBy::NameOrUid, s.as_str()) {
                    Some(name) => name,
                    None => s.clone(),
                }
            },
            Json::Object(_) => resolve_ds_object(v, datasources),
            _ => v.to_text(),
        },
    }
}

} // verus!
