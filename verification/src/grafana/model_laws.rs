//! What the report model takes of dashboards and of the responses to their
//! queries, in terms of the JSON they are given in.

use crate::artifact::{ArtifactV, ItemV};
use crate::collect::{
    byte_len, clipped, collected, first_some, law_clipping_fits, lemma_collected_from,
    lemma_collected_has,
};
use crate::grafana::audit_laws::{
    asks_default, board, board_panels, board_title, board_uid, board_variables, frames_in,
    in_no_folder, lemma_collected_count, lemma_finds_some, lemma_same_count, lemma_search,
    means_named, means_none, results_in, shows_nothing,
};
use crate::grafana::laws::{
    law_pages_are_ordered, law_panels_are_ordered, law_tags_are_ordered, law_variables_are_ordered,
    lemma_ordered_contains,
};
use crate::grafana::model::{
    assembled, by_id, by_name, dashboard_of, page_order, panel_data_of, panel_item_id, panel_link,
    panel_of, payload_if, row_folder, variable_of, FactsV, PanelV,
};
use crate::grafana::sql::{
    clipped_text, column_cell, column_name, ds_list, ds_name_of, ds_of_row, executed_sql_of,
    field_names_of, first_frame_of, frame_executed_sql, frame_with_values, last_value,
    longest_column, representative_value_of, result_executed_sql_of, result_frame, row_list,
    row_members, sample_rows_of, target_sql, template_sql_of, DsBy, DsEntryV,
};
use crate::json::{
    bool_member, i64_of_json, items_of_json, json_text, keys_ascend, law_with_member_reads_back,
    lookup, member, pretty_text, text_member, text_of_json, JsonV,
};
use crate::json_laws::law_with_member_ascends;
use crate::order::{distinct_texts, law_distinct_texts, lemma_ordered_multiset, text_order};
use crate::text::{decimal, integer, join, lowercase, occurs, occurs_at, text_le, trim, white_space};
use crate::text_laws::{
    blank, law_collected_of_parts, law_first_some_is_first, law_trim, lemma_first_some_at,
    lemma_trim_parts, stands_at, stands_in,
};
use vstd::prelude::*;

verus! {

// ---------------------------------------------------------------------------
// SQL
// ---------------------------------------------------------------------------

/// The SQL of a target that is shown: what it gives as such, unless it is hidden
/// or blank.
pub open spec fn has_sql(target: JsonV, s: Seq<char>) -> bool {
    &&& bool_member(Some(target), "hide"@) != Some(true)
    &&& text_member(Some(target), "rawSql"@) == Some(s)
    &&& !blank(s)
}

proof fn lemma_blank(s: Seq<char>)
    ensures
        trim(s).len() == 0 <==> blank(s),
{
    let none = Seq::<char>::empty();
    if blank(s) {
        law_trim(s, none, none);
        assert(s + none + none =~= s);
    }
    if trim(s).len() == 0 {
        let (before, after) = lemma_trim_parts(s);
        assert(s =~= before + after);
        assert forall|i: int| 0 <= i < s.len() implies white_space(#[trigger] s[i]) by {
            if i < before.len() {
                assert(white_space(before[i]));
            } else {
                assert(white_space(after[i - before.len()]));
            }
        }
    }
}

/// The template SQL of a panel is that of its targets, one after the other.
pub proof fn law_template_sql_is_target_by_target(p: JsonV, q: JsonV, both: JsonV)
    requires
        items_of_json(member(Some(both), "targets"@)) == items_of_json(
            member(Some(p), "targets"@),
        ) + items_of_json(member(Some(q), "targets"@)),
    ensures
        template_sql_of(both) == template_sql_of(p) + template_sql_of(q),
        items_of_json(member(Some(p), "targets"@)).len() == 0 ==> template_sql_of(p).len() == 0,
{
    let a = items_of_json(member(Some(p), "targets"@));
    let b = items_of_json(member(Some(q), "targets"@));
    law_collected_of_parts(a, b, p, |t: JsonV| target_sql(t));
}

/// The template SQL of a panel with one target is the SQL of that one, if it is
/// shown.
pub proof fn law_template_sql_of_a_target(p: JsonV, s: Seq<char>)
    requires
        items_of_json(member(Some(p), "targets"@)).len() == 1,
    ensures
        has_sql(items_of_json(member(Some(p), "targets"@))[0], s) ==> template_sql_of(p) == seq![s],
        template_sql_of(p).contains(s) ==> has_sql(
            items_of_json(member(Some(p), "targets"@))[0],
            s,
        ),
        template_sql_of(p).len() <= 1,
{
    let a = items_of_json(member(Some(p), "targets"@));
    let f = |t: JsonV| target_sql(t);
    assert(a =~= seq![a[0]]);
    law_collected_of_parts(a, a, a[0], f);
    lemma_blank(s);
    if template_sql_of(p).contains(s) {
        let k = lemma_collected_from(a, f, s);
    }
}

/// The executed SQL of a response is that of its results, one after the other.
pub proof fn law_executed_sql_is_result_by_result(p: JsonV, q: JsonV, both: JsonV)
    requires
        results_in(Some(both)) == results_in(Some(p)) + results_in(Some(q)),
    ensures
        executed_sql_of(both) == executed_sql_of(p) + executed_sql_of(q),
        results_in(Some(p)).len() == 0 ==> executed_sql_of(p).len() == 0,
{
    law_collected_of_parts(
        results_in(Some(p)),
        results_in(Some(q)),
        (Seq::<char>::empty(), p),
        |m: (Seq<char>, JsonV)| result_executed_sql_of(m.1),
    );
}

/// The SQL that a result says it executed.
pub open spec fn says_executed(result: JsonV) -> Option<Seq<char>> {
    text_member(member(Some(result), "meta"@), "executedQueryString"@)
}

/// The SQL that a frame says it comes from.
pub open spec fn says_from(frame: JsonV) -> Option<Seq<char>> {
    text_member(member(member(Some(frame), "schema"@), "meta"@), "executedQueryString"@)
}

/// The executed SQL of a response with one result is what the result says, else
/// what the first frame says that says any.
pub proof fn law_executed_sql_of_a_result(data: JsonV, s: Seq<char>, g: int)
    requires
        results_in(Some(data)).len() == 1,
    ensures
        says_executed(results_in(Some(data))[0].1) == Some(s) ==> executed_sql_of(data) == seq![s],
        says_executed(results_in(Some(data))[0].1) is None && 0 <= g < frames_in(
            results_in(Some(data))[0].1,
        ).len() && says_from(frames_in(results_in(Some(data))[0].1)[g]) == Some(s) && (forall|l: int|
            0 <= l < g ==> says_from(
                #[trigger] frames_in(results_in(Some(data))[0].1)[l],
            ) is None) ==> executed_sql_of(data) == seq![s],
        says_executed(results_in(Some(data))[0].1) is None && (forall|l: int|
            0 <= l < frames_in(results_in(Some(data))[0].1).len() ==> says_from(
                #[trigger] frames_in(results_in(Some(data))[0].1)[l],
            ) is None) ==> executed_sql_of(data).len() == 0,
{
    let rs = results_in(Some(data));
    let r = rs[0].1;
    let frames = frames_in(r);
    let f = |m: (Seq<char>, JsonV)| result_executed_sql_of(m.1);
    let h = |x: JsonV| frame_executed_sql(x);
    assert(rs =~= seq![rs[0]]);
    law_collected_of_parts(rs, rs, rs[0], f);
    if says_executed(r) is None && 0 <= g < frames.len() && says_from(frames[g]) == Some(s) && (
    forall|l: int| 0 <= l < g ==> says_from(#[trigger] frames[l]) is None) {
        assert forall|l: int| 0 <= l < g implies h(#[trigger] frames[l]) is None by {
            assert(says_from(frames[l]) is None);
        }
        law_first_some_is_first(frames, h, g);
    }
    if says_executed(r) is None && (forall|l: int|
        0 <= l < frames.len() ==> says_from(#[trigger] frames[l]) is None) {
        if first_some(frames, h) is Some {
            let l = lemma_first_some_at(frames, h);
            assert(says_from(frames[l]) is None);
        }
    }
}

// ---------------------------------------------------------------------------
// Values
// ---------------------------------------------------------------------------

/// A frame holds columns of values.
pub open spec fn holds_columns(frame: JsonV) -> bool {
    member(member(Some(frame), "data"@), "values"@) matches Some(JsonV::Array(_))
}

/// The columns of a frame.
pub open spec fn columns_in(frame: JsonV) -> Seq<JsonV> {
    items_of_json(member(member(Some(frame), "data"@), "values"@))
}

/// The frame `g` of the result `n` of a response is the first one that holds
/// columns.
pub open spec fn is_first_frame(data: JsonV, n: int, g: int) -> bool {
    &&& 0 <= n < results_in(Some(data)).len()
    &&& 0 <= g < frames_in(results_in(Some(data))[n].1).len()
    &&& holds_columns(frames_in(results_in(Some(data))[n].1)[g])
    &&& forall|l: int|
        0 <= l < g ==> !holds_columns(#[trigger] frames_in(results_in(Some(data))[n].1)[l])
    &&& forall|k: int, l: int|
        0 <= k < n && 0 <= l < frames_in(results_in(Some(data))[k].1).len() ==> !holds_columns(
            #[trigger] frames_in(results_in(Some(data))[k].1)[l],
        )
}

/// No frame of a response holds columns.
pub open spec fn holds_no_frame(data: JsonV) -> bool {
    forall|k: int, l: int|
        0 <= k < results_in(Some(data)).len() && 0 <= l < frames_in(
            results_in(Some(data))[k].1,
        ).len() ==> !holds_columns(#[trigger] frames_in(results_in(Some(data))[k].1)[l])
}

proof fn lemma_no_frame_in(r: JsonV)
    ensures
        result_frame(r) is None <==> forall|l: int|
            0 <= l < frames_in(r).len() ==> !holds_columns(#[trigger] frames_in(r)[l]),
{
    let f = |x: JsonV| frame_with_values(x);
    let frames = frames_in(r);
    if result_frame(r) is None {
        assert forall|l: int| 0 <= l < frames.len() implies !holds_columns(#[trigger] frames[l]) by {
            if holds_columns(frames[l]) {
                lemma_finds_some(frames, f, l);
            }
        }
    } else {
        let l = lemma_first_some_at(frames, f);
        assert(holds_columns(frames[l]));
    }
}

proof fn lemma_first_frame(data: JsonV, n: int, g: int)
    ensures
        is_first_frame(data, n, g) ==> first_frame_of(data) == Some(
            frames_in(results_in(Some(data))[n].1)[g],
        ),
        holds_no_frame(data) ==> first_frame_of(data) is None,
{
    let rs = results_in(Some(data));
    let h = |m: (Seq<char>, JsonV)| result_frame(m.1);
    if is_first_frame(data, n, g) {
        let frames = frames_in(rs[n].1);
        let f = |x: JsonV| frame_with_values(x);
        assert forall|l: int| 0 <= l < g implies f(#[trigger] frames[l]) is None by {
            assert(!holds_columns(frames[l]));
        }
        law_first_some_is_first(frames, f, g);
        assert forall|k: int| 0 <= k < n implies h(#[trigger] rs[k]) is None by {
            lemma_no_frame_in(rs[k].1);
        }
        law_first_some_is_first(rs, h, n);
    }
    if holds_no_frame(data) && first_frame_of(data) is Some {
        let k = lemma_first_some_at(rs, h);
        lemma_no_frame_in(rs[k].1);
    }
}

/// The text of a cell: a text as it is, all else as JSON.
pub open spec fn told(cell: JsonV) -> Seq<char> {
    match cell {
        JsonV::Text(s) => s,
        other => json_text(other),
    }
}

proof fn lemma_last_value(cells: Seq<JsonV>, c: int)
    requires
        0 <= c < cells.len(),
        !(cells[c] is Null),
        forall|l: int| c < l < cells.len() ==> #[trigger] cells[l] is Null,
    ensures
        last_value(cells) == Some(told(cells[c])),
    decreases cells.len(),
{
    if c < cells.len() - 1 {
        assert(cells[cells.len() - 1] is Null);
        let init = cells.drop_last();
        assert forall|l: int| c < l < init.len() implies #[trigger] init[l] is Null by {
            assert(cells[l] is Null);
        }
        lemma_last_value(init, c);
    }
}

proof fn lemma_no_value_at_all(cells: Seq<JsonV>)
    requires
        forall|l: int| 0 <= l < cells.len() ==> #[trigger] cells[l] is Null,
    ensures
        last_value(cells) is None,
    decreases cells.len(),
{
    if cells.len() > 0 {
        assert(cells[cells.len() - 1] is Null);
        let init = cells.drop_last();
        assert forall|l: int| 0 <= l < init.len() implies #[trigger] init[l] is Null by {
            assert(cells[l] is Null);
        }
        lemma_no_value_at_all(init);
    }
}

/// The value that stands for a response is the last one that is not null in the
/// last column of the first frame that holds columns; there is none where that
/// column holds none, or no frame holds columns.
pub proof fn law_values_are_the_last_ones(data: JsonV, n: int, g: int, c: int)
    ensures
        holds_no_frame(data) ==> representative_value_of(data) is None,
        is_first_frame(data, n, g) ==> {
            let columns = columns_in(frames_in(results_in(Some(data))[n].1)[g]);
            &&& columns.len() == 0 ==> representative_value_of(data) is None
            &&& columns.len() > 0 ==> {
                let cells = items_of_json(Some(columns.last()));
                &&& 0 <= c < cells.len() && !(cells[c] is Null) && (forall|l: int|
                    c < l < cells.len() ==> #[trigger] cells[l] is Null)
                    ==> representative_value_of(data) == Some(told(cells[c]))
                &&& (forall|l: int| 0 <= l < cells.len() ==> #[trigger] cells[l] is Null)
                    ==> representative_value_of(data) is None
            }
        },
{
    lemma_first_frame(data, n, g);
    if is_first_frame(data, n, g) {
        let columns = columns_in(frames_in(results_in(Some(data))[n].1)[g]);
        if columns.len() > 0 {
            let cells = items_of_json(Some(columns.last()));
            if 0 <= c < cells.len() && !(cells[c] is Null) && (forall|l: int|
                c < l < cells.len() ==> #[trigger] cells[l] is Null) {
                lemma_last_value(cells, c);
            }
            if forall|l: int| 0 <= l < cells.len() ==> #[trigger] cells[l] is Null {
                lemma_no_value_at_all(cells);
            }
        }
    }
}

/// The name of a column: that of its field, else its number.
pub open spec fn named(frame: JsonV, c: int) -> Seq<char> {
    let fields = items_of_json(member(member(Some(frame), "schema"@), "fields"@));
    if 0 <= c < fields.len() && text_member(Some(fields[c]), "name"@) is Some {
        text_member(Some(fields[c]), "name"@)->0
    } else {
        "col"@ + decimal(c as nat)
    }
}

/// The cell of a column in a row, null where the column has none.
pub open spec fn cell_at(column: JsonV, row: int) -> JsonV {
    if 0 <= row < items_of_json(Some(column)).len() {
        items_of_json(Some(column))[row]
    } else {
        JsonV::Null
    }
}

proof fn lemma_row_ascends(names: Seq<Seq<char>>, columns: Seq<JsonV>, i: int, n: int)
    ensures
        keys_ascend(row_members(names, columns, i, n)),
    decreases n,
{
    if n > 0 {
        lemma_row_ascends(names, columns, i, n - 1);
        law_with_member_ascends(
            row_members(names, columns, i, n - 1),
            column_name(names, n - 1),
            column_cell(columns[n - 1], i),
        );
    }
}

proof fn lemma_row(frame: JsonV, columns: Seq<JsonV>, i: int, n: int, c: int)
    requires
        0 <= c < n <= columns.len(),
        forall|l: int| c < l < n ==> #[trigger] named(frame, l) != named(frame, c),
    ensures
        lookup(row_members(field_names_of(frame), columns, i, n), named(frame, c)) == Some(
            cell_at(columns[c], i),
        ),
    decreases n,
{
    let names = field_names_of(frame);
    let before = row_members(names, columns, i, n - 1);
    assert forall|l: int| 0 <= l implies #[trigger] column_name(names, l) == named(frame, l) by {}
    lemma_row_ascends(names, columns, i, n - 1);
    law_with_member_reads_back(
        before,
        column_name(names, n - 1),
        column_cell(columns[n - 1], i),
        named(frame, c),
    );
    assert(column_name(names, n - 1) == named(frame, n - 1));
    if c < n - 1 {
        assert(named(frame, n - 1) != named(frame, c));
        lemma_row(frame, columns, i, n - 1, c);
    }
}

pub proof fn lemma_longest(columns: Seq<JsonV>)
    ensures
        match longest_column(columns) {
            Some(n) => (exists|c: int|
                0 <= c < columns.len() && (#[trigger] columns[c]) is Array && items_of_json(
                    Some(columns[c]),
                ).len() == n) && forall|c: int|
                0 <= c < columns.len() ==> items_of_json(Some(#[trigger] columns[c])).len() <= n,
            None => forall|c: int| 0 <= c < columns.len() ==> !((#[trigger] columns[c]) is Array),
        },
    decreases columns.len(),
{
    if columns.len() > 0 {
        let init = columns.drop_last();
        lemma_longest(init);
        if let Some(n) = longest_column(init) {
            let c = choose|c: int|
                0 <= c < init.len() && (#[trigger] init[c]) is Array && items_of_json(
                    Some(init[c]),
                ).len() == n;
            assert(columns[c] == init[c]);
        }
        let last = columns[columns.len() - 1];
        if let Some(n) = longest_column(columns) {
            assert forall|c: int| 0 <= c < columns.len() implies items_of_json(
                Some(#[trigger] columns[c]),
            ).len() <= n by {
                if c < columns.len() - 1 {
                    assert(init[c] == columns[c]);
                }
            }
        } else {
            assert forall|c: int| 0 <= c < columns.len() implies !((#[trigger] columns[c])
                is Array) by {
                if c < columns.len() - 1 {
                    assert(init[c] == columns[c]);
                }
            }
        }
    }
}

/// `rows` are the first rows of a frame, ten at most: objects that give each
/// column's cell under the column's name.
pub open spec fn are_rows(frame: JsonV, rows: Seq<JsonV>) -> bool {
    let columns = columns_in(frame);
    &&& rows.len() <= 10
    &&& forall|c: int|
        0 <= c < columns.len() ==> items_of_json(Some(#[trigger] columns[c])).len() <= rows.len()
            || rows.len() == 10
    &&& exists|c: int|
        0 <= c < columns.len() && (#[trigger] columns[c]) is Array && items_of_json(
            Some(columns[c]),
        ).len() >= rows.len()
    &&& forall|i: int, c: int|
        #![trigger rows[i], columns[c]]
        0 <= i < rows.len() && 0 <= c < columns.len() && (forall|l: int|
            c < l < columns.len() ==> #[trigger] named(frame, l) != named(frame, c)) ==> member(
            Some(rows[i]),
            named(frame, c),
        ) == Some(cell_at(columns[c], i))
}

/// The sample of a response shows the first rows of the first frame that holds
/// columns, ten at most, as indented JSON; there is none where no column holds a
/// list or no frame holds columns.
pub proof fn law_samples_show_the_first_rows(data: JsonV, n: int, g: int)
    ensures
        holds_no_frame(data) ==> sample_rows_of(data) is None,
        is_first_frame(data, n, g) ==> {
            let frame = frames_in(results_in(Some(data))[n].1)[g];
            let columns = columns_in(frame);
            if forall|c: int| 0 <= c < columns.len() ==> !((#[trigger] columns[c]) is Array) {
                sample_rows_of(data) is None
            } else {
                exists|rows: Seq<JsonV>| #[trigger]
                    are_rows(frame, rows) && sample_rows_of(data) == Some(
                        clipped_text(pretty_text(JsonV::Array(rows))),
                    )
            }
        },
{
    lemma_first_frame(data, n, g);
    if is_first_frame(data, n, g) {
        let frame = frames_in(results_in(Some(data))[n].1)[g];
        let columns = columns_in(frame);
        lemma_longest(columns);
        if !(forall|c: int| 0 <= c < columns.len() ==> !((#[trigger] columns[c]) is Array)) {
            let longest = longest_column(columns)->0;
            let count = if longest <= 10 {
                longest
            } else {
                10
            };
            let names = field_names_of(frame);
            let rows = row_list(names, columns, count);
            assert forall|i: int, c: int|
                #![trigger rows[i], columns[c]]
                0 <= i < rows.len() && 0 <= c < columns.len() && (forall|l: int|
                    c < l < columns.len() ==> #[trigger] named(frame, l) != named(
                        frame,
                        c,
                    )) implies member(Some(rows[i]), named(frame, c)) == Some(
                cell_at(columns[c], i),
            ) by {
                lemma_row(frame, columns, i, columns.len() as int, c);
            }
            assert(are_rows(frame, rows));
        }
    }
}

/// A long sample is cut: what is left of it fits in 4096 bytes, no further
/// character would, and a note says so; a sample that fits stays as it is.
pub proof fn law_long_samples_are_cut(s: Seq<char>)
    ensures
        byte_len(s) <= 4096 ==> clipped_text(s) == s,
        byte_len(s) > 4096 ==> exists|k: int|
            0 <= k < s.len() && clipped_text(s) == #[trigger] s.take(k)
                + "\n… (clipped to "@ + decimal(4096) + " bytes)"@ && byte_len(s.take(k)) <= 4096
                && byte_len(s.take(k + 1)) > 4096,
{
    law_clipping_fits(s, 4096);
    if byte_len(s) > 4096 {
        let k = clipped(s, 4096).len() as int;
        assert(s.take(s.len() as int) =~= s);
        assert(clipped_text(s) =~= s.take(k) + "\n… (clipped to "@ + decimal(4096) + " bytes)"@);
    }
}

// ---------------------------------------------------------------------------
// Datasources
// ---------------------------------------------------------------------------

/// The configured datasources are those of the rows that have a name, one after
/// the other.
pub proof fn law_datasources_are_listed(a: Seq<JsonV>, b: Seq<JsonV>, row: JsonV)
    ensures
        ds_list(JsonV::Array(a + b)) == ds_list(JsonV::Array(a)) + ds_list(JsonV::Array(b)),
        text_member(Some(row), "name"@) is None ==> ds_list(JsonV::Array(seq![row])).len() == 0,
        text_member(Some(row), "name"@) matches Some(name) ==> ds_list(JsonV::Array(seq![row]))
            == seq![
            DsEntryV {
                name,
                ds_type: match text_member(Some(row), "type"@) {
                    Some(t) => t,
                    None => Seq::empty(),
                },
                uid: text_member(Some(row), "uid"@),
                is_default: bool_member(Some(row), "isDefault"@) == Some(true),
            },
        ],
        ds_list(JsonV::Null).len() == 0,
{
    reveal_strlit("");
    assert(""@ =~= Seq::<char>::empty());
    law_collected_of_parts(a, b, row, |r: JsonV| ds_of_row(r));
}

/// What a panel calls its datasource is shown by the name of the configured one
/// that it means, else as the panel gives it.
pub proof fn law_datasource_names_are_resolved(
    reference: Option<JsonV>,
    ds: Seq<DsEntryV>,
    name: Seq<char>,
)
    ensures
        means_named(reference, ds, name) ==> ds_name_of(reference, ds) == name,
        means_none(reference, ds) ==> (match reference {
            None | Some(JsonV::Null) => ds_name_of(reference, ds) == "default"@,
            Some(JsonV::Text(s)) => ds_name_of(reference, ds) == (if asks_default(s) {
                "default"@
            } else {
                s
            }),
            Some(JsonV::Object(_)) => match text_member(reference, "uid"@) {
                Some(uid) => ds_name_of(reference, ds) == uid,
                None => match text_member(reference, "type"@) {
                    Some(ty) => ds_name_of(reference, ds) == ty,
                    None => ds_name_of(reference, ds) == ds_name_of(None, ds),
                },
            },
            Some(other) => ds_name_of(reference, ds) == json_text(other),
        }),
{
    match reference {
        None | Some(JsonV::Null) => {
            lemma_search(ds, DsBy::Default, ""@, reference);
        },
        Some(JsonV::Text(s)) => {
            if asks_default(s) {
                lemma_search(ds, DsBy::Default, ""@, reference);
            } else {
                lemma_search(ds, DsBy::NameOrUid, s, reference);
            }
        },
        Some(JsonV::Object(_)) => {
            match text_member(reference, "uid"@) {
                Some(uid) => {
                    lemma_search(ds, DsBy::Uid, uid, reference);
                },
                None => {
                    if let Some(ty) = text_member(reference, "type"@) {
                        lemma_search(ds, DsBy::Type, ty, reference);
                    }
                },
            }
        },
        _ => {},
    }
}

// ---------------------------------------------------------------------------
// Dashboards
// ---------------------------------------------------------------------------

/// A dashboard is modelled with its uid, its title, its folder if it has one, its
/// tags in order, and whether it is there for navigation.
pub proof fn law_dashboards_are_modelled(a: ArtifactV, ds: Seq<DsEntryV>, i: int, j: int)
    ensures
        ({
            let d = dashboard_of(a, ds);
            &&& d.uid == board_uid(a)
            &&& d.title == board_title(a)
            &&& d.folder is None <==> in_no_folder(a)
            &&& d.folder is Some ==> d.folder == text_member(
                member(member(Some(a.meta), "dashboard"@), "meta"@),
                "folderTitle"@,
            )
            &&& d.tags.to_multiset() == collected(
                items_of_json(member(board(a), "tags"@)),
                |t: JsonV| text_of_json(Some(t)),
            ).to_multiset()
            &&& 0 <= i < j < d.tags.len() ==> text_le(d.tags[i], d.tags[j])
            &&& d.is_navigation <==> stands_in(lowercase(board_title(a)), "navigation"@)
            &&& !d.is_navigation ==> d.nav_links.len() == 0
        }),
{
    law_tags_are_ordered(a, ds);
    let d = dashboard_of(a, ds);
    if 0 <= i < j < d.tags.len() {
        assert(text_order()(d.tags[i], d.tags[j]));
    }
    let low = lowercase(board_title(a));
    if occurs(low, "navigation"@) {
        let k = choose|k: int| occurs_at(low, "navigation"@, k);
        assert(stands_at(low, "navigation"@, k));
    }
    if stands_in(low, "navigation"@) {
        let k = choose|k: int| #[trigger] stands_at(low, "navigation"@, k);
        assert(occurs_at(low, "navigation"@, k));
    }
}

/// A variable is modelled by its name and its current value: a text as it is, the
/// texts of a list with commas between them, all else as JSON.
pub open spec fn is_variable(v: JsonV, name: Seq<char>, value: Seq<char>) -> bool {
    &&& text_member(Some(v), "name"@) == Some(name)
    &&& match member(member(Some(v), "current"@), "value"@) {
        Some(JsonV::Text(s)) => value == s,
        Some(JsonV::Array(xs)) => value == join(
            collected(xs, |x: JsonV| text_of_json(Some(x))),
            ","@,
        ),
        Some(other) => value == json_text(other),
        None => value.len() == 0,
    }
}

proof fn lemma_variable(v: JsonV)
    ensures
        variable_of(v) is Some <==> text_member(Some(v), "name"@) is Some,
        variable_of(v) matches Some(p) ==> is_variable(v, p.0, p.1),
{
    reveal_strlit("");
}

/// Every variable with a name is modelled, no other one is, and they stand by
/// name.
pub proof fn law_variables_are_modelled(a: ArtifactV, ds: Seq<DsEntryV>, i: int, j: int)
    ensures
        ({
            let d = dashboard_of(a, ds);
            &&& d.variables.len() == board_variables(a).filter(
                |v: JsonV| text_member(Some(v), "name"@) is Some,
            ).len()
            &&& 0 <= i < board_variables(a).len() && text_member(
                Some(board_variables(a)[i]),
                "name"@,
            ) is Some ==> exists|n: int|
                0 <= n < d.variables.len() && is_variable(
                    board_variables(a)[i],
                    (#[trigger] d.variables[n]).0,
                    d.variables[n].1,
                )
            &&& 0 <= i < d.variables.len() ==> exists|n: int|
                0 <= n < board_variables(a).len() && is_variable(
                    #[trigger] board_variables(a)[n],
                    d.variables[i].0,
                    d.variables[i].1,
                )
            &&& 0 <= i < j < d.variables.len() ==> text_le(d.variables[i].0, d.variables[j].0)
        }),
{
    let vs = board_variables(a);
    let f = |v: JsonV| variable_of(v);
    let found = collected(vs, f);
    let out = dashboard_of(a, ds).variables;
    law_variables_are_ordered(a, ds);
    lemma_ordered_multiset(found, by_name());
    lemma_collected_count(vs, f, |p: (Seq<char>, Seq<char>)| true);
    lemma_same_count(
        vs,
        |v: JsonV| f(v) is Some,
        |v: JsonV| text_member(Some(v), "name"@) is Some,
    );
    if 0 <= i < vs.len() && text_member(Some(vs[i]), "name"@) is Some {
        lemma_variable(vs[i]);
        lemma_collected_has(vs, f, i);
        let p = f(vs[i])->0;
        lemma_ordered_contains(found, by_name(), p);
        let n = choose|n: int| 0 <= n < out.len() && out[n] == p;
        assert(is_variable(vs[i], out[n].0, out[n].1));
    }
    if 0 <= i < out.len() {
        assert(out.contains(out[i]));
        lemma_ordered_contains(found, by_name(), out[i]);
        let n = lemma_collected_from(vs, f, out[i]);
        lemma_variable(vs[n]);
    }
    if 0 <= i < j < out.len() {
        assert(by_name()(out[i], out[j]));
    }
}

/// What the queries of the panel with an id returned: the payload of the first
/// item that is named after it.
pub open spec fn is_payload(a: ArtifactV, id: i64, data: Option<JsonV>) -> bool {
    ||| data is None && forall|l: int|
        0 <= l < a.items.len() ==> (#[trigger] a.items[l]).id != "panel-"@ + integer(id as int)
    ||| exists|k: int|
        0 <= k < a.items.len() && (#[trigger] a.items[k]).id == "panel-"@ + integer(id as int)
            && a.items[k].data == data && forall|l: int|
            0 <= l < k ==> (#[trigger] a.items[l]).id != "panel-"@ + integer(id as int)
}

/// A panel that is no row and has an id is modelled with what it gives and what
/// its queries returned.
pub open spec fn is_panel(
    a: ArtifactV,
    ds: Seq<DsEntryV>,
    panel: JsonV,
    data: Option<JsonV>,
    p: PanelV,
) -> bool {
    &&& !shows_nothing(panel)
    &&& i64_of_json(member(Some(panel), "id"@)) == Some(p.id)
    &&& p.title == (match text_member(Some(panel), "title"@) {
        Some(s) => s,
        None => Seq::empty(),
    })
    &&& p.ptype == (match text_member(Some(panel), "type"@) {
        Some(s) => s,
        None => Seq::empty(),
    })
    &&& p.datasource == ds_name_of(member(Some(panel), "datasource"@), ds)
    &&& p.template_sql == template_sql_of(panel)
    &&& is_payload(a, p.id, data)
    &&& data is Some ==> p.value == representative_value_of(data->0)
    &&& data is Some ==> p.executed_sql == executed_sql_of(data->0)
    &&& data is Some ==> p.sample_rows == sample_rows_of(data->0)
    &&& data is None ==> p.value is None && p.executed_sql.len() == 0 && p.sample_rows is None
}

proof fn lemma_panel(a: ArtifactV, ds: Seq<DsEntryV>, panel: JsonV)
    ensures
        panel_of(panel, a, ds) is Some <==> !shows_nothing(panel) && i64_of_json(
            member(Some(panel), "id"@),
        ) is Some,
        panel_of(panel, a, ds) matches Some(p) ==> is_panel(
            a,
            ds,
            panel,
            panel_data_of(a, p.id),
            p,
        ),
{
    reveal_strlit("");
    assert(""@ =~= Seq::<char>::empty());
    if let Some(p) = panel_of(panel, a, ds) {
        let f = |it: ItemV| payload_if(it, panel_item_id(p.id));
        if first_some(a.items, f) is Some {
            let k = lemma_first_some_at(a.items, f);
            assert forall|l: int| 0 <= l < k implies (#[trigger] a.items[l]).id != "panel-"@
                + integer(p.id as int) by {
                assert(f(a.items[l]) is None);
            }
            assert(a.items[k].id == "panel-"@ + integer(p.id as int));
        } else {
            assert forall|l: int| 0 <= l < a.items.len() implies (#[trigger] a.items[l]).id
                != "panel-"@ + integer(p.id as int) by {
                if a.items[l].id == "panel-"@ + integer(p.id as int) {
                    lemma_finds_some(a.items, f, l);
                }
            }
        }
    }
}

/// Every panel that is no row and has an id is modelled, no other one is, and they
/// stand by id.
pub proof fn law_panels_are_modelled(a: ArtifactV, ds: Seq<DsEntryV>, i: int, j: int)
    ensures
        ({
            let d = dashboard_of(a, ds);
            &&& d.panels.len() == board_panels(a).filter(
                |p: JsonV| !shows_nothing(p) && i64_of_json(member(Some(p), "id"@)) is Some,
            ).len()
            &&& 0 <= i < board_panels(a).len() && !shows_nothing(board_panels(a)[i])
                && i64_of_json(member(Some(board_panels(a)[i]), "id"@)) is Some ==> exists|
                n: int,
                data: Option<JsonV>,
            |
                0 <= n < d.panels.len() && #[trigger] is_panel(
                    a,
                    ds,
                    board_panels(a)[i],
                    data,
                    d.panels[n],
                )
            &&& 0 <= i < d.panels.len() ==> exists|n: int, data: Option<JsonV>|
                0 <= n < board_panels(a).len() && #[trigger] is_panel(
                    a,
                    ds,
                    board_panels(a)[n],
                    data,
                    d.panels[i],
                )
            &&& 0 <= i < j < d.panels.len() ==> d.panels[i].id <= d.panels[j].id
        }),
{
    let ps = board_panels(a);
    let f = |p: JsonV| panel_of(p, a, ds);
    let found = collected(ps, f);
    let out = dashboard_of(a, ds).panels;
    law_panels_are_ordered(a, ds);
    lemma_ordered_multiset(found, by_id());
    lemma_collected_count(ps, f, |p: PanelV| true);
    let made = |p: JsonV| f(p) is Some;
    let good = |p: JsonV| !shows_nothing(p) && i64_of_json(member(Some(p), "id"@)) is Some;
    assert forall|n: int| 0 <= n < ps.len() implies made(#[trigger] ps[n]) == good(ps[n]) by {
        lemma_panel(a, ds, ps[n]);
    }
    lemma_same_count(ps, made, good);
    if 0 <= i < ps.len() && good(ps[i]) {
        lemma_panel(a, ds, ps[i]);
        lemma_collected_has(ps, f, i);
        let p = f(ps[i])->0;
        lemma_ordered_contains(found, by_id(), p);
        let n = choose|n: int| 0 <= n < out.len() && out[n] == p;
        assert(is_panel(a, ds, ps[i], panel_data_of(a, p.id), out[n]));
    }
    if 0 <= i < out.len() {
        assert(out.contains(out[i]));
        lemma_ordered_contains(found, by_id(), out[i]);
        let n = lemma_collected_from(ps, f, out[i]);
        lemma_panel(a, ds, ps[n]);
        assert(is_panel(a, ds, ps[n], panel_data_of(a, out[i].id), out[i]));
    }
    if 0 <= i < j < out.len() {
        assert(by_id()(out[i], out[j]));
    }
}

/// A dashboard links to something: by a list of dashboards or a text panel, or by
/// a link of its own.
pub open spec fn links_to(a: ArtifactV, link: Seq<char>) -> bool {
    ||| exists|k: int|
        0 <= k < board_panels(a).len() && is_link_panel(#[trigger] board_panels(a)[k], link)
    ||| exists|k: int|
        0 <= k < items_of_json(member(board(a), "links"@)).len() && text_member(
            Some(#[trigger] items_of_json(member(board(a), "links"@))[k]),
            "title"@,
        ) == Some(link)
}

/// A panel is a list of dashboards or a text, told by its title and its type.
pub open spec fn is_link_panel(panel: JsonV, link: Seq<char>) -> bool {
    let title = match text_member(Some(panel), "title"@) {
        Some(s) => s,
        None => Seq::empty(),
    };
    let shown = if title.len() == 0 {
        "(untitled)"@
    } else {
        title
    };
    ||| text_member(Some(panel), "type"@) == Some("dashlist"@) && link == shown + " ("@
        + "dashlist"@ + ")"@
    ||| text_member(Some(panel), "type"@) == Some("text"@) && link == shown + " ("@ + "text"@
        + ")"@
}

proof fn lemma_link_panel(panel: JsonV, link: Seq<char>)
    ensures
        panel_link(panel) == Some(link) <==> is_link_panel(panel, link),
{
    reveal_strlit("");
    reveal_strlit("dashlist");
    reveal_strlit("text");
    assert(""@ =~= Seq::<char>::empty());
    assert("dashlist"@.len() == 8 && "text"@.len() == 4);
}

/// A dashboard for navigation is modelled with what it links to, each once and in
/// order.
pub proof fn law_links_are_modelled(
    a: ArtifactV,
    ds: Seq<DsEntryV>,
    link: Seq<char>,
    i: int,
    j: int,
)
    requires
        dashboard_of(a, ds).is_navigation,
    ensures
        dashboard_of(a, ds).nav_links.contains(link) <==> links_to(a, link),
        0 <= i < j < dashboard_of(a, ds).nav_links.len() ==> dashboard_of(a, ds).nav_links[i]
            != dashboard_of(a, ds).nav_links[j] && text_le(
            dashboard_of(a, ds).nav_links[i],
            dashboard_of(a, ds).nav_links[j],
        ),
{
    let ps = board_panels(a);
    let ls = items_of_json(member(board(a), "links"@));
    let f = |p: JsonV| panel_link(p);
    let g = |l: JsonV| text_member(Some(l), "title"@);
    let x = collected(ps, f);
    let y = collected(ls, g);
    law_distinct_texts(x + y);
    crate::grafana::audit_laws::lemma_sum_contains(x, y, link);
    if x.contains(link) {
        let k = lemma_collected_from(ps, f, link);
        lemma_link_panel(ps[k], link);
    }
    if y.contains(link) {
        let k = lemma_collected_from(ls, g, link);
        assert(text_member(Some(ls[k]), "title"@) == Some(link));
    }
    if exists|k: int| 0 <= k < ps.len() && is_link_panel(#[trigger] ps[k], link) {
        let k = choose|k: int| 0 <= k < ps.len() && is_link_panel(#[trigger] ps[k], link);
        lemma_link_panel(ps[k], link);
        lemma_collected_has(ps, f, k);
    }
    if exists|k: int|
        0 <= k < ls.len() && text_member(Some(#[trigger] ls[k]), "title"@) == Some(link) {
        let k = choose|k: int|
            0 <= k < ls.len() && text_member(Some(#[trigger] ls[k]), "title"@) == Some(link);
        lemma_collected_has(ls, g, k);
    }
    let out = dashboard_of(a, ds).nav_links;
    assert(out == distinct_texts(x + y));
    if 0 <= i < j < out.len() {
        assert(text_order()(out[i], out[j]));
    }
}

// ---------------------------------------------------------------------------
// The model as a whole
// ---------------------------------------------------------------------------

/// The names of the folders in which the search found dashboards.
pub open spec fn is_folder_found(facts: FactsV, name: Seq<char>) -> bool {
    name.len() > 0 && exists|k: int|
        0 <= k < items_of_json(Some(facts.search)).len() && text_member(
            Some(#[trigger] items_of_json(Some(facts.search))[k]),
            "folderTitle"@,
        ) == Some(name)
}

/// The model of a report tells of the instance what the facts say, and counts the
/// folders: those that are listed, else those that the search names.
pub proof fn law_instances_are_modelled(
    facts: FactsV,
    dashboards: Seq<ArtifactV>,
    scope: Seq<char>,
    inventory_total: usize,
    on_disk_total: usize,
)
    ensures
        ({
            let m = assembled(facts, dashboards, scope, inventory_total, on_disk_total);
            let ds = ds_list(facts.datasources);
            &&& m.scope == scope
            &&& m.generated == facts.generated
            &&& m.inventory_total == inventory_total
            &&& m.on_disk_total == on_disk_total
            &&& m.instance.host == facts.host
            &&& m.instance.version == text_member(Some(facts.instance), "version"@)
            &&& m.instance.edition == text_member(Some(facts.instance), "edition"@)
            &&& m.instance.renderer_available == bool_member(
                Some(facts.instance),
                "rendererAvailable"@,
            )
            &&& m.instance.dashboards_inventory == inventory_total
            &&& m.instance.dashboards_on_disk == on_disk_total
            &&& m.instance.datasources.len() == ds.len()
            &&& forall|i: int|
                0 <= i < ds.len() ==> (#[trigger] m.instance.datasources[i]).name == ds[i].name
                    && m.instance.datasources[i].ds_type == ds[i].ds_type
                    && m.instance.datasources[i].is_default == ds[i].is_default
            &&& facts.folders matches JsonV::Array(xs) ==> m.instance.folders_count == xs.len()
            &&& !(facts.folders is Array) ==> exists|names: Seq<Seq<char>>|
                #![trigger names.no_duplicates()]
                names.no_duplicates() && names.len() == m.instance.folders_count && forall|
                    n: Seq<char>,
                | #[trigger] names.contains(n) <==> is_folder_found(facts, n)
        }),
{
    if !(facts.folders is Array) {
        let rows = items_of_json(Some(facts.search));
        let f = |r: JsonV| row_folder(r);
        let found = collected(rows, f);
        law_distinct_texts(found);
        let names = distinct_texts(found);
        assert forall|n: Seq<char>| #[trigger] names.contains(n) <==> is_folder_found(
            facts,
            n,
        ) by {
            if found.contains(n) {
                let k = lemma_collected_from(rows, f, n);
                assert(text_member(Some(rows[k]), "folderTitle"@) == Some(n));
            }
            if is_folder_found(facts, n) {
                let k = choose|k: int|
                    0 <= k < rows.len() && text_member(Some(#[trigger] rows[k]), "folderTitle"@)
                        == Some(n);
                lemma_collected_has(rows, f, k);
            }
        }
        assert(names.no_duplicates());
    }
}

/// Every dashboard is modelled, once, and they stand by folder, without one first,
/// then by title and uid.
pub proof fn law_reports_hold_every_dashboard(
    facts: FactsV,
    dashboards: Seq<ArtifactV>,
    scope: Seq<char>,
    inventory_total: usize,
    on_disk_total: usize,
    i: int,
    j: int,
)
    ensures
        ({
            let out = assembled(
                facts,
                dashboards,
                scope,
                inventory_total,
                on_disk_total,
            ).dashboards;
            &&& out.len() == dashboards.len()
            &&& out.to_multiset() == dashboards.map_values(
                |a: ArtifactV| dashboard_of(a, ds_list(facts.datasources)),
            ).to_multiset()
            &&& 0 <= i < j < out.len() ==> {
                &&& out[i].folder is Some ==> out[j].folder is Some && text_le(
                    out[i].folder->0,
                    out[j].folder->0,
                )
                &&& out[i].folder == out[j].folder ==> text_le(out[i].title, out[j].title)
                &&& out[i].folder == out[j].folder && out[i].title == out[j].title ==> text_le(
                    out[i].uid,
                    out[j].uid,
                )
            }
        }),
{
    law_pages_are_ordered(facts, dashboards, scope, inventory_total, on_disk_total);
    let out = assembled(facts, dashboards, scope, inventory_total, on_disk_total).dashboards;
    let pages = dashboards.map_values(
        |a: ArtifactV| dashboard_of(a, ds_list(facts.datasources)),
    );
    lemma_ordered_multiset(pages, page_order());
    if 0 <= i < j < out.len() {
        assert(page_order()(out[i], out[j]));
        crate::text::lemma_text_le_reflexive(out[i].title);
        if out[i].folder is Some {
            crate::text::lemma_text_le_reflexive(out[i].folder->0);
        }
    }
}

} // verus!
