//! What a report shows, in terms of the model it is made of.

use crate::collect::{
    first_some, flattened, lemma_collected_from, lemma_collected_has, lemma_flattened_from,
    lemma_flattened_has,
};
use crate::grafana::audit_laws::{lemma_collected_count, lemma_finds_some, lemma_same_count};
use crate::grafana::laws::lemma_ordered_contains;
use crate::grafana::model::{DashboardV, DsViewV, PanelV, RenderV};
use crate::grafana::options::{Mode, ReportOptionsV};
use crate::grafana::render::{
    cell, cell_char, count_line, count_lines, datasource_line_text, datasource_usage_text, ds_text,
    folder_key, folder_tree_text, header_text, index_label, keys_of, link_line, navigation_of,
    navigation_text, overview_text, page_text, pages_text, panel_detail, panel_details_text,
    panel_row, panel_types_text, panels_table_text, report_text, sql_block, structure_text,
    tag_index_text, tag_line, tagged, type_keys, usage_line, uses, value_if, values_under,
    variable_text, variables_line_text,
};
use crate::order::{distinct_texts, law_distinct_texts, sorted_texts, tally, text_order};
use crate::redact::redacted_value;
use crate::secrets::redacted;
use crate::text::{concat, decimal, integer, join, text_le};
use crate::text_laws::{
    law_concat_of_parts, law_sorted_texts, lemma_concat_split, lemma_concat_stands,
    lemma_first_some_at, lemma_join_stands, lemma_stands_around, lemma_stands_between,
    lemma_stands_trans, stands_in,
};
use crate::time::time_text;
use vstd::prelude::*;

verus! {

// ---------------------------------------------------------------------------
// Pages
// ---------------------------------------------------------------------------

/// A text as it is shown: without its secrets, where these are hidden.
pub open spec fn hidden(on: bool, s: Seq<char>) -> Seq<char> {
    if on {
        redacted(s)
    } else {
        s
    }
}

/// A block of code under a caption.
pub open spec fn fenced(on: bool, caption: Seq<char>, s: Seq<char>) -> Seq<char> {
    caption + hidden(on, s) + "\n```\n"@
}

/// There is something to tell of a panel besides its row.
pub open spec fn has_detail(p: PanelV) -> bool {
    p.template_sql.len() > 0 || p.executed_sql.len() > 0 || p.sample_rows is Some
}

/// The heading of what is told of a panel.
pub open spec fn panel_heading(p: PanelV) -> Seq<char> {
    "\n#### "@ + p.title + " (panel "@ + integer(p.id as int) + ")\n"@
}

/// `blocks` are those of a panel: one for each template SQL, in order, and, with
/// data, one for each executed SQL and one for the sample of rows.
pub open spec fn are_blocks(opts: ReportOptionsV, p: PanelV, blocks: Seq<Seq<char>>) -> bool {
    let t = p.template_sql.len() as int;
    let e = p.executed_sql.len() as int;
    &&& !opts.data ==> blocks.len() == t
    &&& opts.data && p.sample_rows is None ==> blocks.len() == t + e
    &&& opts.data && p.sample_rows is Some ==> blocks.len() == t + e + 1
    &&& forall|n: int|
        0 <= n < t ==> #[trigger] blocks[n] == fenced(
            opts.redact,
            "\ntemplate SQL:\n```sql\n"@,
            p.template_sql[n],
        )
    &&& opts.data ==> forall|n: int|
        t <= n < t + e ==> #[trigger] blocks[n] == fenced(
            opts.redact,
            "\nexecuted SQL (where the datasource exposes it):\n```sql\n"@,
            p.executed_sql[n - t],
        )
    &&& opts.data && p.sample_rows is Some ==> blocks[t + e] == fenced(
        opts.redact,
        "\nsample returned rows:\n```json\n"@,
        p.sample_rows->0,
    )
}

/// `s` is what a page in full tells of a panel.
pub open spec fn is_section(opts: ReportOptionsV, p: PanelV, s: Seq<char>) -> bool {
    if has_detail(p) {
        exists|blocks: Seq<Seq<char>>| #[trigger]
            are_blocks(opts, p, blocks) && s == panel_heading(p) + concat(blocks)
    } else {
        s.len() == 0
    }
}

/// `row` is the row of a panel: title, id, type, datasource and, with data, the
/// value.
pub open spec fn is_panel_row(opts: ReportOptionsV, p: PanelV, row: Seq<char>) -> bool {
    let value = match p.value {
        Some(v) => if opts.data {
            hidden(opts.redact, v)
        } else {
            "—"@
        },
        None => "—"@,
    };
    row == "  | "@ + cell(p.title) + " | "@ + integer(p.id as int) + " | "@ + cell(p.ptype)
        + " | "@ + cell(p.datasource) + " | "@ + cell(value) + " |\n"@
}

/// `s` is a variable with its value, which is hidden where its name or its value
/// is that of a secret.
pub open spec fn is_variable_shown(
    opts: ReportOptionsV,
    v: (Seq<char>, Seq<char>),
    s: Seq<char>,
) -> bool {
    s == v.0 + "="@ + (if opts.redact {
        redacted_value(v.0, v.1)
    } else {
        v.1
    })
}

/// The name of the folder of a dashboard.
pub open spec fn folder_name(d: DashboardV) -> Seq<char> {
    match d.folder {
        Some(f) => f,
        None => "(no folder)"@,
    }
}

/// How a page begins: the title, the uid and the folder of its dashboard, and what
/// there is of it.
pub open spec fn page_heading(d: DashboardV) -> Seq<char> {
    "\n### "@ + d.title + " — uid "@ + d.uid + " · folder: "@ + folder_name(d) + "\n- "@ + decimal(
        d.panels.len(),
    ) + " panels · "@ + decimal(d.variables.len()) + " variables · datasource: "@
        + d.primary_datasource + "\n"@
}

/// `page` is made of the heading of a dashboard, its variables, the rows of its
/// panels and, in full, what there is to tell of each panel.
pub open spec fn is_page_of(
    opts: ReportOptionsV,
    d: DashboardV,
    page: Seq<char>,
    variables: Seq<Seq<char>>,
    rows: Seq<Seq<char>>,
    sections: Seq<Seq<char>>,
) -> bool {
    &&& variables.len() == d.variables.len()
    &&& forall|n: int|
        0 <= n < variables.len() ==> is_variable_shown(
            opts,
            d.variables[n],
            #[trigger] variables[n],
        )
    &&& rows.len() == d.panels.len()
    &&& forall|n: int|
        0 <= n < rows.len() ==> is_panel_row(opts, d.panels[n], #[trigger] rows[n])
    &&& opts.mode == Mode::Full ==> sections.len() == d.panels.len()
    &&& opts.mode == Mode::Full ==> forall|n: int|
        0 <= n < sections.len() ==> is_section(opts, d.panels[n], #[trigger] sections[n])
    &&& opts.mode != Mode::Full ==> sections.len() == 0
    &&& page == page_heading(d) + "- Variables: "@ + (if variables.len() == 0 {
        "(none)"@
    } else {
        join(variables, ", "@)
    }) + "\n"@
        + "- Panels (sorted by panel id):\n\n  | panel | id | type | datasource | value |\n  |-------|----|------|-----------|-------|\n"@
        + concat(rows) + concat(sections)
}

/// `page` is the page of a dashboard.
pub open spec fn is_page(opts: ReportOptionsV, d: DashboardV, page: Seq<char>) -> bool {
    exists|variables: Seq<Seq<char>>, rows: Seq<Seq<char>>, sections: Seq<Seq<char>>|
        is_page_of(opts, d, page, variables, rows, sections)
}

/// The blocks of a panel.
spec fn blocks_of(opts: ReportOptionsV, p: PanelV) -> Seq<Seq<char>> {
    let template = p.template_sql.map_values(
        |s: Seq<char>| sql_block(opts.redact, "\ntemplate SQL:\n```sql\n"@, s),
    );
    let executed = p.executed_sql.map_values(
        |s: Seq<char>|
            sql_block(
                opts.redact,
                "\nexecuted SQL (where the datasource exposes it):\n```sql\n"@,
                s,
            ),
    );
    let sample = match p.sample_rows {
        Some(rows) => seq![sql_block(opts.redact, "\nsample returned rows:\n```json\n"@, rows)],
        None => Seq::empty(),
    };
    if opts.data {
        template + executed + sample
    } else {
        template
    }
}

proof fn lemma_section(opts: ReportOptionsV, p: PanelV)
    ensures
        is_section(opts, p, panel_detail(opts, p)),
        has_detail(p) ==> panel_detail(opts, p) == panel_heading(p) + concat(blocks_of(opts, p)),
        are_blocks(opts, p, blocks_of(opts, p)),
{
    reveal_strlit("");
    let blocks = blocks_of(opts, p);
    assert(are_blocks(opts, p, blocks));
    if has_detail(p) {
        let template = p.template_sql.map_values(
            |s: Seq<char>| sql_block(opts.redact, "\ntemplate SQL:\n```sql\n"@, s),
        );
        let executed = p.executed_sql.map_values(
            |s: Seq<char>|
                sql_block(
                    opts.redact,
                    "\nexecuted SQL (where the datasource exposes it):\n```sql\n"@,
                    s,
                ),
        );
        if opts.data {
            let rows = match p.sample_rows {
                Some(rows) => sql_block(
                    opts.redact,
                    "\nsample returned rows:\n```json\n"@,
                    rows,
                ),
                None => ""@,
            };
            let sample = match p.sample_rows {
                Some(_) => seq![rows],
                None => Seq::empty(),
            };
            law_concat_of_parts(template, executed, rows);
            law_concat_of_parts(template + executed, sample, rows);
            assert(concat(sample) =~= rows);
            assert(concat(blocks) =~= concat(template) + (concat(executed) + rows));
            assert(panel_detail(opts, p) =~= panel_heading(p) + concat(blocks));
        } else {
            assert(panel_detail(opts, p) =~= panel_heading(p) + concat(blocks));
        }
    }
}

proof fn lemma_page(opts: ReportOptionsV, d: DashboardV)
    ensures
        is_page(opts, d, page_text(opts, d)),
{
    reveal_strlit("");
    reveal_strlit("- Variables: (none)\n");
    reveal_strlit("- Variables: ");
    reveal_strlit("(none)");
    reveal_strlit("\n");
    assert("- Variables: (none)\n"@ =~= "- Variables: "@ + "(none)"@ + "\n"@);
    let variables = d.variables.map_values(
        |v: (Seq<char>, Seq<char>)| variable_text(opts.redact, v),
    );
    let rows = d.panels.map_values(|p: PanelV| panel_row(opts, p));
    let sections = if opts.mode == Mode::Full {
        d.panels.map_values(|p: PanelV| panel_detail(opts, p))
    } else {
        Seq::empty()
    };
    assert forall|n: int| 0 <= n < variables.len() implies is_variable_shown(
        opts,
        d.variables[n],
        #[trigger] variables[n],
    ) by {}
    assert forall|n: int| 0 <= n < rows.len() implies is_panel_row(
        opts,
        d.panels[n],
        #[trigger] rows[n],
    ) by {}
    if opts.mode == Mode::Full {
        assert forall|n: int| 0 <= n < sections.len() implies is_section(
            opts,
            d.panels[n],
            #[trigger] sections[n],
        ) by {
            lemma_section(opts, d.panels[n]);
        }
    }
    let listed = if variables.len() == 0 {
        "(none)"@
    } else {
        join(variables, ", "@)
    };
    let line = "- Variables: "@ + listed + "\n"@;
    assert(variables_line_text(opts.redact, d) =~= line);
    let details = if opts.mode == Mode::Full {
        panel_details_text(opts, d)
    } else {
        ""@
    };
    assert(details =~= concat(sections));
    let table =
        "- Panels (sorted by panel id):\n\n  | panel | id | type | datasource | value |\n  |-------|----|------|-----------|-------|\n"@;
    assert(panels_table_text(opts, d) == table + concat(rows));
    let head = page_heading(d);
    assert(page_text(opts, d) == head + line + (table + concat(rows)) + concat(sections));
    assert(page_text(opts, d) =~= head + "- Variables: "@ + listed + "\n"@ + table + concat(rows)
        + concat(sections));
    assert(is_page_of(opts, d, page_text(opts, d), variables, rows, sections));
}

/// `text` ends with `end`.
pub open spec fn ends_with(text: Seq<char>, end: Seq<char>) -> bool {
    text.len() >= end.len() && text.skip(text.len() - end.len()) == end
}

/// A report ends with the pages of its dashboards, one for each and in their
/// order, under their heading; without a dashboard it says so there.
pub proof fn law_reports_end_with_their_pages(m: RenderV, opts: ReportOptionsV)
    ensures
        m.dashboards.len() == 0 ==> ends_with(
            report_text(m, opts),
            "\n## 3. Pages\n"@ + "\n_(no dashboards selected / on disk)_\n"@,
        ),
        m.dashboards.len() > 0 ==> exists|pages: Seq<Seq<char>>|
            ends_with(report_text(m, opts), "\n## 3. Pages\n"@ + #[trigger] concat(pages))
                && pages.len() == m.dashboards.len() && forall|i: int|
                0 <= i < pages.len() ==> is_page(opts, m.dashboards[i], #[trigger] pages[i]),
{
    let top = header_text(m, opts) + overview_text(m) + structure_text(m);
    let end = pages_text(m, opts);
    assert(report_text(m, opts) == top + end);
    assert((top + end).skip((top + end).len() - end.len()) =~= end);
    if m.dashboards.len() > 0 {
        let pages = m.dashboards.map_values(|d: DashboardV| page_text(opts, d));
        assert forall|i: int| 0 <= i < pages.len() implies is_page(
            opts,
            m.dashboards[i],
            #[trigger] pages[i],
        ) by {
            lemma_page(opts, m.dashboards[i]);
        }
        assert(end == "\n## 3. Pages\n"@ + concat(pages));
    }
}

/// A text is empty or begins with the heading of a panel or of a page.
pub open spec fn ends_a_section(after: Seq<char>) -> bool {
    ||| after.len() == 0
    ||| after.len() >= 5 && after.take(5) == seq!['\n', '#', '#', '#', ' ']
    ||| after.len() >= 6 && after.take(6) == seq!['\n', '#', '#', '#', '#', ' ']
}

proof fn lemma_ends_sum(a: Seq<char>, b: Seq<char>)
    requires
        ends_a_section(a),
        ends_a_section(b),
    ensures
        ends_a_section(a + b),
{
    if a.len() == 0 {
        assert(a + b =~= b);
    } else if a.len() >= 5 && a.take(5) == seq!['\n', '#', '#', '#', ' '] {
        assert((a + b).take(5) =~= a.take(5));
    } else {
        assert((a + b).take(6) =~= a.take(6));
    }
}

proof fn lemma_ends_all(parts: Seq<Seq<char>>)
    requires
        forall|i: int| 0 <= i < parts.len() ==> ends_a_section(#[trigger] parts[i]),
    ensures
        ends_a_section(concat(parts)),
    decreases parts.len(),
{
    if parts.len() > 0 {
        let init = parts.drop_last();
        assert forall|i: int| 0 <= i < init.len() implies ends_a_section(#[trigger] init[i]) by {
            assert(ends_a_section(parts[i]));
        }
        lemma_ends_all(init);
        assert(ends_a_section(parts[parts.len() - 1]));
        lemma_ends_sum(concat(init), parts.last());
    }
}

proof fn lemma_page_ends(opts: ReportOptionsV, d: DashboardV)
    ensures
        ends_a_section(page_text(opts, d)),
{
    reveal_strlit("\n### ");
    let page = page_text(opts, d);
    assert(page.take(5) =~= "\n### "@);
    assert("\n### "@ =~= seq!['\n', '#', '#', '#', ' ']);
}

proof fn lemma_detail_ends(opts: ReportOptionsV, p: PanelV)
    ensures
        ends_a_section(panel_detail(opts, p)),
{
    reveal_strlit("\n#### ");
    reveal_strlit("");
    if has_detail(p) {
        let detail = panel_detail(opts, p);
        assert(detail.take(6) =~= "\n#### "@);
        assert("\n#### "@ =~= seq!['\n', '#', '#', '#', '#', ' ']);
    }
}

proof fn lemma_apart(a: Seq<char>, b: Seq<char>, c: Seq<char>, d: Seq<char>, e: Seq<char>)
    ensures
        a + (b + (c + d + e)) == a + b + c + d + e,
{
    assert(a + (b + (c + d + e)) =~= a + b + c + d + e);
}

/// The report before a page, and what is behind it.
proof fn lemma_around_page(m: RenderV, opts: ReportOptionsV, i: int) -> (around: (
    Seq<char>,
    Seq<char>,
))
    requires
        0 <= i < m.dashboards.len(),
    ensures
        report_text(m, opts) == around.0 + page_text(opts, m.dashboards[i]) + around.1,
        ends_a_section(around.1),
{
    let pages = m.dashboards.map_values(|d: DashboardV| page_text(opts, d));
    lemma_concat_split(pages, i);
    let later = pages.skip(i + 1);
    assert forall|n: int| 0 <= n < later.len() implies ends_a_section(#[trigger] later[n]) by {
        lemma_page_ends(opts, m.dashboards[i + 1 + n]);
    }
    lemma_ends_all(later);
    let top = header_text(m, opts) + overview_text(m) + structure_text(m);
    let before = top + "\n## 3. Pages\n"@ + concat(pages.take(i));
    assert(pages_text(m, opts) == "\n## 3. Pages\n"@ + concat(pages));
    assert(report_text(m, opts) == top + pages_text(m, opts));
    lemma_apart(top, "\n## 3. Pages\n"@, concat(pages.take(i)), pages[i], concat(later));
    (before, concat(later))
}

/// A page in full before what it tells of a panel, and what is behind that.
proof fn lemma_around_panel(opts: ReportOptionsV, d: DashboardV, k: int) -> (around: (
    Seq<char>,
    Seq<char>,
))
    requires
        opts.mode == Mode::Full,
        0 <= k < d.panels.len(),
    ensures
        page_text(opts, d) == around.0 + panel_detail(opts, d.panels[k]) + around.1,
        ends_a_section(around.1),
{
    let details = d.panels.map_values(|p: PanelV| panel_detail(opts, p));
    lemma_concat_split(details, k);
    let later = details.skip(k + 1);
    assert forall|n: int| 0 <= n < later.len() implies ends_a_section(#[trigger] later[n]) by {
        lemma_detail_ends(opts, d.panels[k + 1 + n]);
    }
    lemma_ends_all(later);
    let end = panel_details_text(opts, d);
    let page = page_text(opts, d);
    let start = page.take(page.len() - end.len());
    assert(page =~= start + end);
    let before = start + concat(details.take(k));
    assert(page =~= before + details[k] + concat(later));
    (before, concat(later))
}

/// A report in full shows, of every panel of every page, one block for each
/// template SQL and, with data, one for each executed SQL and for the sample, in
/// order and under the panel's heading; behind them the next panel or page begins,
/// or the report ends.
pub proof fn law_sql_stands_under_its_panel(m: RenderV, opts: ReportOptionsV, i: int, k: int)
    requires
        opts.mode == Mode::Full,
        0 <= i < m.dashboards.len(),
        0 <= k < m.dashboards[i].panels.len(),
        has_detail(m.dashboards[i].panels[k]),
    ensures
        exists|before: Seq<char>, blocks: Seq<Seq<char>>, after: Seq<char>|
            are_blocks(opts, m.dashboards[i].panels[k], blocks) && #[trigger] ends_a_section(after)
                && report_text(m, opts) == #[trigger] (before + panel_heading(
                m.dashboards[i].panels[k],
            )) + #[trigger] concat(blocks) + after,
{
    let p = m.dashboards[i].panels[k];
    let (a, z) = lemma_around_page(m, opts, i);
    let (b, y) = lemma_around_panel(opts, m.dashboards[i], k);
    lemma_section(opts, p);
    lemma_ends_sum(y, z);
    let blocks = blocks_of(opts, p);
    lemma_nested(a, b, panel_heading(p), concat(blocks), y, z);
    assert(ends_a_section(y + z));
    assert(report_text(m, opts) == (a + b + panel_heading(p)) + concat(blocks) + (y + z));
}

proof fn lemma_nested(
    a: Seq<char>,
    b: Seq<char>,
    c: Seq<char>,
    d: Seq<char>,
    y: Seq<char>,
    z: Seq<char>,
)
    ensures
        a + (b + (c + d) + y) + z == a + b + c + d + (y + z),
{
    assert(a + (b + (c + d) + y) + z =~= a + b + c + d + (y + z));
}

/// A report shows the page heading of every dashboard, the row of every panel and
/// the value of every variable.
pub proof fn law_pages_show_their_dashboards(
    m: RenderV,
    opts: ReportOptionsV,
    i: int,
    k: int,
    v: int,
)
    requires
        0 <= i < m.dashboards.len(),
    ensures
        stands_in(report_text(m, opts), page_heading(m.dashboards[i])),
        0 <= k < m.dashboards[i].panels.len() ==> exists|row: Seq<char>| #[trigger]
            is_panel_row(opts, m.dashboards[i].panels[k], row) && stands_in(
                report_text(m, opts),
                row,
            ),
        0 <= v < m.dashboards[i].variables.len() ==> exists|s: Seq<char>| #[trigger]
            is_variable_shown(opts, m.dashboards[i].variables[v], s) && stands_in(
                report_text(m, opts),
                s,
            ),
{
    let d = m.dashboards[i];
    let (a, z) = lemma_around_page(m, opts, i);
    let page = page_text(opts, d);
    lemma_stands_between(a, page, z);
    let head = page_heading(d);
    let line = variables_line_text(opts.redact, d);
    let table = panels_table_text(opts, d);
    let details = if opts.mode == Mode::Full {
        panel_details_text(opts, d)
    } else {
        ""@
    };
    assert(page == head + line + table + details);
    lemma_four(head, line, table, details);
    lemma_stands_trans(report_text(m, opts), page, head);
    lemma_stands_trans(report_text(m, opts), page, line);
    lemma_stands_trans(report_text(m, opts), page, table);
    if 0 <= k < d.panels.len() {
        let rows = d.panels.map_values(|p: PanelV| panel_row(opts, p));
        lemma_concat_stands(rows, k);
        lemma_stands_behind(
            "- Panels (sorted by panel id):\n\n  | panel | id | type | datasource | value |\n  |-------|----|------|-----------|-------|\n"@,
            concat(rows),
        );
        lemma_stands_trans(table, concat(rows), rows[k]);
        lemma_stands_trans(report_text(m, opts), table, rows[k]);
        assert(is_panel_row(opts, d.panels[k], rows[k]));
    }
    if 0 <= v < d.variables.len() {
        let parts = d.variables.map_values(
            |x: (Seq<char>, Seq<char>)| variable_text(opts.redact, x),
        );
        lemma_join_stands(parts, ", "@, v);
        lemma_stands_around("- Variables: "@, join(parts, ", "@), "\n"@, parts[v]);
        lemma_stands_trans(report_text(m, opts), line, parts[v]);
        assert(is_variable_shown(opts, d.variables[v], parts[v]));
    }
}

proof fn lemma_stands_behind(a: Seq<char>, b: Seq<char>)
    ensures
        stands_in(a + b, b),
{
    let none = Seq::<char>::empty();
    lemma_stands_between(a, b, none);
    assert(a + b + none =~= a + b);
}

proof fn lemma_four(a: Seq<char>, b: Seq<char>, c: Seq<char>, d: Seq<char>)
    ensures
        stands_in(a + b + c + d, a),
        stands_in(a + b + c + d, b),
        stands_in(a + b + c + d, c),
        stands_in(a + b + c + d, d),
{
    let none = Seq::<char>::empty();
    lemma_stands_between(none, a, b + c + d);
    assert(none + a + (b + c + d) =~= a + b + c + d);
    lemma_stands_between(a, b, c + d);
    assert(a + b + (c + d) =~= a + b + c + d);
    lemma_stands_between(a + b, c, d);
    lemma_stands_behind(a + b + c, d);
}

// ---------------------------------------------------------------------------
// Escaping
// ---------------------------------------------------------------------------

/// A cell of a table is written character by character: a backslash and a bar are
/// escaped, a line break becomes a space, and all else stays.
pub proof fn law_cells_are_escaped(a: Seq<char>, b: Seq<char>, c: char)
    ensures
        cell(a + b) == cell(a) + cell(b),
        cell(Seq::<char>::empty()).len() == 0,
        cell(seq![c]) == (if c == '\\' {
            seq!['\\', '\\']
        } else if c == '|' {
            seq!['\\', '|']
        } else if c == '\n' || c == '\r' {
            seq![' ']
        } else {
            seq![c]
        }),
    decreases b.len(),
{
    reveal_with_fuel(cell, 2);
    assert(seq![c].drop_last() =~= Seq::<char>::empty());
    assert(cell(seq![c]) =~= cell_char(c));
    if b.len() == 0 {
        assert(a + b =~= a);
        assert(cell(a) + cell(b) =~= cell(a));
    } else {
        law_cells_are_escaped(a, b.drop_last(), c);
        assert((a + b).drop_last() =~= a + b.drop_last());
        assert(cell(a + b) =~= cell(a) + cell(b));
    }
}

// ---------------------------------------------------------------------------
// The head of a report
// ---------------------------------------------------------------------------

/// `text` begins with `start`.
pub open spec fn begins_with(text: Seq<char>, start: Seq<char>) -> bool {
    text.len() >= start.len() && text.take(start.len() as int) == start
}

/// A report begins with its host, the day of its facts, its options and its scope.
pub proof fn law_reports_begin_with_their_scope(m: RenderV, opts: ReportOptionsV)
    ensures
        begins_with(
            report_text(m, opts),
            "# Grafana Report — "@ + m.instance.host + "\ngenerated "@ + time_text(
                m.generated.0,
                m.generated.1,
                "%Y-%m-%d"@,
            ) + " · mode: "@ + (match opts.mode {
                Mode::Overview => "overview"@,
                Mode::Full => "full"@,
                Mode::Audit => "audit"@,
            }) + " · data: "@ + (if opts.data {
                "on ("@ + opts.window + ")"@
            } else {
                "off"@
            }) + " · "@ + (if opts.redact {
                "redacted"@
            } else {
                "not redacted"@
            }) + "\nscope: "@ + m.scope + "  ("@ + decimal(m.on_disk_total as nat)
                + " on disk of "@ + decimal(m.inventory_total as nat)
                + " in instance inventory)\n"@,
        ),
{
    let head = header_text(m, opts);
    lemma_begins(head, overview_text(m), structure_text(m), pages_text(m, opts));
}

pub proof fn lemma_begins(a: Seq<char>, b: Seq<char>, c: Seq<char>, d: Seq<char>)
    ensures
        begins_with(a + b + c + d, a),
{
    assert((a + b + c + d).take(a.len() as int) =~= a);
}

/// A report tells the address, the version, the edition, the datasources and the
/// counts of its instance.
pub proof fn law_overviews_tell_the_instance(m: RenderV, opts: ReportOptionsV)
    ensures
        stands_in(
            report_text(m, opts),
            "\n## 1. Overview\n- URL:          https://"@ + m.instance.host
                + "\n- Version:      "@ + (match m.instance.version {
                Some(v) => v,
                None => "unknown"@,
            }) + "  ("@ + (match m.instance.edition {
                Some(e) => e,
                None => "unknown"@,
            }) + ")\n- Datasources:  "@ + datasource_line_text(m) + "\n- Dashboards:   "@ + decimal(
                m.instance.dashboards_inventory as nat,
            ) + " inventory / "@ + decimal(m.instance.dashboards_on_disk as nat)
                + " scraped       Folders: "@ + decimal(m.instance.folders_count)
                + "\n- Renderer plugin: "@ + (match m.instance.renderer_available {
                Some(true) => "installed"@,
                Some(false) =>
                    "not installed  (visual/screenshot mode unavailable; chrome fallback only)"@,
                None => "unknown"@,
            }) + "\n"@,
        ),
{
    lemma_four(header_text(m, opts), overview_text(m), structure_text(m), pages_text(m, opts));
}

/// The line of the datasources names each of them with its type, tells which one
/// is the default, and has them in order.
pub proof fn law_datasources_are_told(m: RenderV)
    ensures
        m.instance.datasources.len() == 0 ==> datasource_line_text(m) == "none recorded"@,
        m.instance.datasources.len() > 0 ==> exists|texts: Seq<Seq<char>>|
            #![trigger texts.to_multiset()]
            datasource_line_text(m) == join(texts, " · "@) && texts.to_multiset()
                == m.instance.datasources.map_values(
                |d: DsViewV|
                    d.name + " ("@ + d.ds_type + (if d.is_default {
                        ", default)"@
                    } else {
                        ")"@
                    }),
            ).to_multiset() && forall|i: int, j: int|
                0 <= i < j < texts.len() ==> text_le(#[trigger] texts[i], #[trigger] texts[j]),
{
    reveal_strlit("");
    reveal_strlit(")");
    reveal_strlit(", default");
    reveal_strlit(", default)");
    let told = m.instance.datasources.map_values(|d: DsViewV| ds_text(d));
    let said = m.instance.datasources.map_values(
        |d: DsViewV|
            d.name + " ("@ + d.ds_type + (if d.is_default {
                ", default)"@
            } else {
                ")"@
            }),
    );
    assert(told =~= said) by {
        assert forall|i: int| 0 <= i < told.len() implies told[i] == said[i] by {
            let d = m.instance.datasources[i];
            assert(told[i] =~= said[i]);
        }
    }
    law_sorted_texts(told);
    let texts = sorted_texts(told);
    assert(texts.to_multiset() == told.to_multiset());
    if m.instance.datasources.len() > 0 {
        assert(datasource_line_text(m) == join(texts, " · "@));
    }
}

// ---------------------------------------------------------------------------
// The structure
// ---------------------------------------------------------------------------

/// `s` has a line for each of the names, once and in order, with how often it
/// occurs.
pub open spec fn tells_counts(names: Seq<Seq<char>>, none: Seq<char>, s: Seq<char>) -> bool {
    if names.len() == 0 {
        s == none
    } else {
        exists|lines: Seq<(Seq<char>, nat)>|
            #![trigger are_counts(names, lines)]
            are_counts(names, lines) && s == concat(
                lines.map_values(
                    |e: (Seq<char>, nat)| "- "@ + e.0 + ": "@ + decimal(e.1) + "\n"@,
                ),
            )
    }
}

/// `lines` are the different names, in order, each with how often it occurs.
pub open spec fn are_counts(names: Seq<Seq<char>>, lines: Seq<(Seq<char>, nat)>) -> bool {
    &&& forall|i: int|
        0 <= i < lines.len() ==> names.contains((#[trigger] lines[i]).0) && lines[i].1
            == names.filter(|n: Seq<char>| n == lines[i].0).len()
    &&& forall|n: Seq<char>| #[trigger]
        names.contains(n) ==> exists|i: int| 0 <= i < lines.len() && (#[trigger] lines[i]).0 == n
    &&& forall|i: int, j: int|
        0 <= i < j < lines.len() ==> text_le((#[trigger] lines[i]).0, (#[trigger] lines[j]).0)
            && lines[i].0 != lines[j].0
}

proof fn lemma_counts(names: Seq<Seq<char>>, none: Seq<char>)
    ensures
        tells_counts(names, none, count_lines(tally(names), none)),
{
    let lines = tally(names);
    let keys = distinct_texts(names);
    law_distinct_texts(names);
    if names.len() == 0 {
        if keys.len() > 0 {
            assert(keys.contains(keys[0]));
        }
    } else {
        assert(names.contains(names[0]));
        assert(keys.contains(names[0]));
        assert forall|i: int| 0 <= i < lines.len() implies names.contains((#[trigger] lines[i]).0)
            && lines[i].1 == names.filter(|n: Seq<char>| n == lines[i].0).len() by {
            assert(keys.contains(keys[i]));
        }
        assert forall|n: Seq<char>| #[trigger] names.contains(n) implies exists|i: int|
            0 <= i < lines.len() && (#[trigger] lines[i]).0 == n by {
            assert(keys.contains(n));
            let i = choose|i: int| 0 <= i < keys.len() && keys[i] == n;
            assert(lines[i].0 == n);
        }
        assert forall|i: int, j: int| 0 <= i < j < lines.len() implies text_le(
            (#[trigger] lines[i]).0,
            (#[trigger] lines[j]).0,
        ) && lines[i].0 != lines[j].0 by {
            assert(text_order()(keys[i], keys[j]));
        }
        assert(are_counts(names, lines));
        let a = lines.map_values(|e: (Seq<char>, nat)| count_line(e));
        let b = lines.map_values(
            |e: (Seq<char>, nat)| "- "@ + e.0 + ": "@ + decimal(e.1) + "\n"@,
        );
        assert(a =~= b);
    }
}

/// The types of all panels.
pub open spec fn panel_types(m: RenderV) -> Seq<Seq<char>> {
    flattened(
        m.dashboards,
        |d: DashboardV|
            d.panels.map_values(
                |p: PanelV|
                    if p.ptype.len() == 0 {
                        "(unknown)"@
                    } else {
                        p.ptype
                    },
            ),
    )
}

/// `s` has a line for each tag, in order, with the dashboards that have it.
pub open spec fn tells_tags(m: RenderV, s: Seq<char>) -> bool {
    if forall|i: int| 0 <= i < m.dashboards.len() ==> (#[trigger] m.dashboards[i]).tags.len() == 0 {
        s == "- (no tags)\n"@
    } else {
        exists|tags: Seq<Seq<char>>, lists: Seq<Seq<Seq<char>>>|
            #![trigger are_tags(m, tags, lists)]
            are_tags(m, tags, lists) && s == concat(
                Seq::new(
                    tags.len(),
                    |i: int| "- "@ + tags[i] + ": "@ + join(lists[i], ", "@) + "\n"@,
                ),
            )
    }
}

/// A dashboard has a tag and is told by its title and uid.
pub open spec fn has_tag(d: DashboardV, tag: Seq<char>, label: Seq<char>) -> bool {
    d.tags.contains(tag) && label == d.title + " ("@ + d.uid + ")"@
}

/// `tags` are the different tags, in order, and `lists` the dashboards of each.
pub open spec fn are_tags(m: RenderV, tags: Seq<Seq<char>>, lists: Seq<Seq<Seq<char>>>) -> bool {
    &&& lists.len() == tags.len()
    &&& forall|i: int, j: int|
        0 <= i < j < tags.len() ==> text_le(#[trigger] tags[i], #[trigger] tags[j]) && tags[i]
            != tags[j]
    &&& forall|t: Seq<char>| #[trigger]
        tags.contains(t) <==> exists|j: int|
            0 <= j < m.dashboards.len() && (#[trigger] m.dashboards[j]).tags.contains(t)
    &&& forall|i: int, label: Seq<char>|
        0 <= i < tags.len() ==> (#[trigger] lists[i].contains(label) <==> exists|j: int|
            0 <= j < m.dashboards.len() && has_tag(#[trigger] m.dashboards[j], tags[i], label))
    &&& forall|i: int, a: int, b: int|
        0 <= i < tags.len() && 0 <= a < b < lists[i].len() ==> text_le(
            #[trigger] lists[i][a],
            #[trigger] lists[i][b],
        )
}

spec fn tag_pairs(m: RenderV) -> Seq<(Seq<char>, Seq<char>)> {
    flattened(m.dashboards, |d: DashboardV| tagged(d))
}

proof fn lemma_keys(pairs: Seq<(Seq<char>, Seq<char>)>)
    ensures
        forall|t: Seq<char>| #[trigger]
            keys_of(pairs).contains(t) <==> exists|k: int|
                0 <= k < pairs.len() && (#[trigger] pairs[k]).0 == t,
        forall|i: int, j: int|
            0 <= i < j < keys_of(pairs).len() ==> text_le(
                #[trigger] keys_of(pairs)[i],
                #[trigger] keys_of(pairs)[j],
            ) && keys_of(pairs)[i] != keys_of(pairs)[j],
        keys_of(pairs).len() == 0 <==> pairs.len() == 0,
{
    let firsts = pairs.map_values(|p: (Seq<char>, Seq<char>)| p.0);
    let keys = keys_of(pairs);
    law_distinct_texts(firsts);
    assert forall|t: Seq<char>| #[trigger] keys.contains(t) <==> exists|k: int|
        0 <= k < pairs.len() && (#[trigger] pairs[k]).0 == t by {
        if firsts.contains(t) {
            let k = choose|k: int| 0 <= k < firsts.len() && firsts[k] == t;
            assert(pairs[k].0 == t);
        }
        if exists|k: int| 0 <= k < pairs.len() && (#[trigger] pairs[k]).0 == t {
            let k = choose|k: int| 0 <= k < pairs.len() && (#[trigger] pairs[k]).0 == t;
            assert(firsts[k] == t);
        }
    }
    assert forall|i: int, j: int| 0 <= i < j < keys.len() implies text_le(
        #[trigger] keys[i],
        #[trigger] keys[j],
    ) && keys[i] != keys[j] by {
        assert(text_order()(keys[i], keys[j]));
    }
    if pairs.len() > 0 {
        assert(pairs[0].0 == pairs[0].0);
        assert(keys.contains(pairs[0].0));
    }
    if keys.len() > 0 {
        assert(keys.contains(keys[0]));
    }
}

proof fn lemma_values(pairs: Seq<(Seq<char>, Seq<char>)>, key: Seq<char>, value: Seq<char>)
    ensures
        values_under(pairs, key).contains(value) <==> pairs.contains((key, value)),
{
    let f = |p: (Seq<char>, Seq<char>)| value_if(p, key);
    if values_under(pairs, key).contains(value) {
        let k = lemma_collected_from(pairs, f, value);
        assert(pairs[k] == (key, value));
    }
    if pairs.contains((key, value)) {
        let k = choose|k: int| 0 <= k < pairs.len() && pairs[k] == (key, value);
        lemma_collected_has(pairs, f, k);
    }
}

proof fn lemma_tag_pair(m: RenderV, tag: Seq<char>, label: Seq<char>)
    ensures
        tag_pairs(m).contains((tag, label)) <==> exists|j: int|
            0 <= j < m.dashboards.len() && has_tag(#[trigger] m.dashboards[j], tag, label),
{
    let f = |d: DashboardV| tagged(d);
    if tag_pairs(m).contains((tag, label)) {
        let j = lemma_flattened_from(m.dashboards, f, (tag, label));
        let d = m.dashboards[j];
        let k = choose|k: int| 0 <= k < tagged(d).len() && tagged(d)[k] == (tag, label);
        assert(d.tags[k] == tag);
        assert(has_tag(d, tag, label));
    }
    if exists|j: int|
        0 <= j < m.dashboards.len() && has_tag(#[trigger] m.dashboards[j], tag, label) {
        let j = choose|j: int|
            0 <= j < m.dashboards.len() && has_tag(#[trigger] m.dashboards[j], tag, label);
        let d = m.dashboards[j];
        let k = choose|k: int| 0 <= k < d.tags.len() && d.tags[k] == tag;
        assert(tagged(d)[k] == (tag, label));
        assert(tagged(d).contains((tag, label)));
        lemma_flattened_has(m.dashboards, f, j, (tag, label));
    }
}

proof fn lemma_tag_key(m: RenderV, tag: Seq<char>)
    ensures
        keys_of(tag_pairs(m)).contains(tag) <==> exists|j: int|
            0 <= j < m.dashboards.len() && (#[trigger] m.dashboards[j]).tags.contains(tag),
{
    let pairs = tag_pairs(m);
    lemma_keys(pairs);
    if keys_of(pairs).contains(tag) {
        let k = choose|k: int| 0 <= k < pairs.len() && (#[trigger] pairs[k]).0 == tag;
        assert(pairs.contains((tag, pairs[k].1)));
        lemma_tag_pair(m, tag, pairs[k].1);
        let j = choose|j: int|
            0 <= j < m.dashboards.len() && has_tag(
                #[trigger] m.dashboards[j],
                tag,
                pairs[k].1,
            );
        assert(m.dashboards[j].tags.contains(tag));
    }
    if exists|j: int|
        0 <= j < m.dashboards.len() && (#[trigger] m.dashboards[j]).tags.contains(tag) {
        let j = choose|j: int|
            0 <= j < m.dashboards.len() && (#[trigger] m.dashboards[j]).tags.contains(tag);
        let label = index_label(m.dashboards[j]);
        assert(has_tag(m.dashboards[j], tag, label));
        lemma_tag_pair(m, tag, label);
        let k = choose|k: int| 0 <= k < pairs.len() && pairs[k] == (tag, label);
        assert(pairs[k].0 == tag);
    }
}

/// The line of each tag in the index.
spec fn tag_index(m: RenderV) -> Seq<char> {
    let keys = keys_of(tag_pairs(m));
    if keys.len() == 0 {
        "- (no tags)\n"@
    } else {
        concat(keys.map_values(|t: Seq<char>| tag_line(tag_pairs(m), t)))
    }
}

proof fn lemma_tags_told(m: RenderV)
    ensures
        tells_tags(m, tag_index(m)),
{
    let pairs = tag_pairs(m);
    let keys = keys_of(pairs);
    lemma_keys(pairs);
    assert forall|t: Seq<char>| #[trigger] keys.contains(t) <==> exists|j: int|
        0 <= j < m.dashboards.len() && (#[trigger] m.dashboards[j]).tags.contains(t) by {
        lemma_tag_key(m, t);
    }
    if forall|i: int| 0 <= i < m.dashboards.len() ==> (#[trigger] m.dashboards[i]).tags.len() == 0 {
        if keys.len() > 0 {
            assert(keys.contains(keys[0]));
        }
    } else {
        let i = choose|i: int|
            0 <= i < m.dashboards.len() && (#[trigger] m.dashboards[i]).tags.len() != 0;
        assert(m.dashboards[i].tags.contains(m.dashboards[i].tags[0]));
        assert(keys.contains(m.dashboards[i].tags[0]));
        let lists = keys.map_values(|t: Seq<char>| sorted_texts(values_under(pairs, t)));
        assert forall|i: int, label: Seq<char>| 0 <= i < keys.len() implies (
        #[trigger] lists[i].contains(label) <==> exists|j: int|
            0 <= j < m.dashboards.len() && has_tag(#[trigger] m.dashboards[j], keys[i], label)) by {
            lemma_ordered_contains(values_under(pairs, keys[i]), text_order(), label);
            lemma_values(pairs, keys[i], label);
            lemma_tag_pair(m, keys[i], label);
        }
        assert forall|i: int, a: int, b: int|
            0 <= i < keys.len() && 0 <= a < b < lists[i].len() implies text_le(
            #[trigger] lists[i][a],
            #[trigger] lists[i][b],
        ) by {
            law_sorted_texts(values_under(pairs, keys[i]));
        }
        assert(are_tags(m, keys, lists));
        let x = keys.map_values(|t: Seq<char>| tag_line(pairs, t));
        let y = Seq::new(
            keys.len(),
            |i: int| "- "@ + keys[i] + ": "@ + join(lists[i], ", "@) + "\n"@,
        );
        assert(x =~= y);
    }
}

/// `s` has a line for each datasource that a panel uses, in order, with how many
/// panels use it and on how many dashboards, told apart by their titles.
pub open spec fn tells_uses(m: RenderV, s: Seq<char>) -> bool {
    if all_uses(m).len() == 0 {
        s == "- (none)\n"@
    } else {
        exists|lines: Seq<(Seq<char>, nat, nat)>|
            #![trigger are_uses(m, lines)]
            are_uses(m, lines) && s == concat(
                lines.map_values(
                    |e: (Seq<char>, nat, nat)|
                        "- "@ + e.0 + ": "@ + decimal(e.1) + " panel(s) across "@ + decimal(e.2)
                            + " dashboard(s)\n"@,
                ),
            )
    }
}

/// The datasource of every panel with the title of its dashboard.
pub open spec fn all_uses(m: RenderV) -> Seq<(Seq<char>, Seq<char>)> {
    flattened(
        m.dashboards,
        |d: DashboardV| d.panels.map_values(|p: PanelV| (p.datasource, d.title)),
    )
}

/// `titles` are the different titles under which a datasource is used.
pub open spec fn are_titles(
    m: RenderV,
    ds: Seq<char>,
    titles: Seq<Seq<char>>,
) -> bool {
    titles.no_duplicates() && forall|t: Seq<char>| #[trigger]
        titles.contains(t) <==> all_uses(m).contains((ds, t))
}

/// `lines` are the different datasources, in order, with their counts.
pub open spec fn are_uses(m: RenderV, lines: Seq<(Seq<char>, nat, nat)>) -> bool {
    &&& forall|i: int|
        0 <= i < lines.len() ==> (#[trigger] lines[i]).1 == all_uses(m).filter(
            |u: (Seq<char>, Seq<char>)| u.0 == lines[i].0,
        ).len() && lines[i].1 > 0 && exists|titles: Seq<Seq<char>>|
            #![trigger are_titles(m, lines[i].0, titles)]
            are_titles(m, lines[i].0, titles) && lines[i].2 == titles.len()
    &&& forall|k: int|
        0 <= k < all_uses(m).len() ==> exists|i: int|
            0 <= i < lines.len() && (#[trigger] lines[i]).0 == (#[trigger] all_uses(m)[k]).0
    &&& forall|i: int, j: int|
        0 <= i < j < lines.len() ==> text_le((#[trigger] lines[i]).0, (#[trigger] lines[j]).0)
            && lines[i].0 != lines[j].0
}

spec fn usage(m: RenderV) -> Seq<char> {
    let keys = keys_of(all_uses(m));
    if keys.len() == 0 {
        "- (none)\n"@
    } else {
        concat(keys.map_values(|k: Seq<char>| usage_line(all_uses(m), k)))
    }
}

proof fn lemma_uses_told(m: RenderV)
    ensures
        tells_uses(m, usage(m)),
{
    let pairs = all_uses(m);
    let keys = keys_of(pairs);
    lemma_keys(pairs);
    if pairs.len() > 0 {
        let lines = keys.map_values(
            |k: Seq<char>|
                (k, values_under(pairs, k).len(), distinct_texts(values_under(pairs, k)).len()),
        );
        assert forall|i: int| 0 <= i < lines.len() implies (#[trigger] lines[i]).1 == pairs.filter(
            |u: (Seq<char>, Seq<char>)| u.0 == lines[i].0,
        ).len() && lines[i].1 > 0 && exists|titles: Seq<Seq<char>>|
            #![trigger are_titles(m, lines[i].0, titles)]
            are_titles(m, lines[i].0, titles) && lines[i].2 == titles.len() by {
            let key = keys[i];
            let f = |p: (Seq<char>, Seq<char>)| value_if(p, key);
            lemma_collected_count(pairs, f, |x: Seq<char>| true);
            lemma_same_count(
                pairs,
                |p: (Seq<char>, Seq<char>)| f(p) is Some,
                |u: (Seq<char>, Seq<char>)| u.0 == lines[i].0,
            );
            assert(keys.contains(keys[i]));
            let k = choose|k: int| 0 <= k < pairs.len() && (#[trigger] pairs[k]).0 == key;
            lemma_collected_has(pairs, f, k);
            let titles = distinct_texts(values_under(pairs, key));
            law_distinct_texts(values_under(pairs, key));
            assert forall|t: Seq<char>| #[trigger] titles.contains(t) <==> pairs.contains(
                (key, t),
            ) by {
                lemma_values(pairs, key, t);
            }
            assert(are_titles(m, key, titles));
        }
        assert forall|k: int| 0 <= k < pairs.len() implies exists|i: int|
            0 <= i < lines.len() && (#[trigger] lines[i]).0 == (#[trigger] pairs[k]).0 by {
            assert(keys.contains(pairs[k].0));
            let i = choose|i: int| 0 <= i < keys.len() && keys[i] == pairs[k].0;
            assert(lines[i].0 == pairs[k].0);
        }
        assert forall|i: int, j: int| 0 <= i < j < lines.len() implies text_le(
            (#[trigger] lines[i]).0,
            (#[trigger] lines[j]).0,
        ) && lines[i].0 != lines[j].0 by {
            assert(text_le(keys[i], keys[j]));
        }
        assert(are_uses(m, lines));
        let x = keys.map_values(|k: Seq<char>| usage_line(pairs, k));
        let y = lines.map_values(
            |e: (Seq<char>, nat, nat)|
                "- "@ + e.0 + ": "@ + decimal(e.1) + " panel(s) across "@ + decimal(e.2)
                    + " dashboard(s)\n"@,
        );
        assert(x =~= y);
    }
}

/// `s` tells of the first dashboard that is there for navigation, with its links.
pub open spec fn tells_navigation(m: RenderV, s: Seq<char>) -> bool {
    ||| s.len() == 0 && forall|i: int|
        0 <= i < m.dashboards.len() ==> !(#[trigger] m.dashboards[i]).is_navigation
    ||| exists|i: int|
        0 <= i < m.dashboards.len() && (#[trigger] m.dashboards[i]).is_navigation && (forall|l: int|
            0 <= l < i ==> !(#[trigger] m.dashboards[l]).is_navigation) && s
            == "\n### 0. Navigation ("@ + m.dashboards[i].title + ")\n"@ + (if m.dashboards[i].nav_links.len()
            == 0 {
            "- (no dashlist/links found)\n"@
        } else {
            concat(m.dashboards[i].nav_links.map_values(|l: Seq<char>| "- "@ + l + "\n"@))
        })
}

proof fn lemma_navigation(m: RenderV)
    ensures
        tells_navigation(m, navigation_text(m)),
{
    reveal_strlit("");
    let f = |d: DashboardV| navigation_of(d);
    if first_some(m.dashboards, f) is Some {
        let i = lemma_first_some_at(m.dashboards, f);
        assert(m.dashboards[i].is_navigation);
        assert forall|l: int| 0 <= l < i implies !(#[trigger] m.dashboards[l]).is_navigation by {
            assert(f(m.dashboards[l]) is None);
        }
        let links = m.dashboards[i].nav_links;
        assert(links.map_values(|l: Seq<char>| link_line(l)) =~= links.map_values(
            |l: Seq<char>| "- "@ + l + "\n"@,
        ));
    } else {
        assert forall|i: int| 0 <= i < m.dashboards.len() implies !(
        #[trigger] m.dashboards[i]).is_navigation by {
            if m.dashboards[i].is_navigation {
                lemma_finds_some(m.dashboards, f, i);
            }
        }
    }
}

/// The names of the folders of all dashboards.
pub open spec fn folder_names(m: RenderV) -> Seq<Seq<char>> {
    m.dashboards.map_values(|d: DashboardV| folder_name(d))
}

/// The parts tell of the dashboards of each folder, of the navigation, of the
/// dashboards of each tag, of the panels of each type and of the uses of each
/// datasource.
pub open spec fn are_told(
    m: RenderV,
    folders: Seq<char>,
    navigation: Seq<char>,
    tags: Seq<char>,
    types: Seq<char>,
    used: Seq<char>,
) -> bool {
    &&& tells_counts(folder_names(m), "- (none on disk)\n"@, folders)
    &&& tells_navigation(m, navigation)
    &&& tells_tags(m, tags)
    &&& tells_counts(panel_types(m), "- (no panels)\n"@, types)
    &&& tells_uses(m, used)
}

/// The structure of a report is told in order: the dashboards of each folder, the
/// navigation, the dashboards of each tag, the panels of each type and the uses of
/// each datasource.
pub proof fn law_structure_is_told(m: RenderV, opts: ReportOptionsV)
    ensures
        exists|
            folders: Seq<char>,
            navigation: Seq<char>,
            tags: Seq<char>,
            types: Seq<char>,
            used: Seq<char>,
        | #[trigger]
            are_told(m, folders, navigation, tags, types, used) && stands_in(
                report_text(m, opts),
                "\n## 2. Structure / Navigation\n"@ + ("\n### Folder tree\n"@ + folders)
                    + navigation + ("\n### Tag index\n"@ + tags) + (
                "\n### Panel-type distribution\n"@ + types) + ("\n### Datasource usage\n"@ + used),
            ),
{
    let names = folder_names(m);
    assert(names =~= m.dashboards.map_values(|d: DashboardV| folder_key(d)));
    lemma_counts(names, "- (none on disk)\n"@);
    lemma_navigation(m);
    lemma_tags_told(m);
    lemma_types(m);
    lemma_counts(panel_types(m), "- (no panels)\n"@);
    lemma_uses(m);
    lemma_uses_told(m);
    lemma_four(header_text(m, opts), overview_text(m), structure_text(m), pages_text(m, opts));
    let folders = count_lines(tally(names), "- (none on disk)\n"@);
    let types = count_lines(tally(panel_types(m)), "- (no panels)\n"@);
    assert(folder_tree_text(m) == "\n### Folder tree\n"@ + folders);
    assert(tag_index_text(m) == "\n### Tag index\n"@ + tag_index(m));
    assert(panel_types_text(m) == "\n### Panel-type distribution\n"@ + types);
    assert(datasource_usage_text(m) == "\n### Datasource usage\n"@ + usage(m));
    assert(are_told(m, folders, navigation_text(m), tag_index(m), types, usage(m)));
}

proof fn lemma_types(m: RenderV)
    ensures
        panel_types(m) == flattened(m.dashboards, |d: DashboardV| type_keys(d)),
{
    let f = |d: DashboardV|
        d.panels.map_values(
            |p: PanelV|
                if p.ptype.len() == 0 {
                    "(unknown)"@
                } else {
                    p.ptype
                },
        );
    let g = |d: DashboardV| type_keys(d);
    lemma_flattened_same(m.dashboards, f, g);
}

proof fn lemma_uses(m: RenderV)
    ensures
        all_uses(m) == flattened(m.dashboards, |d: DashboardV| uses(d)),
{
    lemma_flattened_same(
        m.dashboards,
        |d: DashboardV| d.panels.map_values(|p: PanelV| (p.datasource, d.title)),
        |d: DashboardV| uses(d),
    );
}

proof fn lemma_flattened_same<A, B>(
    xs: Seq<A>,
    f: spec_fn(A) -> Seq<B>,
    g: spec_fn(A) -> Seq<B>,
)
    requires
        forall|i: int| 0 <= i < xs.len() ==> f(#[trigger] xs[i]) =~= g(xs[i]),
    ensures
        flattened(xs, f) == flattened(xs, g),
    decreases xs.len(),
{
    if xs.len() > 0 {
        let init = xs.drop_last();
        assert forall|i: int| 0 <= i < init.len() implies f(#[trigger] init[i]) =~= g(init[i]) by {
            assert(f(xs[i]) =~= g(xs[i]));
        }
        lemma_flattened_same(init, f, g);
        assert(f(xs[xs.len() - 1]) =~= g(xs[xs.len() - 1]));
    }
}

} // verus!
