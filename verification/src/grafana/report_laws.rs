//! What a built report and its options guarantee.

use crate::artifact::ArtifactV;
use crate::collect::collected;
use crate::grafana::audit::{
    audit_of, ds_ref_of, error_in, errors_of, frame_rows, frames_of, paired, row_count_of,
    severity_label, total_rows, DsRefV, FindingV, Severity,
};
use crate::grafana::audit_laws::{
    called, fails, fails_with, frames_in, lemma_reference, means_named, means_none, names_variable,
    results_in,
};
use crate::grafana::model::assembled;
use crate::grafana::model_laws::{columns_in, lemma_longest};
use crate::grafana::options::{count_member, mode_of, options_of, scope_text, Mode, ReportOptionsV};
use crate::grafana::render::{cell, header_text, report_text};
use crate::grafana::render_laws::{begins_with, ends_with, hidden};
use crate::grafana::report::{
    built_text, facts_of, finding_row, findings_text, group_text, row_if, summary_text,
};
use crate::grafana::sql::{ds_list, DsEntryV};
use crate::json::{bool_member, items_of_json, member, text_member, JsonV};
use crate::path::joined;
use crate::sidecar::InstanceSidecar;
use crate::text::{concat, decimal, integer};
use crate::text_laws::{law_collected_of_parts, law_flattened_of_parts};
use vstd::prelude::*;

verus! {

// ---------------------------------------------------------------------------
// Findings
// ---------------------------------------------------------------------------

/// `row` is the row of a finding: its class, dashboard, panel, message and source,
/// each with a dash where there is none.
pub open spec fn is_finding_row(on: bool, f: FindingV, row: Seq<char>) -> bool {
    let dashboard = if f.dashboard_uid.len() == 0 {
        "—"@
    } else {
        f.dashboard_title + " ("@ + f.dashboard_uid + ")"@
    };
    let panel = match f.panel_id {
        Some(id) => match f.panel_title {
            Some(title) => title + " ("@ + integer(id as int) + ")"@,
            None => integer(id as int),
        },
        None => match f.panel_title {
            Some(title) => title,
            None => "—"@,
        },
    };
    let source = if f.source_artifact.len() == 0 {
        "—"@
    } else {
        f.source_artifact
    };
    row == "| "@ + f.class + " | "@ + cell(dashboard) + " | "@ + cell(panel) + " | "@ + cell(
        hidden(on, f.message),
    ) + " | "@ + cell(source) + " |\n"@
}

/// `s` tells of the findings of one severity, in their order, under its name; of
/// none it tells nothing.
pub open spec fn is_group(
    on: bool,
    findings: Seq<FindingV>,
    severity: Severity,
    name: Seq<char>,
    s: Seq<char>,
) -> bool {
    let found = findings.filter(|f: FindingV| f.severity == severity);
    if found.len() == 0 {
        s.len() == 0
    } else {
        exists|rows: Seq<Seq<char>>|
            #![trigger concat(rows)]
            rows.len() == found.len() && (forall|i: int|
                0 <= i < rows.len() ==> is_finding_row(on, found[i], #[trigger] rows[i])) && s
                == "\n### "@ + name
                + "\n\n| class | dashboard | panel | message | source |\n|-------|-----------|-------|---------|--------|\n"@
                + concat(rows)
    }
}

proof fn lemma_group_rows(on: bool, findings: Seq<FindingV>, severity: Severity)
    ensures
        collected(findings, |f: FindingV| row_if(on, f, severity)) == findings.filter(
            |f: FindingV| f.severity == severity,
        ).map_values(|f: FindingV| finding_row(on, f)),
    decreases findings.len(),
{
    reveal(Seq::filter);
    let g = |f: FindingV| row_if(on, f, severity);
    let p = |f: FindingV| f.severity == severity;
    let row = |f: FindingV| finding_row(on, f);
    if findings.len() == 0 {
        assert(collected(findings, g) =~= findings.filter(p).map_values(row));
    } else {
        let init = findings.drop_last();
        lemma_group_rows(on, init, severity);
        assert(collected(findings, g) =~= findings.filter(p).map_values(row));
    }
}

proof fn lemma_group_text(on: bool, findings: Seq<FindingV>, severity: Severity)
    ensures
        is_group(
            on,
            findings,
            severity,
            severity_label(severity),
            group_text(on, findings, severity),
        ),
{
    reveal_strlit("");
    lemma_group_rows(on, findings, severity);
    let found = findings.filter(|f: FindingV| f.severity == severity);
    let rows = found.map_values(|f: FindingV| finding_row(on, f));
    assert forall|i: int| 0 <= i < rows.len() implies is_finding_row(
        on,
        found[i],
        #[trigger] rows[i],
    ) by {}
    if found.len() > 0 {
        assert(group_text(on, findings, severity) == "\n### "@ + severity_label(severity)
            + "\n\n| class | dashboard | panel | message | source |\n|-------|-----------|-------|---------|--------|\n"@
            + concat(rows));
    }
}

/// The findings are told in full: those that are errors, the warnings, and the
/// rest, each once and in order; without a finding the report says so.
pub proof fn law_findings_are_told(on: bool, findings: Seq<FindingV>)
    ensures
        findings.len() == 0 ==> findings_text(on, findings) == "\n## Findings\n"@
            + "\n_(no findings)_\n"@,
        findings.len() > 0 ==> exists|errors: Seq<char>, warnings: Seq<char>, rest: Seq<char>|
            #![trigger is_group(on, findings, Severity::Error, "error"@, errors), is_group(on, findings, Severity::Warn, "warn"@, warnings), is_group(on, findings, Severity::Info, "info"@, rest)]
            is_group(on, findings, Severity::Error, "error"@, errors) && is_group(
                on,
                findings,
                Severity::Warn,
                "warn"@,
                warnings,
            ) && is_group(on, findings, Severity::Info, "info"@, rest) && findings_text(
                on,
                findings,
            ) == "\n## Findings\n"@ + (errors + warnings + rest),
{
    lemma_group_text(on, findings, Severity::Error);
    lemma_group_text(on, findings, Severity::Warn);
    lemma_group_text(on, findings, Severity::Info);
}

// ---------------------------------------------------------------------------
// Reports
// ---------------------------------------------------------------------------

/// An audit is reported by its findings on the selected dashboards, under the head
/// of a report; else the dashboards are reported, as modelled with the facts of the
/// sidecar.
pub proof fn law_modes_choose_the_report(
    sidecar: InstanceSidecar,
    dirs: Seq<Seq<char>>,
    dashboards: Seq<ArtifactV>,
    scope: Seq<char>,
    inventory_total: usize,
    on_disk_total: usize,
    opts: ReportOptionsV,
)
    ensures
        ({
            let text = built_text(
                sidecar,
                dirs,
                dashboards,
                scope,
                inventory_total,
                on_disk_total,
                opts,
            );
            let m = assembled(facts_of(sidecar), dashboards, scope, inventory_total, on_disk_total);
            let findings = findings_text(
                opts.redact,
                audit_of(ds_list(sidecar.datasources@), paired(dirs, dashboards)),
            );
            &&& opts.mode != Mode::Audit ==> text == report_text(m, opts)
            &&& opts.mode == Mode::Audit ==> ends_with(text, findings)
            &&& opts.mode == Mode::Audit ==> begins_with(report_text(m, opts), text.take(text.len()
                - findings.len()))
        }),
{
    let text = built_text(sidecar, dirs, dashboards, scope, inventory_total, on_disk_total, opts);
    let m = assembled(facts_of(sidecar), dashboards, scope, inventory_total, on_disk_total);
    if opts.mode == Mode::Audit {
        let head = header_text(m, opts);
        let findings = findings_text(
            opts.redact,
            audit_of(ds_list(sidecar.datasources@), paired(dirs, dashboards)),
        );
        lemma_parts(head, findings);
        lemma_head(m, opts);
    }
}

proof fn lemma_parts(a: Seq<char>, b: Seq<char>)
    ensures
        (a + b).take((a + b).len() - b.len()) == a,
        ends_with(a + b, b),
{
    assert((a + b).take((a + b).len() - b.len()) =~= a);
    assert((a + b).skip((a + b).len() - b.len()) =~= b);
}

proof fn lemma_head(m: crate::grafana::model::RenderV, opts: ReportOptionsV)
    ensures
        begins_with(report_text(m, opts), header_text(m, opts)),
{
    crate::grafana::render_laws::lemma_begins(
        header_text(m, opts),
        crate::grafana::render::overview_text(m),
        crate::grafana::render::structure_text(m),
        crate::grafana::render::pages_text(m, opts),
    );
}

/// The facts of a report are those of its sidecar.
pub proof fn law_facts_are_those_of_the_sidecar(s: InstanceSidecar)
    ensures
        facts_of(s).host == s.host@,
        facts_of(s).generated == s.fetched_at@,
        facts_of(s).search == s.search@,
        facts_of(s).datasources == s.datasources@,
        facts_of(s).instance == s.instance@,
        facts_of(s).folders == s.folders@,
{
}

/// A dashboard is audited under the file of its directory, each under its own.
pub proof fn law_dashboards_are_paired(
    dirs: Seq<Seq<char>>,
    artifacts: Seq<ArtifactV>,
    i: int,
)
    requires
        0 <= i < artifacts.len(),
    ensures
        paired(dirs, artifacts).len() == artifacts.len(),
        paired(dirs, artifacts)[i].artifact == artifacts[i],
        i < dirs.len() ==> paired(dirs, artifacts)[i].path == joined(dirs[i], "artifact.json"@),
        i >= dirs.len() ==> paired(dirs, artifacts)[i].path == "artifact.json"@,
{
}

/// The summary of a report says how many dashboards it shows, and how.
pub proof fn law_summaries_say_what_was_rendered(n: nat, opts: ReportOptionsV)
    ensures
        summary_text(n, opts) == "rendered "@ + decimal(n) + " dashboard(s) to "@ + "REPORT.md"@
            + " (mode "@ + (match opts.mode {
            Mode::Overview => "Overview"@,
            Mode::Full => "Full"@,
            Mode::Audit => "Audit"@,
        }) + ", data "@ + (if opts.data {
            "true"@
        } else {
            "false"@
        }) + ", redact "@ + (if opts.redact {
            "true"@
        } else {
            "false"@
        }) + ")"@,
{
}

// ---------------------------------------------------------------------------
// Options
// ---------------------------------------------------------------------------

/// Options are read one by one: the mode is full where it says so, data is shown
/// where it is asked for, the window is the last six hours unless another is
/// given, and secrets are hidden unless they are not to be.
pub proof fn law_options_are_read(opts: JsonV)
    ensures
        options_of(opts).mode == Mode::Full <==> text_member(Some(opts), "mode"@) == Some("full"@),
        options_of(opts).mode == Mode::Full || options_of(opts).mode == Mode::Overview,
        options_of(opts).data <==> bool_member(Some(opts), "data"@) == Some(true),
        options_of(opts).redact <==> bool_member(Some(opts), "redact"@) != Some(false),
        text_member(Some(opts), "window"@) is Some ==> options_of(opts).window == text_member(
            Some(opts),
            "window"@,
        )->0,
        text_member(Some(opts), "window"@) is None ==> options_of(opts).window == "now-6h"@,
{
}

/// A mode is read by its name.
pub proof fn law_modes_are_read(s: Seq<char>)
    ensures
        mode_of(s) == Mode::Full <==> s == "full"@,
        mode_of(s) == Mode::Overview <==> s != "full"@,
{
}

/// The scope and the totals are those given, with a default where none is.
pub proof fn law_scopes_are_read(opts: JsonV, key: Seq<char>, default: usize)
    ensures
        scope_text(opts) == (match text_member(Some(opts), "scope"@) {
            Some(s) => s,
            None => "(scope unknown)"@,
        }),
        match member(Some(opts), key) {
            Some(JsonV::Int(n)) => 0 <= n <= u32::MAX ==> count_member(opts, key, default) == n,
            _ => count_member(opts, key, default) == default,
        },
{
}

// ---------------------------------------------------------------------------
// What the audit looks at
// ---------------------------------------------------------------------------

/// A reference to a datasource is one to a variable, to a configured datasource by
/// its name, or to none that is configured.
pub proof fn law_references_are_resolved(
    reference: Option<JsonV>,
    ds: Seq<DsEntryV>,
    name: Seq<char>,
)
    ensures
        names_variable(reference) ==> ds_ref_of(reference, ds) is Variable,
        !names_variable(reference) && means_named(reference, ds, name) ==> ds_ref_of(reference, ds)
            == DsRefV::Known(name),
        !names_variable(reference) && means_none(reference, ds) ==> ds_ref_of(reference, ds)
            == DsRefV::Dead(called(reference)),
{
    lemma_reference(reference, ds);
}

/// The errors of a response are those of its results, one after the other; a
/// result has at most one.
pub proof fn law_errors_are_found_result_by_result(
    p: JsonV,
    q: JsonV,
    both: JsonV,
    cause: Seq<char>,
)
    ensures
        results_in(Some(both)) == results_in(Some(p)) + results_in(Some(q)) ==> errors_of(both)
            == errors_of(p) + errors_of(q),
        results_in(Some(p)).len() == 0 ==> errors_of(p).len() == 0,
        results_in(Some(p)).len() == 1 ==> {
            let r = results_in(Some(p))[0];
            &&& fails_with(r.1, cause) ==> errors_of(p) == seq![(r.0, cause)]
            &&& !fails(r.1) ==> errors_of(p).len() == 0
        },
{
    let f = |m: (Seq<char>, JsonV)| error_in(m);
    let a = results_in(Some(p));
    let b = results_in(Some(q));
    law_collected_of_parts(a, b, (Seq::<char>::empty(), p), f);
    if a.len() == 1 {
        assert(a =~= seq![a[0]]);
        law_collected_of_parts(a, b, a[0], f);
    }
}

/// A frame has as many rows as its longest column has cells.
pub open spec fn has_rows(frame: JsonV, n: nat) -> bool {
    &&& forall|c: int|
        0 <= c < columns_in(frame).len() ==> items_of_json(
            Some(#[trigger] columns_in(frame)[c]),
        ).len() <= n
    &&& n > 0 ==> exists|c: int|
        0 <= c < columns_in(frame).len() && items_of_json(
            Some(#[trigger] columns_in(frame)[c]),
        ).len() == n
}

proof fn lemma_frame_rows(frame: JsonV, n: nat)
    requires
        has_rows(frame, n),
    ensures
        frame_rows(frame) == n,
{
    let columns = columns_in(frame);
    lemma_longest(columns);
    if n > 0 {
        let c = choose|c: int|
            0 <= c < columns.len() && items_of_json(Some(#[trigger] columns[c])).len() == n;
        assert(columns[c] is Array);
    }
}

/// A response has as many rows as its frames have in all: none is counted where
/// there is no frame, two responses count as both, and a frame counts its rows.
pub proof fn law_rows_are_counted(p: JsonV, q: JsonV, both: JsonV, n: nat)
    ensures
        results_in(Some(p)).len() == 0 ==> row_count_of(p) is None,
        results_in(Some(both)) == results_in(Some(p)) + results_in(Some(q)) ==> row_count_of(both)
            == (match (row_count_of(p), row_count_of(q)) {
            (None, x) => x,
            (x, None) => x,
            (Some(x), Some(y)) => Some(x + y),
        }),
        results_in(Some(p)).len() == 1 && frames_in(results_in(Some(p))[0].1).len() == 0
            ==> row_count_of(p) is None,
        results_in(Some(p)).len() == 1 && frames_in(results_in(Some(p))[0].1).len() == 1
            && has_rows(frames_in(results_in(Some(p))[0].1)[0], n) ==> row_count_of(p) == Some(n),
{
    let f = |m: (Seq<char>, JsonV)| items_of_json(member(Some(m.1), "frames"@));
    let a = results_in(Some(p));
    let b = results_in(Some(q));
    law_flattened_of_parts(a, b, (Seq::<char>::empty(), p), f);
    lemma_total(frames_of(p), frames_of(q));
    if a.len() == 1 {
        assert(a =~= seq![a[0]]);
        law_flattened_of_parts(a, b, a[0], f);
        let frames = frames_in(a[0].1);
        assert(frames_of(p) == frames);
        if frames.len() == 1 && has_rows(frames[0], n) {
            lemma_frame_rows(frames[0], n);
            reveal_with_fuel(total_rows, 2);
        }
    }
}

proof fn lemma_total(a: Seq<JsonV>, b: Seq<JsonV>)
    ensures
        total_rows(a + b) == total_rows(a) + total_rows(b),
    decreases b.len(),
{
    if b.len() == 0 {
        assert(a + b =~= a);
    } else {
        assert((a + b).drop_last() =~= a + b.drop_last());
        lemma_total(a, b.drop_last());
    }
}

/// The rows of the frames of one result add up.
pub proof fn law_rows_of_frames_add_up(p: JsonV, q: JsonV, both: JsonV)
    requires
        results_in(Some(p)).len() == 1,
        results_in(Some(q)).len() == 1,
        results_in(Some(both)).len() == 1,
        frames_in(results_in(Some(both))[0].1) == frames_in(results_in(Some(p))[0].1) + frames_in(
            results_in(Some(q))[0].1,
        ),
    ensures
        row_count_of(both) == (match (row_count_of(p), row_count_of(q)) {
            (None, x) => x,
            (x, None) => x,
            (Some(x), Some(y)) => Some(x + y),
        }),
{
    let f = |m: (Seq<char>, JsonV)| items_of_json(member(Some(m.1), "frames"@));
    let a = results_in(Some(p));
    let b = results_in(Some(q));
    let c = results_in(Some(both));
    assert(a =~= seq![a[0]]);
    assert(b =~= seq![b[0]]);
    assert(c =~= seq![c[0]]);
    law_flattened_of_parts(a, a, a[0], f);
    law_flattened_of_parts(b, b, b[0], f);
    law_flattened_of_parts(c, c, c[0], f);
    lemma_total(frames_of(p), frames_of(q));
}

} // verus!
