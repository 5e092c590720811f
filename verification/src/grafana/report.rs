//! From the sidecar and the selected dashboards to `REPORT.md`.

use crate::artifact::{Artifact, ArtifactV, BuildCtx, BuildOutput};
use crate::collect::{collected, lemma_collected_step};
use crate::error::{store_error_text, BuildError, StoreError};
use crate::grafana::audit::{
    audit_of, pair_sources, paired, run_audit, severity_label, Finding, FindingV, Severity,
};
use crate::grafana::model::{assembled, Facts, FactsV, RenderModel};
use crate::grafana::options::{
    count_member, mode_identifier, options_of, scope_text, Mode, ReportOptions, ReportOptionsV,
    ReportScope, REPORT_FILENAME,
};
use crate::grafana::render::{
    cell, escape_cell, header, header_text, render, report_text, shown, Red,
};
use crate::grafana::sql::{ds_list, DsEntry};
use crate::sidecar::InstanceSidecar;
use crate::text::{concat, decimal, decimal_usize, integer, integer_i64};
use vstd::prelude::*;

verus! {

// ---------------------------------------------------------------------------
// The audit report
// ---------------------------------------------------------------------------

/// The dashboard of a finding; a dash for findings on the instance.
pub open spec fn finding_dashboard(f: FindingV) -> Seq<char> {
    if f.dashboard_uid.len() == 0 {
        "—"@
    } else {
        f.dashboard_title + " ("@ + f.dashboard_uid + ")"@
    }
}

/// The panel of a finding; a dash where it has none.
pub open spec fn finding_panel(f: FindingV) -> Seq<char> {
    match (f.panel_id, f.panel_title) {
        (Some(id), Some(title)) => title + " ("@ + integer(id as int) + ")"@,
        (Some(id), None) => integer(id as int),
        (None, Some(title)) => title,
        (None, None) => "—"@,
    }
}

/// The source of a finding; a dash for findings on the instance.
pub open spec fn finding_source(f: FindingV) -> Seq<char> {
    if f.source_artifact.len() == 0 {
        "—"@
    } else {
        f.source_artifact
    }
}

/// A row of the findings table.
pub open spec fn finding_row(on: bool, f: FindingV) -> Seq<char> {
    "| "@ + f.class + " | "@ + cell(finding_dashboard(f)) + " | "@ + cell(finding_panel(f))
        + " | "@ + cell(shown(on, f.message)) + " | "@ + cell(finding_source(f)) + " |\n"@
}

/// The row of a finding, if it has the severity asked for.
pub open spec fn row_if(on: bool, f: FindingV, severity: Severity) -> Option<Seq<char>> {
    if f.severity == severity {
        Some(finding_row(on, f))
    } else {
        None
    }
}

/// The findings of one severity, as a table; nothing where there are none.
pub open spec fn group_text(on: bool, findings: Seq<FindingV>, severity: Severity) -> Seq<char> {
    let rows = collected(findings, |f: FindingV| row_if(on, f, severity));
    if rows.len() == 0 {
        ""@
    } else {
        "\n### "@ + severity_label(severity)
            + "\n\n| class | dashboard | panel | message | source |\n|-------|-----------|-------|---------|--------|\n"@
            + concat(rows)
    }
}

/// The findings, grouped by severity.
pub open spec fn findings_text(on: bool, findings: Seq<FindingV>) -> Seq<char> {
    "\n## Findings\n"@ + (if findings.len() == 0 {
        "\n_(no findings)_\n"@
    } else {
        group_text(on, findings, Severity::Error) + group_text(on, findings, Severity::Warn)
            + group_text(on, findings, Severity::Info)
    })
}

fn dashboard_cell(f: &Finding) -> (r: String)
    ensures
        r@ == finding_dashboard(f.deep_view()),
{
    if crate::text::chars_of(f.dashboard_uid.as_str()).len() == 0 {
        "—".to_owned()
    } else {
        let mut s = f.dashboard_title.clone();
        s.append(" (");
        s.append(f.dashboard_uid.as_str());
        s.append(")");
        s
    }
}

fn panel_cell(f: &Finding) -> (r: String)
    ensures
        r@ == finding_panel(f.deep_view()),
{
    match (f.panel_id, &f.panel_title) {
        (Some(id), Some(title)) => {
            let mut s = title.clone();
            s.append(" (");
            s.append(integer_i64(id).as_str());
            s.append(")");
            s
        },
        (Some(id), None) => integer_i64(id),
        (None, Some(title)) => title.clone(),
        (None, None) => "—".to_owned(),
    }
}

fn source_cell(f: &Finding) -> (r: String)
    ensures
        r@ == finding_source(f.deep_view()),
{
    if crate::text::chars_of(f.source_artifact.as_str()).len() == 0 {
        "—".to_owned()
    } else {
        f.source_artifact.clone()
    }
}

fn render_row(red: &Red, f: &Finding) -> (r: String)
    ensures
        r@ == finding_row(red.on, f.deep_view()),
{
    let mut row = "| ".to_owned();
    row.append(f.class);
    row.append(" | ");
    row.append(escape_cell(dashboard_cell(f).as_str()).as_str());
    row.append(" | ");
    row.append(escape_cell(panel_cell(f).as_str()).as_str());
    row.append(" | ");
    row.append(escape_cell(red.text(f.message.as_str()).as_str()).as_str());
    row.append(" | ");
    row.append(escape_cell(source_cell(f).as_str()).as_str());
    row.append(" |\n");
    row
}

fn render_group(red: &Red, findings: &Vec<Finding>, severity: Severity) -> (r: String)
    ensures
        r@ == group_text(red.on, findings.deep_view(), severity),
{
    let ghost on = red.on;
    let ghost all = findings.deep_view();
    let ghost f = |f: FindingV| row_if(on, f, severity);
    let mut rows = String::new();
    let mut any = false;
    for i in 0..findings.len()
        invariant
            on == red.on,
            all == findings.deep_view(),
            f == (|f: FindingV| row_if(on, f, severity)),
            any == (collected(all.take(i as int), f).len() > 0),
            rows@ == concat(collected(all.take(i as int), f)),
    {
        proof {
            lemma_collected_step(all, f, i as int);
        }
        assert(all[i as int] == findings@[i as int].deep_view());
        if findings[i].severity == severity {
            let row = render_row(red, &findings[i]);
            proof {
                crate::text::lemma_concat_push(collected(all.take(i as int), f), row@);
            }
            rows.append(row.as_str());
            any = true;
        }
    }
    assert(all.take(all.len() as int) =~= all);
    if !any {
        return "".to_owned();
    }
    let mut out = "\n### ".to_owned();
    out.append(severity.label());
    out.append(
        "\n\n| class | dashboard | panel | message | source |\n|-------|-----------|-------|---------|--------|\n",
    );
    out.append(rows.as_str());
    out
}

/// Render the findings of an audit, grouped by severity.
pub fn render_findings(findings: &Vec<Finding>, redact: bool) -> (r: String)
    ensures
        r@ == findings_text(redact, findings.deep_view()),
{
    let red = Red::new(redact);
    let mut out = "\n## Findings\n".to_owned();
    assert(findings.deep_view().len() == findings@.len());
    if findings.len() == 0 {
        out.append("\n_(no findings)_\n");
        return out;
    }
    let mut body = render_group(&red, findings, Severity::Error);
    body.append(render_group(&red, findings, Severity::Warn).as_str());
    body.append(render_group(&red, findings, Severity::Info).as_str());
    out.append(body.as_str());
    out
}

// ---------------------------------------------------------------------------
// The build
// ---------------------------------------------------------------------------

/// The facts that a sidecar holds.
pub open spec fn facts_of(s: InstanceSidecar) -> FactsV {
    FactsV {
        host: s.host@,
        generated: s.fetched_at@,
        search: s.search@,
        datasources: s.datasources@,
        instance: s.instance@,
        folders: s.folders@,
    }
}

/// The text of the report: the findings in audit mode, else the pages.
pub open spec fn built_text(
    sidecar: InstanceSidecar,
    dirs: Seq<Seq<char>>,
    dashboards: Seq<ArtifactV>,
    scope: Seq<char>,
    inventory_total: usize,
    on_disk_total: usize,
    opts: ReportOptionsV,
) -> Seq<char> {
    let m = assembled(facts_of(sidecar), dashboards, scope, inventory_total, on_disk_total);
    if opts.mode == Mode::Audit {
        header_text(m, opts) + findings_text(
            opts.redact,
            audit_of(ds_list(sidecar.datasources@), paired(dirs, dashboards)),
        )
    } else {
        report_text(m, opts)
    }
}

pub open spec fn bool_text(b: bool) -> Seq<char> {
    if b {
        "true"@
    } else {
        "false"@
    }
}

/// The summary of a build over `n` dashboards.
pub open spec fn summary_text(n: nat, opts: ReportOptionsV) -> Seq<char> {
    "rendered "@ + decimal(n) + " dashboard(s) to "@ + REPORT_FILENAME@ + " (mode "@
        + mode_identifier(opts.mode) + ", data "@ + bool_text(opts.data) + ", redact "@
        + bool_text(opts.redact) + ")"@
}

fn truth(b: bool) -> (r: &'static str)
    ensures
        r@ == bool_text(b),
{
    if b {
        "true"
    } else {
        "false"
    }
}

/// A rendered report: what goes into the file, and what the build reports.
pub struct Report {
    pub markdown: String,
    pub output: BuildOutput,
}

/// Render a report from a sidecar and the selected dashboard artifacts, each
/// read from the directory of the same number. `scope` describes the selection;
/// the two counts fill the header line.
pub fn build_report(
    sidecar: &InstanceSidecar,
    dashboard_dirs: &Vec<String>,
    dashboards: &Vec<Artifact>,
    scope: &str,
    inventory_total: usize,
    on_disk_total: usize,
    opts: &ReportOptions,
) -> (r: Report)
    ensures
        r.markdown@ == built_text(
            *sidecar,
            dashboard_dirs.deep_view(),
            dashboards.deep_view(),
            scope@,
            inventory_total,
            on_disk_total,
            opts.deep_view(),
        ),
        r.output.files.deep_view() == seq![REPORT_FILENAME@],
        r.output.summary@ == summary_text(dashboards@.len(), opts.deep_view()),
{
    let facts = Facts {
        host: sidecar.host.as_str(),
        generated: sidecar.fetched_at,
        search: &sidecar.search,
        datasources: &sidecar.datasources,
        instance: &sidecar.instance,
        folders: &sidecar.folders,
    };
    assert(facts.deep_view() == facts_of(*sidecar));
    let model = RenderModel::assemble(
        &facts,
        dashboards,
        scope.to_owned(),
        inventory_total,
        on_disk_total,
    );
    let markdown = if opts.mode == Mode::Audit {
        let ds = DsEntry::parse_list(&sidecar.datasources);
        let sources = pair_sources(dashboard_dirs, dashboards);
        let findings = run_audit(&ds, &sources);
        let mut out = header(&model, opts);
        out.append(render_findings(&findings, opts.redact).as_str());
        out
    } else {
        render(&model, opts)
    };
    let mut summary = "rendered ".to_owned();
    summary.append(decimal_usize(dashboards.len()).as_str());
    summary.append(" dashboard(s) to ");
    summary.append(REPORT_FILENAME);
    summary.append(" (mode ");
    summary.append(opts.mode.identifier());
    summary.append(", data ");
    summary.append(truth(opts.data));
    summary.append(", redact ");
    summary.append(truth(opts.redact));
    summary.append(")");
    let mut files: Vec<String> = Vec::new();
    files.push(REPORT_FILENAME.to_owned());
    assert(files.deep_view() =~= seq![REPORT_FILENAME@]);
    Report { markdown, output: BuildOutput { files, summary } }
}

/// The deterministic Grafana report builder.
#[derive(Default)]
pub struct GrafanaReportBuilder;

impl GrafanaReportBuilder {
    pub fn new() -> (r: GrafanaReportBuilder)
        ensures
            r == GrafanaReportBuilder,
    {
        GrafanaReportBuilder
    }

    pub fn name(&self) -> (r: &'static str)
        ensures
            r@ == "report-grafana"@,
    {
        "report-grafana"
    }

    /// Render a report as the options of `ctx` say, from the sidecar and the
    /// dashboards that `ctx` names.
    pub fn build(
        &self,
        ctx: &BuildCtx,
        sidecar: &InstanceSidecar,
        dashboards: &Vec<Artifact>,
    ) -> (r: Report)
        ensures
            r.markdown@ == built_text(
                *sidecar,
                ctx.dashboard_dirs.deep_view(),
                dashboards.deep_view(),
                scope_text(ctx.options@),
                count_member(ctx.options@, "inventory_total"@, 0),
                count_member(ctx.options@, "on_disk_total"@, ctx.dashboard_dirs.len()),
                options_of(ctx.options@),
            ),
            r.output.files.deep_view() == seq![REPORT_FILENAME@],
            r.output.summary@ == summary_text(dashboards@.len(), options_of(ctx.options@)),
    {
        let opts = ReportOptions::from_options(&ctx.options);
        let scope = ReportScope::from_options(&ctx.options, ctx.dashboard_dirs.len());
        build_report(
            sidecar,
            &ctx.dashboard_dirs,
            dashboards,
            scope.scope.as_str(),
            scope.inventory_total,
            scope.on_disk_total,
            &opts,
        )
    }
}

/// Whether a build goes on: not once it was cancelled.
pub fn proceed(cancelled: bool) -> (r: Result<(), BuildError>)
    ensures
        r == (if cancelled {
            Err::<(), BuildError>(BuildError::Cancelled)
        } else {
            Ok::<(), BuildError>(())
        }),
{
    if cancelled {
        Err(BuildError::Cancelled)
    } else {
        Ok(())
    }
}

/// A dashboard artifact as it was read; a failure fails the build.
pub fn selected_dashboard(read: Result<Artifact, StoreError>) -> (r: Result<Artifact, BuildError>)
    ensures
        match read {
            Ok(a) => r == Ok::<Artifact, BuildError>(a),
            Err(e) => r matches Err(BuildError::Io(s)) && s@ == store_error_text(e),
        },
{
    match read {
        Ok(a) => Ok(a),
        Err(e) => Err(BuildError::Io(e.message())),
    }
}

/// The error of a sidecar that cannot be read.
pub fn sidecar_unreadable(path: &str, reason: &str) -> (r: BuildError)
    ensures
        r matches BuildError::Io(s) && s@ == "reading instance sidecar "@ + path@ + ": "@ + reason@,
{
    let mut s = "reading instance sidecar ".to_owned();
    s.append(path);
    s.append(": ");
    s.append(reason);
    BuildError::Io(s)
}

/// The error of a sidecar that does not hold the expected JSON.
pub fn sidecar_malformed(path: &str, reason: &str) -> (r: BuildError)
    ensures
        r matches BuildError::Io(s) && s@ == "parsing "@ + path@ + ": "@ + reason@,
{
    let mut s = "parsing ".to_owned();
    s.append(path);
    s.append(": ");
    s.append(reason);
    BuildError::Io(s)
}

} // verus!
