//! Offline audit.
//!
//! Reads the frozen dashboard artifacts and the sidecar's datasource list.
//! Seven check classes, each producing findings:
//!
//! 1. Dead datasource references: a panel points at a datasource that is not in
//!    the list and is no `$variable`.
//! 2. Broken queries: the stored response carries an error.
//! 3. Empty panels: a query ran but returned no rows.
//! 4. Duplicate dashboards: they share a content fingerprint, whatever their
//!    titles are.
//! 5. Orphans: dashboards in no folder and/or untagged.
//! 6. Unused datasources: configured but referenced by no panel.
//! 7. Blank or constant variables.
//!
//! Findings stand in a fixed order: severity, then class, dashboard, panel,
//! message.

use crate::artifact::{Artifact, ArtifactV};
use crate::collect::{collected, flattened, lemma_collected_step, lemma_flattened_step};
use crate::grafana::fingerprint::{fingerprint, fingerprint_of, solid_panels, solid_panels_in};
use crate::grafana::model::{
    dash_folder, dash_obj, dash_of, dash_tags, dash_title, dash_uid, folder_of, item_data,
    panel_data_of, tags_of, templating_list, title_of, uid_of,
};
use crate::grafana::sql::{
    cell_display, cell_text, columns_of, find_ds, found_ds, longest_column, DsBy, DsEntry, DsEntryV,
};
use crate::json::{
    get_i64, get_member, get_text, get_text_or, i64_of_json, items_of, items_of_json, json_text,
    member, members_of_json, opt_view, ref_views, text_member, text_member_or, Json, JsonV,
};
use crate::order::{distinct_texts, lemma_ordered_map, ordered, sort, sort_dedup};
use crate::path::{join_path, joined};
use crate::text::{
    chars_of, contains_text, copy_texts, decimal, decimal_usize, integer, integer_i64, le, same,
    slice_text, text_le,
};
use vstd::prelude::*;

verus! {

// ---------------------------------------------------------------------------
// Types
// ---------------------------------------------------------------------------

/// Finding severity, `Error` first.
#[derive(Debug, Clone, Copy, PartialEq, Eq, PartialOrd, Ord, Structural)]
pub enum Severity {
    Error,
    Warn,
    Info,
}

/// The name of a severity.
pub open spec fn severity_label(s: Severity) -> Seq<char> {
    match s {
        Severity::Error => "error"@,
        Severity::Warn => "warn"@,
        Severity::Info => "info"@,
    }
}

/// The place of a severity in the order of findings.
pub open spec fn severity_rank(s: Severity) -> int {
    match s {
        Severity::Error => 0,
        Severity::Warn => 1,
        Severity::Info => 2,
    }
}

impl Severity {
    pub fn label(self) -> (r: &'static str)
        ensures
            r@ == severity_label(self),
    {
        match self {
            Severity::Error => "error",
            Severity::Warn => "warn",
            Severity::Info => "info",
        }
    }

    fn rank(self) -> (r: u8)
        ensures
            r == severity_rank(self),
    {
        match self {
            Severity::Error => 0,
            Severity::Warn => 1,
            Severity::Info => 2,
        }
    }
}

/// One audit finding.
#[derive(Debug, Clone, PartialEq, Eq)]
pub struct Finding {
    pub severity: Severity,
    /// The check class.
    pub class: &'static str,
    /// Path of the source artifact; empty for instance-wide findings.
    pub source_artifact: String,
    pub dashboard_uid: String,
    pub dashboard_title: String,
    pub panel_id: Option<i64>,
    pub panel_title: Option<String>,
    pub message: String,
}

/// The model of a [`Finding`].
pub struct FindingV {
    pub severity: Severity,
    pub class: Seq<char>,
    pub source_artifact: Seq<char>,
    pub dashboard_uid: Seq<char>,
    pub dashboard_title: Seq<char>,
    pub panel_id: Option<i64>,
    pub panel_title: Option<Seq<char>>,
    pub message: Seq<char>,
}

impl DeepView for Finding {
    type V = FindingV;

    open spec fn deep_view(&self) -> FindingV {
        FindingV {
            severity: self.severity,
            class: self.class@,
            source_artifact: self.source_artifact@,
            dashboard_uid: self.dashboard_uid@,
            dashboard_title: self.dashboard_title@,
            panel_id: self.panel_id,
            panel_title: self.panel_title.deep_view(),
            message: self.message@,
        }
    }
}

/// A dashboard artifact with the path it was read from.
pub struct DashSource<'a> {
    pub path: String,
    pub artifact: &'a Artifact,
}

/// The model of a [`DashSource`].
pub struct DashSourceV {
    pub path: Seq<char>,
    pub artifact: ArtifactV,
}

impl<'a> DeepView for DashSource<'a> {
    type V = DashSourceV;

    open spec fn deep_view(&self) -> DashSourceV {
        DashSourceV { path: self.path@, artifact: self.artifact.deep_view() }
    }
}

// ---------------------------------------------------------------------------
// Dashboards with their identity
// ---------------------------------------------------------------------------

/// A finding on a dashboard.
pub open spec fn finding_on(
    d: DashSourceV,
    severity: Severity,
    class: Seq<char>,
    panel_id: Option<i64>,
    panel_title: Option<Seq<char>>,
    message: Seq<char>,
) -> FindingV {
    FindingV {
        severity,
        class,
        source_artifact: d.path,
        dashboard_uid: uid_of(d.artifact),
        dashboard_title: title_of(d.artifact),
        panel_id,
        panel_title,
        message,
    }
}

/// What the checks of one dashboard share.
struct DashCtx<'a> {
    path: String,
    uid: String,
    title: String,
    folder: Option<String>,
    tags: Vec<String>,
    dash: Option<&'a Json>,
    artifact: &'a Artifact,
}

impl<'a> DashCtx<'a> {
    /// The parts stand for the dashboard `d`.
    spec fn shows(&self, d: DashSourceV) -> bool {
        &&& self.path@ == d.path
        &&& self.uid@ == uid_of(d.artifact)
        &&& self.title@ == title_of(d.artifact)
        &&& self.folder.deep_view() == folder_of(d.artifact)
        &&& self.tags.deep_view() == tags_of(d.artifact)
        &&& opt_view(self.dash) == dash_of(d.artifact)
        &&& self.artifact.deep_view() == d.artifact
    }

    fn new(d: &DashSource<'a>) -> (r: DashCtx<'a>)
        ensures
            r.shows(d.deep_view()),
    {
        DashCtx {
            path: d.path.clone(),
            uid: dash_uid(d.artifact),
            title: dash_title(d.artifact),
            folder: dash_folder(d.artifact),
            tags: dash_tags(d.artifact),
            dash: dash_obj(d.artifact),
            artifact: d.artifact,
        }
    }

    fn finding(
        &self,
        Ghost(d): Ghost<DashSourceV>,
        severity: Severity,
        class: &'static str,
        panel_id: Option<i64>,
        panel_title: Option<String>,
        message: String,
    ) -> (r: Finding)
        requires
            self.shows(d),
        ensures
            r.deep_view() == finding_on(
                d,
                severity,
                class@,
                panel_id,
                panel_title.deep_view(),
                message@,
            ),
    {
        Finding {
            severity,
            class,
            source_artifact: self.path.clone(),
            dashboard_uid: self.uid.clone(),
            dashboard_title: self.title.clone(),
            panel_id,
            panel_title,
            message,
        }
    }
}

/// The integer id of a panel.
pub open spec fn id_of(panel: JsonV) -> Option<i64> {
    i64_of_json(member(Some(panel), "id"@))
}

/// The title of a panel.
pub open spec fn panel_title_of(panel: JsonV) -> Option<Seq<char>> {
    text_member(Some(panel), "title"@)
}

// ---------------------------------------------------------------------------
// Dead datasources
// ---------------------------------------------------------------------------

/// How a panel's datasource reference resolves.
pub enum DsRef {
    /// To a configured datasource.
    Known(String),
    /// A `$variable`: neither dead nor a concrete datasource.
    Variable,
    /// Referenced but not configured.
    Dead(String),
}

/// The model of a [`DsRef`].
pub enum DsRefV {
    Known(Seq<char>),
    Variable,
    Dead(Seq<char>),
}

impl DeepView for DsRef {
    type V = DsRefV;

    open spec fn deep_view(&self) -> DsRefV {
        match self {
            DsRef::Known(s) => DsRefV::Known(s@),
            DsRef::Variable => DsRefV::Variable,
            DsRef::Dead(s) => DsRefV::Dead(s@),
        }
    }
}

/// A datasource that was found, else a dead reference.
pub open spec fn known_or_dead(found: Option<Seq<char>>, reference: Seq<char>) -> DsRefV {
    match found {
        Some(name) => DsRefV::Known(name),
        None => DsRefV::Dead(reference),
    }
}

/// The text starts like a template variable.
pub open spec fn is_variable(s: Seq<char>) -> bool {
    s.len() > 0 && s[0] == '$'
}

/// How a reference that is an object resolves. A concrete uid that matches
/// nothing is dead, even if a type is also there.
pub open spec fn ds_object_ref(obj: JsonV, ds: Seq<DsEntryV>) -> DsRefV {
    match text_member(Some(obj), "uid"@) {
        Some(uid) => if is_variable(uid) {
            DsRefV::Variable
        } else {
            known_or_dead(found_ds(ds, DsBy::Uid, uid), uid)
        },
        None => match text_member(Some(obj), "type"@) {
            Some(ty) => known_or_dead(found_ds(ds, DsBy::Type, ty), ty),
            None => DsRefV::Dead("(unspecified)"@),
        },
    }
}

/// How a datasource reference resolves. Never invents a match.
pub open spec fn ds_ref_of(ds_ref: Option<JsonV>, ds: Seq<DsEntryV>) -> DsRefV {
    let default = found_ds(ds, DsBy::Default, ""@);
    match ds_ref {
        None => known_or_dead(default, "(default, none configured)"@),
        Some(JsonV::Null) => known_or_dead(default, "(default, none configured)"@),
        Some(JsonV::Text(s)) => if s == "default"@ || s == "-- Grafana --"@ {
            known_or_dead(default, s)
        } else if is_variable(s) {
            DsRefV::Variable
        } else {
            known_or_dead(found_ds(ds, DsBy::NameOrUid, s), s)
        },
        Some(JsonV::Object(_)) => ds_object_ref(ds_ref->0, ds),
        Some(other) => DsRefV::Dead(json_text(other)),
    }
}

fn known_or(found: Option<String>, reference: &str) -> (r: DsRef)
    ensures
        r.deep_view() == known_or_dead(found.deep_view(), reference@),
{
    match found {
        Some(name) => DsRef::Known(name),
        None => DsRef::Dead(reference.to_owned()),
    }
}

fn starts_with_dollar(s: &str) -> (r: bool)
    ensures
        r == is_variable(s@),
{
    let v = chars_of(s);
    v.len() > 0 && v[0] == '$'
}

fn resolve_ds_object(obj: &Json, ds: &Vec<DsEntry>) -> (r: DsRef)
    ensures
        r.deep_view() == ds_object_ref(obj@, ds.deep_view()),
{
    if let Some(uid) = get_text(Some(obj), "uid") {
        if starts_with_dollar(uid.as_str()) {
            return DsRef::Variable;
        }
        return known_or(find_ds(ds, DsBy::Uid, uid.as_str()), uid.as_str());
    }
    match get_text(Some(obj), "type") {
        Some(ty) => known_or(find_ds(ds, DsBy::Type, ty.as_str()), ty.as_str()),
        None => DsRef::Dead("(unspecified)".to_owned()),
    }
}

/// Resolve a panel's datasource reference. Never invents a match: an unknown
/// uid, name or type is dead.
pub fn resolve_ds_ref(ds_ref: Option<&Json>, ds: &Vec<DsEntry>) -> (r: DsRef)
    ensures
        r.deep_view() == ds_ref_of(opt_view(ds_ref), ds.deep_view()),
{
    match ds_ref {
        None => known_or(find_ds(ds, DsBy::Default, ""), "(default, none configured)"),
        Some(v) => match v {
            Json::Null => known_or(find_ds(ds, DsBy::Default, ""), "(default, none configured)"),
            Json::Text(s) => if same(s.as_str(), "default") || same(s.as_str(), "-- Grafana --") {
                known_or(find_ds(ds, DsBy::Default, ""), s.as_str())
            } else if starts_with_dollar(s.as_str()) {
                DsRef::Variable
            } else {
                known_or(find_ds(ds, DsBy::NameOrUid, s.as_str()), s.as_str())
            },
            Json::Object(_) => resolve_ds_object(v, ds),
            _ => DsRef::Dead(v.to_text()),
        },
    }
}

/// The finding on a panel whose datasource reference is dead.
pub open spec fn dead_on(d: DashSourceV, panel: JsonV, ds: Seq<DsEntryV>) -> Option<FindingV> {
    match ds_ref_of(member(Some(panel), "datasource"@), ds) {
        DsRefV::Dead(reference) => Some(
            finding_on(
                d,
                Severity::Error,
                "dead-datasource"@,
                id_of(panel),
                panel_title_of(panel),
                "panel references datasource `"@ + reference + "` not present in the instance"@,
            ),
        ),
        _ => None,
    }
}

/// The findings on dead datasource references of a dashboard.
pub open spec fn dead_findings(d: DashSourceV, ds: Seq<DsEntryV>) -> Seq<FindingV> {
    collected(solid_panels(dash_of(d.artifact)), |p: JsonV| dead_on(d, p, ds))
}

/// The configured datasource that a panel references.
pub open spec fn referenced_by(panel: JsonV, ds: Seq<DsEntryV>) -> Option<Seq<char>> {
    match ds_ref_of(member(Some(panel), "datasource"@), ds) {
        DsRefV::Known(name) => Some(name),
        _ => None,
    }
}

/// The configured datasources that the panels of a dashboard reference.
pub open spec fn referenced_in(d: DashSourceV, ds: Seq<DsEntryV>) -> Seq<Seq<char>> {
    collected(solid_panels(dash_of(d.artifact)), |p: JsonV| referenced_by(p, ds))
}

fn dead_datasources(
    ctx: &DashCtx,
    Ghost(d): Ghost<DashSourceV>,
    ds: &Vec<DsEntry>,
    referenced: &mut Vec<String>,
    out: &mut Vec<Finding>,
)
    requires
        ctx.shows(d),
    ensures
        final(out).deep_view() == old(out).deep_view() + dead_findings(d, ds.deep_view()),
        final(referenced).deep_view() == old(referenced).deep_view() + referenced_in(
            d,
            ds.deep_view(),
        ),
{
    let panels = solid_panels_in(ctx.dash);
    let ghost all = ref_views(panels@);
    let ghost entries = ds.deep_view();
    let ghost f = |p: JsonV| dead_on(d, p, entries);
    let ghost g = |p: JsonV| referenced_by(p, entries);
    let ghost out0 = out.deep_view();
    let ghost ref0 = referenced.deep_view();
    assert(out0 + collected(all.take(0), f) =~= out0);
    assert(ref0 + collected(all.take(0), g) =~= ref0);
    for i in 0..panels.len()
        invariant
            ctx.shows(d),
            all == ref_views(panels@),
            entries == ds.deep_view(),
            f == (|p: JsonV| dead_on(d, p, entries)),
            g == (|p: JsonV| referenced_by(p, entries)),
            out.deep_view() == out0 + collected(all.take(i as int), f),
            referenced.deep_view() == ref0 + collected(all.take(i as int), g),
    {
        proof {
            lemma_collected_step(all, f, i as int);
            lemma_collected_step(all, g, i as int);
        }
        let panel = panels[i];
        let ghost out1 = out.deep_view();
        let ghost ref1 = referenced.deep_view();
        match resolve_ds_ref(get_member(Some(panel), "datasource"), ds) {
            DsRef::Known(name) => {
                referenced.push(name);
                assert(referenced.deep_view() =~= ref1.push(name@));
            },
            DsRef::Variable => {},
            DsRef::Dead(reference) => {
                let mut message = "panel references datasource `".to_owned();
                message.append(reference.as_str());
                message.append("` not present in the instance");
                let finding = ctx.finding(
                    Ghost(d),
                    Severity::Error,
                    "dead-datasource",
                    get_i64(Some(panel), "id"),
                    get_text(Some(panel), "title"),
                    message,
                );
                out.push(finding);
                assert(out.deep_view() =~= out1.push(finding.deep_view()));
            },
        }
        assert(out.deep_view() =~= out0 + collected(all.take(i + 1), f));
        assert(referenced.deep_view() =~= ref0 + collected(all.take(i + 1), g));
    }
    assert(all.take(all.len() as int) =~= all);
}


// ---------------------------------------------------------------------------
// Broken queries
// ---------------------------------------------------------------------------

/// The error that one result of a response carries: its message, else its
/// status if that is one of failure.
pub open spec fn error_in(m: (Seq<char>, JsonV)) -> Option<(Seq<char>, Seq<char>)> {
    let by_status = match i64_of_json(member(Some(m.1), "status"@)) {
        Some(status) => if status >= 400 {
            Some((m.0, "status "@ + integer(status as int)))
        } else {
            None
        },
        None => None,
    };
    match text_member(Some(m.1), "error"@) {
        Some(err) => if err.len() > 0 {
            Some((m.0, err))
        } else {
            by_status
        },
        None => by_status,
    }
}

/// The errors of a response, by query id.
pub open spec fn errors_of(data: JsonV) -> Seq<(Seq<char>, Seq<char>)> {
    collected(
        members_of_json(member(Some(data), "results"@)),
        |m: (Seq<char>, JsonV)| error_in(m),
    )
}

fn one_error(ref_id: &str, result: &Json) -> (r: Option<(String, String)>)
    ensures
        r.deep_view() == error_in((ref_id@, result@)),
{
    if let Some(err) = get_text(Some(result), "error") {
        if chars_of(err.as_str()).len() > 0 {
            return Some((ref_id.to_owned(), err));
        }
    }
    match get_i64(Some(result), "status") {
        Some(status) => if status >= 400 {
            let mut s = "status ".to_owned();
            s.append(integer_i64(status).as_str());
            Some((ref_id.to_owned(), s))
        } else {
            None
        },
        None => None,
    }
}

/// Errors per query id in a response, in the order of the ids.
pub fn result_errors(data: &Json) -> (r: Vec<(String, String)>)
    ensures
        r.deep_view() == errors_of(data@),
{
    let mut out: Vec<(String, String)> = Vec::new();
    let results = get_member(Some(data), "results");
    if let Some(r) = results {
        if let Some(m) = r.as_object() {
            let ghost f = |m: (Seq<char>, JsonV)| error_in(m);
            let n: usize = m.len();
            for i in 0..n
                invariant
                    n == m@.len(),
                    f == (|m: (Seq<char>, JsonV)| error_in(m)),
                    out.deep_view() == collected(m@.take(i as int), f),
            {
                proof {
                    lemma_collected_step(m@, f, i as int);
                }
                if let Some(e) = one_error(m.key(i).as_str(), m.value(i)) {
                    out.push(e);
                }
                assert(out.deep_view() =~= collected(m@.take(i + 1), f));
            }
            assert(m@.take(m@.len() as int) =~= m@);
        }
    }
    assert(results is None || !(results->0@ is Object) ==> out.deep_view() =~= errors_of(data@));
    out
}

/// The finding on a failed query of a panel.
pub open spec fn broken_query(
    d: DashSourceV,
    panel: JsonV,
    e: (Seq<char>, Seq<char>),
) -> FindingV {
    finding_on(
        d,
        Severity::Error,
        "broken-query"@,
        id_of(panel),
        panel_title_of(panel),
        "query "@ + e.0 + " failed: "@ + e.1,
    )
}

/// The response captured for a panel.
pub open spec fn data_for(d: DashSourceV, panel: JsonV) -> Option<JsonV> {
    match id_of(panel) {
        Some(id) => panel_data_of(d.artifact, id),
        None => None,
    }
}

/// The findings on the failed queries of a panel.
pub open spec fn broken_on(d: DashSourceV, panel: JsonV) -> Seq<FindingV> {
    match data_for(d, panel) {
        Some(data) => errors_of(data).map_values(
            |e: (Seq<char>, Seq<char>)| broken_query(d, panel, e),
        ),
        None => Seq::empty(),
    }
}

/// The findings on the failed queries of a dashboard.
pub open spec fn broken_findings(d: DashSourceV) -> Seq<FindingV> {
    flattened(solid_panels(dash_of(d.artifact)), |p: JsonV| broken_on(d, p))
}

fn panel_data<'a>(ctx: &DashCtx<'a>, Ghost(d): Ghost<DashSourceV>, panel: &Json) -> (r: Option<
    &'a Json,
>)
    requires
        ctx.shows(d),
    ensures
        opt_view(r) == data_for(d, panel@),
{
    match get_i64(Some(panel), "id") {
        Some(id) => item_data(ctx.artifact, id),
        None => None,
    }
}

fn broken_panel(
    ctx: &DashCtx,
    Ghost(d): Ghost<DashSourceV>,
    panel: &Json,
    out: &mut Vec<Finding>,
)
    requires
        ctx.shows(d),
    ensures
        final(out).deep_view() == old(out).deep_view() + broken_on(d, panel@),
{
    let ghost out0 = out.deep_view();
    let data = panel_data(ctx, Ghost(d), panel);
    if let Some(data) = data {
        let errors = result_errors(data);
        let ghost all = errors.deep_view();
        let ghost goal = broken_on(d, panel@);
        assert(out0 + goal.take(0) =~= out0);
        for i in 0..errors.len()
            invariant
                ctx.shows(d),
                all == errors.deep_view(),
                goal.len() == all.len(),
                forall|k: int|
                    0 <= k < all.len() ==> goal[k] == broken_query(d, panel@, #[trigger] all[k]),
                out.deep_view() == out0 + goal.take(i as int),
        {
            let ghost before = out.deep_view();
            let mut message = "query ".to_owned();
            message.append(errors[i].0.as_str());
            message.append(" failed: ");
            message.append(errors[i].1.as_str());
            assert(all[i as int] == errors@[i as int].deep_view());
            let finding = ctx.finding(
                Ghost(d),
                Severity::Error,
                "broken-query",
                get_i64(Some(panel), "id"),
                get_text(Some(panel), "title"),
                message,
            );
            out.push(finding);
            assert(out.deep_view() =~= before.push(finding.deep_view()));
            assert(goal.take(i + 1) =~= goal.take(i as int).push(goal[i as int]));
        }
        assert(goal.take(goal.len() as int) =~= goal);
    } else {
        assert(out.deep_view() =~= out0 + broken_on(d, panel@));
    }
}

fn broken_queries(ctx: &DashCtx, Ghost(d): Ghost<DashSourceV>, out: &mut Vec<Finding>)
    requires
        ctx.shows(d),
    ensures
        final(out).deep_view() == old(out).deep_view() + broken_findings(d),
{
    let panels = solid_panels_in(ctx.dash);
    let ghost all = ref_views(panels@);
    let ghost f = |p: JsonV| broken_on(d, p);
    let ghost out0 = out.deep_view();
    assert(out0 + flattened(all.take(0), f) =~= out0);
    for i in 0..panels.len()
        invariant
            ctx.shows(d),
            all == ref_views(panels@),
            f == (|p: JsonV| broken_on(d, p)),
            out.deep_view() == out0 + flattened(all.take(i as int), f),
    {
        proof {
            lemma_flattened_step(all, f, i as int);
        }
        broken_panel(ctx, Ghost(d), panels[i], out);
        assert(out.deep_view() =~= out0 + flattened(all.take(i + 1), f));
    }
    assert(all.take(all.len() as int) =~= all);
}

// ---------------------------------------------------------------------------
// Empty panels
// ---------------------------------------------------------------------------

/// The frames of a response.
pub open spec fn frames_of(data: JsonV) -> Seq<JsonV> {
    flattened(
        members_of_json(member(Some(data), "results"@)),
        |m: (Seq<char>, JsonV)| items_of_json(member(Some(m.1), "frames"@)),
    )
}

/// How many rows a frame has.
pub open spec fn frame_rows(frame: JsonV) -> nat {
    match columns_of(frame) {
        Some(columns) => match longest_column(columns) {
            Some(n) => n,
            None => 0,
        },
        None => 0,
    }
}

/// How many rows the frames have in all.
pub open spec fn total_rows(frames: Seq<JsonV>) -> nat
    decreases frames.len(),
{
    if frames.len() == 0 {
        0
    } else {
        total_rows(frames.drop_last()) + frame_rows(frames.last())
    }
}

/// How many rows a response has; nothing where no query ran.
pub open spec fn row_count_of(data: JsonV) -> Option<nat> {
    if frames_of(data).len() == 0 {
        None
    } else {
        Some(total_rows(frames_of(data)))
    }
}

proof fn lemma_total_rows_add(a: Seq<JsonV>, b: Seq<JsonV>)
    ensures
        total_rows(a + b) == total_rows(a) + total_rows(b),
    decreases b.len(),
{
    if b.len() == 0 {
        assert(a + b =~= a);
    } else {
        assert((a + b).drop_last() =~= a + b.drop_last());
        lemma_total_rows_add(a, b.drop_last());
    }
}

/// Adds up to the largest number there is.
spec fn capped(n: nat) -> nat {
    if n <= usize::MAX {
        n
    } else {
        usize::MAX as nat
    }
}

fn rows_of_result(result: &Json) -> (r: (bool, usize))
    ensures
        r.0 == (items_of_json(member(Some(result@), "frames"@)).len() > 0),
        r.1 == capped(total_rows(items_of_json(member(Some(result@), "frames"@)))),
{
    let frames = items_of(get_member(Some(result), "frames"));
    let ghost all = ref_views(frames@);
    let mut total: usize = 0;
    for i in 0..frames.len()
        invariant
            all == ref_views(frames@),
            total == capped(total_rows(all.take(i as int))),
    {
        assert(all.take(i + 1).drop_last() =~= all.take(i as int));
        let rows: usize = match get_member(get_member(Some(frames[i]), "data"), "values") {
            Some(v) => match v.as_array() {
                Some(columns) => match crate::grafana::sql::longest(columns) {
                    Some(n) => n,
                    None => 0,
                },
                None => 0,
            },
            None => 0,
        };
        total = total.saturating_add(rows);
    }
    assert(all.take(all.len() as int) =~= all);
    (frames.len() > 0, total)
}

/// Total row count over the frames of a response, up to the largest `usize`;
/// `None` when it has no frame at all, that is, when no query ran.
pub fn response_row_count(data: &Json) -> (r: Option<usize>)
    ensures
        match r {
            Some(n) => row_count_of(data@) matches Some(total) && n == (if total <= usize::MAX {
                total
            } else {
                usize::MAX as nat
            }),
            None => row_count_of(data@) is None,
        },
{
    let mut saw_frame = false;
    let mut total: usize = 0;
    let results = get_member(Some(data), "results");
    if let Some(r) = results {
        if let Some(m) = r.as_object() {
            let ghost f = |m: (Seq<char>, JsonV)| items_of_json(member(Some(m.1), "frames"@));
            let n: usize = m.len();
            for i in 0..n
                invariant
                    n == m@.len(),
                    f == (|m: (Seq<char>, JsonV)| items_of_json(member(Some(m.1), "frames"@))),
                    saw_frame == (flattened(m@.take(i as int), f).len() > 0),
                    total == capped(total_rows(flattened(m@.take(i as int), f))),
            {
                let (some, rows) = rows_of_result(m.value(i));
                proof {
                    lemma_flattened_step(m@, f, i as int);
                    lemma_total_rows_add(flattened(m@.take(i as int), f), f(m@[i as int]));
                    assert(f(m@[i as int]) == items_of_json(
                        member(Some(m@[i as int].1), "frames"@),
                    ));
                }
                saw_frame = saw_frame || some;
                total = total.saturating_add(rows);
            }
            assert(m@.take(m@.len() as int) =~= m@);
        }
    }
    assert(results is None || !(results->0@ is Object) ==> frames_of(data@).len() == 0);
    if saw_frame {
        Some(total)
    } else {
        None
    }
}

/// The finding on a panel whose query ran and returned nothing. One whose query
/// failed is broken, not empty.
pub open spec fn empty_on(d: DashSourceV, panel: JsonV) -> Option<FindingV> {
    match data_for(d, panel) {
        Some(data) => if errors_of(data).len() == 0 && row_count_of(data) == Some(0nat) {
            Some(
                finding_on(
                    d,
                    Severity::Warn,
                    "empty-panel"@,
                    id_of(panel),
                    panel_title_of(panel),
                    "query ran but returned 0 rows"@,
                ),
            )
        } else {
            None
        },
        None => None,
    }
}

/// The findings on the empty panels of a dashboard.
pub open spec fn empty_findings(d: DashSourceV) -> Seq<FindingV> {
    collected(solid_panels(dash_of(d.artifact)), |p: JsonV| empty_on(d, p))
}

fn is_empty_panel(ctx: &DashCtx, Ghost(d): Ghost<DashSourceV>, panel: &Json) -> (r: bool)
    requires
        ctx.shows(d),
    ensures
        r == (empty_on(d, panel@) is Some),
{
    match panel_data(ctx, Ghost(d), panel) {
        Some(data) => {
            let errors = result_errors(data);
            assert(errors.deep_view().len() == errors@.len());
            if errors.len() > 0 {
                false
            } else {
                match response_row_count(data) {
                    Some(rows) => rows == 0,
                    None => false,
                }
            }
        },
        None => false,
    }
}

fn empty_panels(ctx: &DashCtx, Ghost(d): Ghost<DashSourceV>, out: &mut Vec<Finding>)
    requires
        ctx.shows(d),
    ensures
        final(out).deep_view() == old(out).deep_view() + empty_findings(d),
{
    let panels = solid_panels_in(ctx.dash);
    let ghost all = ref_views(panels@);
    let ghost f = |p: JsonV| empty_on(d, p);
    let ghost out0 = out.deep_view();
    assert(out0 + collected(all.take(0), f) =~= out0);
    for i in 0..panels.len()
        invariant
            ctx.shows(d),
            all == ref_views(panels@),
            f == (|p: JsonV| empty_on(d, p)),
            out.deep_view() == out0 + collected(all.take(i as int), f),
    {
        proof {
            lemma_collected_step(all, f, i as int);
        }
        let ghost before = out.deep_view();
        if is_empty_panel(ctx, Ghost(d), panels[i]) {
            let finding = ctx.finding(
                Ghost(d),
                Severity::Warn,
                "empty-panel",
                get_i64(Some(panels[i]), "id"),
                get_text(Some(panels[i]), "title"),
                "query ran but returned 0 rows".to_owned(),
            );
            out.push(finding);
            assert(out.deep_view() =~= before.push(finding.deep_view()));
        }
        assert(out.deep_view() =~= out0 + collected(all.take(i + 1), f));
    }
    assert(all.take(all.len() as int) =~= all);
}

// ---------------------------------------------------------------------------
// Orphans
// ---------------------------------------------------------------------------

/// What makes a dashboard an orphan.
pub open spec fn orphan_text(no_folder: bool, untagged: bool) -> Seq<char> {
    if no_folder && untagged {
        "in no folder and untagged"@
    } else if no_folder {
        "in no folder"@
    } else {
        "untagged"@
    }
}

/// The finding on a dashboard in no folder and/or without tags.
pub open spec fn orphan_findings(d: DashSourceV) -> Seq<FindingV> {
    let no_folder = folder_of(d.artifact) is None;
    let untagged = tags_of(d.artifact).len() == 0;
    if no_folder || untagged {
        seq![
            finding_on(
                d,
                Severity::Info,
                "orphan"@,
                None,
                None,
                "orphan dashboard: "@ + orphan_text(no_folder, untagged),
            ),
        ]
    } else {
        Seq::empty()
    }
}

fn orphans(ctx: &DashCtx, Ghost(d): Ghost<DashSourceV>, out: &mut Vec<Finding>)
    requires
        ctx.shows(d),
    ensures
        final(out).deep_view() == old(out).deep_view() + orphan_findings(d),
{
    let ghost out0 = out.deep_view();
    assert(ctx.tags.deep_view().len() == ctx.tags@.len());
    let no_folder = ctx.folder.is_none();
    let untagged = ctx.tags.len() == 0;
    if !no_folder && !untagged {
        assert(out.deep_view() =~= out0 + orphan_findings(d));
        return;
    }
    let what = if no_folder && untagged {
        "in no folder and untagged"
    } else if no_folder {
        "in no folder"
    } else {
        "untagged"
    };
    let mut message = "orphan dashboard: ".to_owned();
    message.append(what);
    let finding = ctx.finding(Ghost(d), Severity::Info, "orphan", None, None, message);
    out.push(finding);
    assert(out.deep_view() =~= out0.push(finding.deep_view()));
    assert(out.deep_view() =~= out0 + orphan_findings(d));
}

// ---------------------------------------------------------------------------
// Variables
// ---------------------------------------------------------------------------

/// The current value of a template variable.
pub open spec fn current_value(v: JsonV) -> Seq<char> {
    match member(member(Some(v), "current"@), "value"@) {
        Some(x) => cell_text(x),
        None => ""@,
    }
}

/// A variable has no query text.
pub open spec fn query_empty(v: JsonV) -> bool {
    match text_member(Some(v), "query"@) {
        Some(q) => q.len() == 0,
        None => true,
    }
}

/// The finding on a constant: a warning when it is empty, else a remark that it
/// hardcodes a value.
pub open spec fn variable_finding(d: DashSourceV, v: JsonV) -> Option<FindingV> {
    let name = text_member_or(Some(v), "name"@, ""@);
    if text_member_or(Some(v), "type"@, ""@) != "constant"@ {
        None
    } else if current_value(v).len() == 0 && query_empty(v) {
        Some(
            finding_on(
                d,
                Severity::Warn,
                "blank-variable"@,
                None,
                None,
                "constant variable `"@ + name + "` is left empty"@,
            ),
        )
    } else {
        Some(
            finding_on(
                d,
                Severity::Info,
                "constant-variable"@,
                None,
                None,
                "constant variable `"@ + name + "` hardcodes a value"@,
            ),
        )
    }
}

/// The findings on the constants of a dashboard.
pub open spec fn variable_findings(d: DashSourceV) -> Seq<FindingV> {
    collected(templating_list(dash_of(d.artifact)), |v: JsonV| variable_finding(d, v))
}

fn constant_finding(ctx: &DashCtx, Ghost(d): Ghost<DashSourceV>, v: &Json) -> (r: Option<Finding>)
    requires
        ctx.shows(d),
    ensures
        r.deep_view() == variable_finding(d, v@),
{
    let ty = get_text_or(Some(v), "type", "");
    if !same(ty.as_str(), "constant") {
        return None;
    }
    let name = get_text_or(Some(v), "name", "");
    let value = match get_member(get_member(Some(v), "current"), "value") {
        Some(x) => cell_display(x),
        None => "".to_owned(),
    };
    let no_query = match get_text(Some(v), "query") {
        Some(q) => chars_of(q.as_str()).len() == 0,
        None => true,
    };
    let mut message = "constant variable `".to_owned();
    message.append(name.as_str());
    if chars_of(value.as_str()).len() == 0 && no_query {
        message.append("` is left empty");
        Some(ctx.finding(Ghost(d), Severity::Warn, "blank-variable", None, None, message))
    } else {
        message.append("` hardcodes a value");
        Some(ctx.finding(Ghost(d), Severity::Info, "constant-variable", None, None, message))
    }
}

fn blank_constant_variables(ctx: &DashCtx, Ghost(d): Ghost<DashSourceV>, out: &mut Vec<Finding>)
    requires
        ctx.shows(d),
    ensures
        final(out).deep_view() == old(out).deep_view() + variable_findings(d),
{
    let list = items_of(get_member(get_member(ctx.dash, "templating"), "list"));
    let ghost all = ref_views(list@);
    let ghost f = |v: JsonV| variable_finding(d, v);
    let ghost out0 = out.deep_view();
    assert(out0 + collected(all.take(0), f) =~= out0);
    for i in 0..list.len()
        invariant
            ctx.shows(d),
            all == ref_views(list@),
            f == (|v: JsonV| variable_finding(d, v)),
            out.deep_view() == out0 + collected(all.take(i as int), f),
    {
        proof {
            lemma_collected_step(all, f, i as int);
        }
        let ghost before = out.deep_view();
        if let Some(finding) = constant_finding(ctx, Ghost(d), list[i]) {
            out.push(finding);
            assert(out.deep_view() =~= before.push(finding.deep_view()));
        }
        assert(out.deep_view() =~= out0 + collected(all.take(i + 1), f));
    }
    assert(all.take(all.len() as int) =~= all);
}


// ---------------------------------------------------------------------------
// Duplicates
// ---------------------------------------------------------------------------

/// The uid, the title and the path of a dashboard.
pub open spec fn identity_of(d: DashSourceV) -> (Seq<char>, Seq<char>, Seq<char>) {
    (uid_of(d.artifact), title_of(d.artifact), d.path)
}

/// The fingerprint of a dashboard.
pub open spec fn print_of(d: DashSourceV) -> Seq<char> {
    fingerprint_of(dash_of(d.artifact))
}

/// The identity of a dashboard, if it has the fingerprint asked for.
pub open spec fn identity_if(d: DashSourceV, fp: Seq<char>) -> Option<
    (Seq<char>, Seq<char>, Seq<char>),
> {
    if print_of(d) == fp {
        Some(identity_of(d))
    } else {
        None
    }
}

pub open spec fn by_uid() -> spec_fn(
    (Seq<char>, Seq<char>, Seq<char>),
    (Seq<char>, Seq<char>, Seq<char>),
) -> bool {
    |a: (Seq<char>, Seq<char>, Seq<char>), b: (Seq<char>, Seq<char>, Seq<char>)|
        text_le(a.0, b.0)
}

/// The dashboards that share a fingerprint, by uid.
pub open spec fn group_of(dashboards: Seq<DashSourceV>, fp: Seq<char>) -> Seq<
    (Seq<char>, Seq<char>, Seq<char>),
> {
    ordered(collected(dashboards, |d: DashSourceV| identity_if(d, fp)), by_uid())
}

/// The first digits of a fingerprint.
pub open spec fn short_print(fp: Seq<char>) -> Seq<char> {
    fp.take(
        if fp.len() >= 16 {
            16
        } else {
            fp.len() as int
        },
    )
}

/// The finding on one dashboard of a group: the first one stands for the group,
/// the others point back at it.
pub open spec fn duplicate_finding(
    fp: Seq<char>,
    canon: Seq<char>,
    size: nat,
    first: bool,
    m: (Seq<char>, Seq<char>, Seq<char>),
) -> FindingV {
    FindingV {
        severity: if first {
            Severity::Info
        } else {
            Severity::Warn
        },
        class: "duplicate-dashboard"@,
        source_artifact: m.2,
        dashboard_uid: m.0,
        dashboard_title: m.1,
        panel_id: None,
        panel_title: None,
        message: if first {
            "duplicate set (fingerprint "@ + short_print(fp) + "): "@ + decimal(size)
                + " dashboards share this panel/query set"@
        } else {
            "duplicate of `"@ + canon + "` (fingerprint "@ + short_print(fp) + ")"@
        },
    }
}

/// The findings on a group of dashboards that share a fingerprint.
pub open spec fn group_findings(
    fp: Seq<char>,
    members: Seq<(Seq<char>, Seq<char>, Seq<char>)>,
) -> Seq<FindingV> {
    if members.len() < 2 {
        Seq::empty()
    } else {
        Seq::new(
            members.len(),
            |i: int| duplicate_finding(fp, members[0].0, members.len(), i == 0, members[i]),
        )
    }
}

/// The findings on dashboards that share a fingerprint.
pub open spec fn duplicate_findings(dashboards: Seq<DashSourceV>) -> Seq<FindingV> {
    flattened(
        distinct_texts(dashboards.map_values(|d: DashSourceV| print_of(d))),
        |fp: Seq<char>| group_findings(fp, group_of(dashboards, fp)),
    )
}

fn triple_le(a: &(String, String, String), b: &(String, String, String)) -> (c: bool)
    ensures
        c == text_le(a.0@, b.0@),
{
    le(a.0.as_str(), b.0.as_str())
}

/// The dashboards that share a fingerprint, by uid.
#[verifier::spinoff_prover]
fn find_group(
    dashboards: &Vec<DashSource>,
    prints: &Vec<String>,
    fp: &str,
) -> (r: Vec<(String, String, String)>)
    requires
        prints.deep_view() == dashboards.deep_view().map_values(|d: DashSourceV| print_of(d)),
    ensures
        r.deep_view() == group_of(dashboards.deep_view(), fp@),
{
    let ghost all = dashboards.deep_view();
    let ghost f = |d: DashSourceV| identity_if(d, fp@);
    let mut out: Vec<(String, String, String)> = Vec::new();
    assert(prints.deep_view().len() == prints@.len());
    for i in 0..dashboards.len()
        invariant
            all == dashboards.deep_view(),
            prints@.len() == all.len(),
            prints.deep_view() == all.map_values(|d: DashSourceV| print_of(d)),
            f == (|d: DashSourceV| identity_if(d, fp@)),
            out.deep_view() == collected(all.take(i as int), f),
    {
        proof {
            lemma_collected_step(all, f, i as int);
        }
        let ghost before = out.deep_view();
        assert(prints.deep_view()[i as int] == prints@[i as int]@);
        assert(all[i as int] == dashboards@[i as int].deep_view());
        assert(prints@[i as int]@ == print_of(all[i as int]));
        assert(f(all[i as int]) == identity_if(all[i as int], fp@));
        if same(prints[i].as_str(), fp) {
            let d = &dashboards[i];
            let member = (dash_uid(d.artifact), dash_title(d.artifact), d.path.clone());
            out.push(member);
            assert(out.deep_view() =~= before.push(member.deep_view()));
        }
        assert(out.deep_view() =~= collected(all.take(i + 1), f));
    }
    assert(all.take(all.len() as int) =~= all);
    let ghost leq = |a: (String, String, String), b: (String, String, String)|
        text_le(a.0@, b.0@);
    let ghost found = out;
    let sorted = sort(out, triple_le, Ghost(leq));
    proof {
        let view = |p: (String, String, String)| p.deep_view();
        lemma_ordered_map(found@, leq, view, by_uid());
        assert(sorted.deep_view() =~= sorted@.map_values(view));
        assert(found.deep_view() =~= found@.map_values(view));
    }
    sorted
}

/// Add the findings on a group of dashboards that share a fingerprint.
fn report_group(fp: &str, members: &Vec<(String, String, String)>, out: &mut Vec<Finding>)
    ensures
        final(out).deep_view() == old(out).deep_view() + group_findings(fp@, members.deep_view()),
{
    let ghost out0 = out.deep_view();
    let ghost all = members.deep_view();
    assert(all.len() == members@.len());
    if members.len() < 2 {
        assert(out.deep_view() =~= out0 + group_findings(fp@, all));
        return;
    }
    let digits = chars_of(fp);
    let shown: usize = if digits.len() >= 16 {
        16
    } else {
        digits.len()
    };
    let short = slice_text(&digits, 0, shown);
    assert(short@ =~= short_print(fp@));
    let canon = members[0].0.clone();
    assert(all[0].0 == canon@);
    let ghost goal = group_findings(fp@, all);
    assert(out0 + goal.take(0) =~= out0);
    for i in 0..members.len()
        invariant
            all == members.deep_view(),
            all.len() >= 2,
            all[0].0 == canon@,
            short@ == short_print(fp@),
            goal == group_findings(fp@, all),
            out.deep_view() == out0 + goal.take(i as int),
    {
        let ghost before = out.deep_view();
        let m = &members[i];
        assert(all[i as int] == m.deep_view());
        let first = i == 0;
        let message = if first {
            let mut s = "duplicate set (fingerprint ".to_owned();
            s.append(short.as_str());
            s.append("): ");
            s.append(decimal_usize(members.len()).as_str());
            s.append(" dashboards share this panel/query set");
            s
        } else {
            let mut s = "duplicate of `".to_owned();
            s.append(canon.as_str());
            s.append("` (fingerprint ");
            s.append(short.as_str());
            s.append(")");
            s
        };
        let finding = Finding {
            severity: if first {
                Severity::Info
            } else {
                Severity::Warn
            },
            class: "duplicate-dashboard",
            source_artifact: m.2.clone(),
            dashboard_uid: m.0.clone(),
            dashboard_title: m.1.clone(),
            panel_id: None,
            panel_title: None,
            message,
        };
        assert(finding.deep_view() == goal[i as int]);
        out.push(finding);
        assert(out.deep_view() =~= before.push(finding.deep_view()));
        assert(goal.take(i + 1) =~= goal.take(i as int).push(goal[i as int]));
    }
    assert(goal.take(goal.len() as int) =~= goal);
}

fn duplicate_dashboards(dashboards: &Vec<DashSource>, out: &mut Vec<Finding>)
    ensures
        final(out).deep_view() == old(out).deep_view() + duplicate_findings(
            dashboards.deep_view(),
        ),
{
    let ghost all = dashboards.deep_view();
    let ghost fps = all.map_values(|d: DashSourceV| print_of(d));
    let mut prints: Vec<String> = Vec::new();
    for i in 0..dashboards.len()
        invariant
            prints@.len() == i,
            forall|k: int|
                0 <= k < i ==> (#[trigger] prints@[k])@ == print_of(dashboards@[k].deep_view()),
    {
        prints.push(fingerprint(dash_obj(dashboards[i].artifact)));
    }
    assert(prints.deep_view() =~= fps);
    let keys = sort_dedup(copy_texts(&prints));
    let ghost groups = keys.deep_view();
    let ghost f = |fp: Seq<char>| group_findings(fp, group_of(all, fp));
    let ghost out0 = out.deep_view();
    assert(out0 + flattened(groups.take(0), f) =~= out0);
    for i in 0..keys.len()
        invariant
            all == dashboards.deep_view(),
            fps == all.map_values(|d: DashSourceV| print_of(d)),
            prints.deep_view() == fps,
            groups == keys.deep_view(),
            f == (|fp: Seq<char>| group_findings(fp, group_of(all, fp))),
            out.deep_view() == out0 + flattened(groups.take(i as int), f),
    {
        proof {
            lemma_flattened_step(groups, f, i as int);
        }
        assert(groups[i as int] == keys@[i as int]@);
        let members = find_group(dashboards, &prints, keys[i].as_str());
        report_group(keys[i].as_str(), &members, out);
        assert(out.deep_view() =~= out0 + flattened(groups.take(i + 1), f));
    }
    assert(groups.take(groups.len() as int) =~= groups);
}

// ---------------------------------------------------------------------------
// Unused datasources
// ---------------------------------------------------------------------------

/// The finding on a datasource, given by name and type, that nothing references.
pub open spec fn unused_on(d: (Seq<char>, Seq<char>), referenced: Seq<Seq<char>>) -> Option<
    FindingV,
> {
    if referenced.contains(d.0) {
        None
    } else {
        Some(
            FindingV {
                severity: Severity::Warn,
                class: "unused-datasource"@,
                source_artifact: ""@,
                dashboard_uid: ""@,
                dashboard_title: ""@,
                panel_id: None,
                panel_title: None,
                message: "datasource `"@ + d.0 + "` ("@ + d.1
                    + ") is configured but referenced by no scraped panel"@,
            },
        )
    }
}

/// The findings on configured datasources that nothing references, by name.
pub open spec fn unused_findings(ds: Seq<DsEntryV>, referenced: Seq<Seq<char>>) -> Seq<FindingV> {
    collected(
        ordered(
            ds.map_values(|d: DsEntryV| (d.name, d.ds_type)),
            crate::grafana::model::by_name(),
        ),
        |d: (Seq<char>, Seq<char>)| unused_on(d, referenced),
    )
}

fn name_le(a: &(String, String), b: &(String, String)) -> (c: bool)
    ensures
        c == text_le(a.0@, b.0@),
{
    le(a.0.as_str(), b.0.as_str())
}

fn unused_datasources(ds: &Vec<DsEntry>, referenced: &Vec<String>, out: &mut Vec<Finding>)
    ensures
        final(out).deep_view() == old(out).deep_view() + unused_findings(
            ds.deep_view(),
            referenced.deep_view(),
        ),
{
    let mut names: Vec<(String, String)> = Vec::new();
    for i in 0..ds.len()
        invariant
            names@.len() == i,
            forall|k: int|
                0 <= k < i ==> (#[trigger] names@[k]).deep_view() == (
                    ds@[k].name@,
                    ds@[k].ds_type@,
                ),
    {
        names.push((ds[i].name.clone(), ds[i].ds_type.clone()));
    }
    let ghost leq = |a: (String, String), b: (String, String)| text_le(a.0@, b.0@);
    let ghost unsorted = names;
    let sorted = sort(names, name_le, Ghost(leq));
    let ghost all = sorted.deep_view();
    proof {
        let view = |p: (String, String)| p.deep_view();
        lemma_ordered_map(unsorted@, leq, view, crate::grafana::model::by_name());
        assert(sorted.deep_view() =~= sorted@.map_values(view));
        assert(unsorted@.map_values(view) =~= ds.deep_view().map_values(
            |d: DsEntryV| (d.name, d.ds_type),
        ));
    }
    let ghost refs = referenced.deep_view();
    let ghost f = |d: (Seq<char>, Seq<char>)| unused_on(d, refs);
    let ghost out0 = out.deep_view();
    assert(out0 + collected(all.take(0), f) =~= out0);
    for i in 0..sorted.len()
        invariant
            all == sorted.deep_view(),
            refs == referenced.deep_view(),
            f == (|d: (Seq<char>, Seq<char>)| unused_on(d, refs)),
            out.deep_view() == out0 + collected(all.take(i as int), f),
    {
        proof {
            lemma_collected_step(all, f, i as int);
        }
        let ghost before = out.deep_view();
        let d = &sorted[i];
        assert(all[i as int] == d.deep_view());
        if !contains_text(referenced, d.0.as_str()) {
            let mut message = "datasource `".to_owned();
            message.append(d.0.as_str());
            message.append("` (");
            message.append(d.1.as_str());
            message.append(") is configured but referenced by no scraped panel");
            let finding = Finding {
                severity: Severity::Warn,
                class: "unused-datasource",
                source_artifact: "".to_owned(),
                dashboard_uid: "".to_owned(),
                dashboard_title: "".to_owned(),
                panel_id: None,
                panel_title: None,
                message,
            };
            out.push(finding);
            assert(out.deep_view() =~= before.push(finding.deep_view()));
        }
        assert(out.deep_view() =~= out0 + collected(all.take(i + 1), f));
    }
    assert(all.take(all.len() as int) =~= all);
}

// ---------------------------------------------------------------------------
// The audit
// ---------------------------------------------------------------------------

/// Nothing comes before any number.
pub open spec fn opt_id_le(a: Option<i64>, b: Option<i64>) -> bool {
    match (a, b) {
        (None, _) => true,
        (Some(x), Some(y)) => x <= y,
        (Some(_), None) => false,
    }
}

/// Findings stand by severity, class, dashboard uid, panel id and message.
pub open spec fn finding_le(a: FindingV, b: FindingV) -> bool {
    if a.severity != b.severity {
        severity_rank(a.severity) < severity_rank(b.severity)
    } else if a.class != b.class {
        text_le(a.class, b.class)
    } else if a.dashboard_uid != b.dashboard_uid {
        text_le(a.dashboard_uid, b.dashboard_uid)
    } else if a.panel_id != b.panel_id {
        opt_id_le(a.panel_id, b.panel_id)
    } else {
        text_le(a.message, b.message)
    }
}

pub open spec fn finding_order() -> spec_fn(FindingV, FindingV) -> bool {
    |a: FindingV, b: FindingV| finding_le(a, b)
}

fn finding_before(a: &Finding, b: &Finding) -> (c: bool)
    ensures
        c == finding_le(a.deep_view(), b.deep_view()),
{
    let ra: u8 = a.severity.rank();
    let rb: u8 = b.severity.rank();
    if ra != rb {
        ra < rb
    } else if !same(a.class, b.class) {
        le(a.class, b.class)
    } else if !same(a.dashboard_uid.as_str(), b.dashboard_uid.as_str()) {
        le(a.dashboard_uid.as_str(), b.dashboard_uid.as_str())
    } else {
        match (a.panel_id, b.panel_id) {
            (None, None) => le(a.message.as_str(), b.message.as_str()),
            (None, Some(_)) => true,
            (Some(_), None) => false,
            (Some(x), Some(y)) => if x != y {
                x <= y
            } else {
                le(a.message.as_str(), b.message.as_str())
            },
        }
    }
}

/// Sort findings by severity, class, dashboard uid, panel id and message.
pub fn sort_findings(findings: Vec<Finding>) -> (r: Vec<Finding>)
    ensures
        r.deep_view() == ordered(findings.deep_view(), finding_order()),
{
    let ghost leq = |a: Finding, b: Finding| finding_le(a.deep_view(), b.deep_view());
    let ghost found = findings;
    let sorted = sort(findings, finding_before, Ghost(leq));
    proof {
        let view = |p: Finding| p.deep_view();
        lemma_ordered_map(found@, leq, view, finding_order());
        assert(sorted.deep_view() =~= sorted@.map_values(view));
        assert(found.deep_view() =~= found@.map_values(view));
    }
    sorted
}

/// The findings of the checks that look at one dashboard.
pub open spec fn dashboard_findings(d: DashSourceV, ds: Seq<DsEntryV>) -> Seq<FindingV> {
    dead_findings(d, ds) + broken_findings(d) + empty_findings(d) + orphan_findings(d)
        + variable_findings(d)
}

/// All findings of an audit, before they are sorted.
pub open spec fn all_findings(ds: Seq<DsEntryV>, dashboards: Seq<DashSourceV>) -> Seq<FindingV> {
    flattened(dashboards, |d: DashSourceV| dashboard_findings(d, ds)) + duplicate_findings(
        dashboards,
    ) + unused_findings(ds, flattened(dashboards, |d: DashSourceV| referenced_in(d, ds)))
}

/// The findings of an audit, in their order.
pub open spec fn audit_of(ds: Seq<DsEntryV>, dashboards: Seq<DashSourceV>) -> Seq<FindingV> {
    ordered(all_findings(ds, dashboards), finding_order())
}

/// Run every check class over the scraped dashboards and the sidecar's
/// datasource list.
pub fn run_audit(datasources: &Vec<DsEntry>, dashboards: &Vec<DashSource>) -> (r: Vec<Finding>)
    ensures
        r.deep_view() == audit_of(datasources.deep_view(), dashboards.deep_view()),
{
    let mut findings: Vec<Finding> = Vec::new();
    let mut referenced: Vec<String> = Vec::new();
    let ghost ds = datasources.deep_view();
    let ghost all = dashboards.deep_view();
    let ghost f = |d: DashSourceV| dashboard_findings(d, ds);
    let ghost g = |d: DashSourceV| referenced_in(d, ds);
    assert(findings.deep_view() =~= flattened(all.take(0), f));
    assert(referenced.deep_view() =~= flattened(all.take(0), g));
    for i in 0..dashboards.len()
        invariant
            ds == datasources.deep_view(),
            all == dashboards.deep_view(),
            f == (|d: DashSourceV| dashboard_findings(d, ds)),
            g == (|d: DashSourceV| referenced_in(d, ds)),
            findings.deep_view() == flattened(all.take(i as int), f),
            referenced.deep_view() == flattened(all.take(i as int), g),
    {
        proof {
            lemma_flattened_step(all, f, i as int);
            lemma_flattened_step(all, g, i as int);
        }
        let ghost before = findings.deep_view();
        let ghost d = dashboards@[i as int].deep_view();
        assert(all[i as int] == d);
        let ctx = DashCtx::new(&dashboards[i]);
        dead_datasources(&ctx, Ghost(d), datasources, &mut referenced, &mut findings);
        broken_queries(&ctx, Ghost(d), &mut findings);
        empty_panels(&ctx, Ghost(d), &mut findings);
        orphans(&ctx, Ghost(d), &mut findings);
        blank_constant_variables(&ctx, Ghost(d), &mut findings);
        assert(findings.deep_view() =~= before + dashboard_findings(d, ds));
    }
    assert(all.take(all.len() as int) =~= all);
    duplicate_dashboards(dashboards, &mut findings);
    unused_datasources(datasources, &referenced, &mut findings);
    sort_findings(findings)
}

/// The path of the artifact file in a directory.
pub open spec fn artifact_path_of(dir: Option<Seq<char>>) -> Seq<char> {
    match dir {
        Some(d) => joined(d, "artifact.json"@),
        None => "artifact.json"@,
    }
}

/// The artifacts, each with the path of its file in the directory of the same
/// number, where there is one.
pub open spec fn paired(dirs: Seq<Seq<char>>, artifacts: Seq<ArtifactV>) -> Seq<DashSourceV> {
    Seq::new(
        artifacts.len(),
        |i: int|
            DashSourceV {
                path: artifact_path_of(
                    if i < dirs.len() {
                        Some(dirs[i])
                    } else {
                        None
                    },
                ),
                artifact: artifacts[i],
            },
    )
}

/// Pair artifacts with the directories that they were read from.
pub fn pair_sources<'a>(dirs: &Vec<String>, artifacts: &'a Vec<Artifact>) -> (r: Vec<
    DashSource<'a>,
>)
    ensures
        r.deep_view() == paired(dirs.deep_view(), artifacts.deep_view()),
{
    let mut out: Vec<DashSource<'a>> = Vec::new();
    let ghost goal = paired(dirs.deep_view(), artifacts.deep_view());
    for i in 0..artifacts.len()
        invariant
            goal == paired(dirs.deep_view(), artifacts.deep_view()),
            out@.len() == i,
            forall|k: int| 0 <= k < i ==> (#[trigger] out@[k]).deep_view() == goal[k],
    {
        let path = if i < dirs.len() {
            assert(dirs.deep_view()[i as int] == dirs@[i as int]@);
            join_path(dirs[i].as_str(), "artifact.json")
        } else {
            "artifact.json".to_owned()
        };
        out.push(DashSource { path, artifact: &artifacts[i] });
    }
    assert(out.deep_view() =~= goal);
    out
}

} // verus!
