//! The deterministic view model that the renderer walks.
//!
//! Assembled from the sidecar facts plus the selected dashboard artifacts. All
//! ordering is fixed here: dashboards by folder, title and uid; panels by id;
//! variables and tags lexicographically.

use crate::artifact::{Artifact, ArtifactV, ItemV};
use crate::collect::{collected, first_some, lemma_collected_step, lemma_first_some_step};
use crate::grafana::sql::{
    ds_list, ds_name_of, executed_sql, executed_sql_of, representative_value,
    representative_value_of, resolve_ds_name, sample_rows, sample_rows_of, template_sql,
    template_sql_of, DsEntry, DsEntryV,
};
use crate::json::{
    bool_member, get_bool, get_i64, get_member, get_text, get_text_or, i64_of_json, items_of,
    items_of_json, json_text, member, opt_view, ref_views, text_member, text_member_or,
    text_of_json, Json, JsonV,
};
use crate::order::{
    counts, distinct_texts, lemma_ordered_map, ordered, sort, sort_dedup, sort_texts, sorted_texts,
    tally, tally_texts,
};
use crate::text::{
    holds, integer, integer_i64, join, join_texts, le, lowercase, occurs, same, text_le,
    to_lowercase,
};
use crate::time::Timestamp;
use vstd::prelude::*;

verus! {

// ---------------------------------------------------------------------------
// Types
// ---------------------------------------------------------------------------

/// One datasource line for the overview.
#[derive(Debug, Clone)]
pub struct DsView {
    pub name: String,
    pub ds_type: String,
    pub is_default: bool,
}

/// The model of a [`DsView`].
pub struct DsViewV {
    pub name: Seq<char>,
    pub ds_type: Seq<char>,
    pub is_default: bool,
}

impl DeepView for DsView {
    type V = DsViewV;

    open spec fn deep_view(&self) -> DsViewV {
        DsViewV { name: self.name@, ds_type: self.ds_type@, is_default: self.is_default }
    }
}

/// Instance-wide facts.
#[derive(Debug, Clone)]
pub struct InstanceView {
    pub host: String,
    pub version: Option<String>,
    pub edition: Option<String>,
    pub renderer_available: Option<bool>,
    pub datasources: Vec<DsView>,
    pub dashboards_inventory: usize,
    pub dashboards_on_disk: usize,
    pub folders_count: usize,
}

/// The model of an [`InstanceView`].
pub struct InstanceV {
    pub host: Seq<char>,
    pub version: Option<Seq<char>>,
    pub edition: Option<Seq<char>>,
    pub renderer_available: Option<bool>,
    pub datasources: Seq<DsViewV>,
    pub dashboards_inventory: usize,
    pub dashboards_on_disk: usize,
    pub folders_count: nat,
}

impl DeepView for InstanceView {
    type V = InstanceV;

    open spec fn deep_view(&self) -> InstanceV {
        InstanceV {
            host: self.host@,
            version: self.version.deep_view(),
            edition: self.edition.deep_view(),
            renderer_available: self.renderer_available,
            datasources: self.datasources.deep_view(),
            dashboards_inventory: self.dashboards_inventory,
            dashboards_on_disk: self.dashboards_on_disk,
            folders_count: self.folders_count as nat,
        }
    }
}

/// One panel within a page.
#[derive(Debug, Clone)]
pub struct PanelView {
    pub id: i64,
    pub title: String,
    pub ptype: String,
    pub datasource: String,
    pub value: Option<String>,
    pub template_sql: Vec<String>,
    pub executed_sql: Vec<String>,
    pub sample_rows: Option<String>,
}

/// The model of a [`PanelView`].
pub struct PanelV {
    pub id: i64,
    pub title: Seq<char>,
    pub ptype: Seq<char>,
    pub datasource: Seq<char>,
    pub value: Option<Seq<char>>,
    pub template_sql: Seq<Seq<char>>,
    pub executed_sql: Seq<Seq<char>>,
    pub sample_rows: Option<Seq<char>>,
}

impl DeepView for PanelView {
    type V = PanelV;

    open spec fn deep_view(&self) -> PanelV {
        PanelV {
            id: self.id,
            title: self.title@,
            ptype: self.ptype@,
            datasource: self.datasource@,
            value: self.value.deep_view(),
            template_sql: self.template_sql.deep_view(),
            executed_sql: self.executed_sql.deep_view(),
            sample_rows: self.sample_rows.deep_view(),
        }
    }
}

/// One selected dashboard.
#[derive(Debug, Clone)]
pub struct DashboardView {
    pub uid: String,
    pub title: String,
    pub folder: Option<String>,
    pub tags: Vec<String>,
    pub variables: Vec<(String, String)>,
    pub panels: Vec<PanelView>,
    pub primary_datasource: String,
    pub is_navigation: bool,
    pub nav_links: Vec<String>,
}

/// The model of a [`DashboardView`].
pub struct DashboardV {
    pub uid: Seq<char>,
    pub title: Seq<char>,
    pub folder: Option<Seq<char>>,
    pub tags: Seq<Seq<char>>,
    pub variables: Seq<(Seq<char>, Seq<char>)>,
    pub panels: Seq<PanelV>,
    pub primary_datasource: Seq<char>,
    pub is_navigation: bool,
    pub nav_links: Seq<Seq<char>>,
}

impl DeepView for DashboardView {
    type V = DashboardV;

    open spec fn deep_view(&self) -> DashboardV {
        DashboardV {
            uid: self.uid@,
            title: self.title@,
            folder: self.folder.deep_view(),
            tags: self.tags.deep_view(),
            variables: self.variables.deep_view(),
            panels: self.panels.deep_view(),
            primary_datasource: self.primary_datasource@,
            is_navigation: self.is_navigation,
            nav_links: self.nav_links.deep_view(),
        }
    }
}

impl DashboardView {
    pub fn panel_count(&self) -> (n: usize)
        ensures
            n == self.deep_view().panels.len(),
    {
        self.panels.len()
    }

    pub fn variable_count(&self) -> (n: usize)
        ensures
            n == self.deep_view().variables.len(),
    {
        self.variables.len()
    }
}

/// The whole report model.
#[derive(Debug, Clone)]
pub struct RenderModel {
    pub instance: InstanceView,
    pub generated: Timestamp,
    pub dashboards: Vec<DashboardView>,
    pub scope: String,
    pub inventory_total: usize,
    pub on_disk_total: usize,
}

/// The model of a [`RenderModel`].
pub struct RenderV {
    pub instance: InstanceV,
    pub generated: (i64, u32),
    pub dashboards: Seq<DashboardV>,
    pub scope: Seq<char>,
    pub inventory_total: usize,
    pub on_disk_total: usize,
}

impl DeepView for RenderModel {
    type V = RenderV;

    open spec fn deep_view(&self) -> RenderV {
        RenderV {
            instance: self.instance.deep_view(),
            generated: self.generated@,
            dashboards: self.dashboards.deep_view(),
            scope: self.scope@,
            inventory_total: self.inventory_total,
            on_disk_total: self.on_disk_total,
        }
    }
}

/// Sidecar facts handed to the assembler.
pub struct Facts<'a> {
    pub host: &'a str,
    pub generated: Timestamp,
    pub search: &'a Json,
    pub datasources: &'a Json,
    pub instance: &'a Json,
    pub folders: &'a Json,
}

/// The model of [`Facts`].
pub struct FactsV {
    pub host: Seq<char>,
    pub generated: (i64, u32),
    pub search: JsonV,
    pub datasources: JsonV,
    pub instance: JsonV,
    pub folders: JsonV,
}

impl<'a> DeepView for Facts<'a> {
    type V = FactsV;

    open spec fn deep_view(&self) -> FactsV {
        FactsV {
            host: self.host@,
            generated: self.generated@,
            search: self.search@,
            datasources: self.datasources@,
            instance: self.instance@,
            folders: self.folders@,
        }
    }
}

// ---------------------------------------------------------------------------
// Parts of a dashboard artifact
// ---------------------------------------------------------------------------

/// The dashboard object inside the metadata.
pub open spec fn dash_of(a: ArtifactV) -> Option<JsonV> {
    member(member(Some(a.meta), "dashboard"@), "dashboard"@)
}

/// The uid of a dashboard, else what was scraped.
pub open spec fn uid_of(a: ArtifactV) -> Seq<char> {
    text_member_or(dash_of(a), "uid"@, a.target)
}

/// The title of a dashboard, else its uid.
pub open spec fn title_of(a: ArtifactV) -> Seq<char> {
    text_member_or(dash_of(a), "title"@, uid_of(a))
}

/// The folder of a dashboard, where it has one with a name.
pub open spec fn folder_of(a: ArtifactV) -> Option<Seq<char>> {
    match text_member(member(member(Some(a.meta), "dashboard"@), "meta"@), "folderTitle"@) {
        Some(s) => if s.len() > 0 {
            Some(s)
        } else {
            None
        },
        None => None,
    }
}

/// The items of an array that are strings.
pub open spec fn texts_of(j: Option<JsonV>) -> Seq<Seq<char>> {
    collected(items_of_json(j), |v: JsonV| text_of_json(Some(v)))
}

/// The tags of a dashboard, in lexicographic order.
pub open spec fn tags_of(a: ArtifactV) -> Seq<Seq<char>> {
    sorted_texts(texts_of(member(dash_of(a), "tags"@)))
}

pub(crate) fn dash_obj<'a>(artifact: &'a Artifact) -> (r: Option<&'a Json>)
    ensures
        opt_view(r) == dash_of(artifact.deep_view()),
{
    get_member(get_member(Some(&artifact.meta), "dashboard"), "dashboard")
}

pub(crate) fn dash_uid(artifact: &Artifact) -> (r: String)
    ensures
        r@ == uid_of(artifact.deep_view()),
{
    get_text_or(dash_obj(artifact), "uid", artifact.target.as_str())
}

pub(crate) fn dash_title(artifact: &Artifact) -> (r: String)
    ensures
        r@ == title_of(artifact.deep_view()),
{
    let uid = dash_uid(artifact);
    get_text_or(dash_obj(artifact), "title", uid.as_str())
}

pub(crate) fn dash_folder(artifact: &Artifact) -> (r: Option<String>)
    ensures
        r.deep_view() == folder_of(artifact.deep_view()),
{
    let meta = get_member(get_member(Some(&artifact.meta), "dashboard"), "meta");
    match get_text(meta, "folderTitle") {
        Some(s) => if crate::text::chars_of(s.as_str()).len() > 0 {
            Some(s)
        } else {
            None
        },
        None => None,
    }
}

fn str_array(j: Option<&Json>) -> (r: Vec<String>)
    ensures
        r.deep_view() == texts_of(opt_view(j)),
{
    let xs = items_of(j);
    let ghost all = ref_views(xs@);
    let ghost f = |v: JsonV| text_of_json(Some(v));
    let mut out: Vec<String> = Vec::new();
    for i in 0..xs.len()
        invariant
            all == ref_views(xs@),
            f == (|v: JsonV| text_of_json(Some(v))),
            out.deep_view() == collected(all.take(i as int), f),
    {
        proof {
            lemma_collected_step(all, f, i as int);
        }
        if let Some(s) = xs[i].as_str() {
            out.push(s.to_owned());
        }
        assert(out.deep_view() =~= collected(all.take(i + 1), f));
    }
    assert(all.take(all.len() as int) =~= all);
    out
}

pub(crate) fn dash_tags(artifact: &Artifact) -> (r: Vec<String>)
    ensures
        r.deep_view() == tags_of(artifact.deep_view()),
{
    sort_texts(str_array(get_member(dash_obj(artifact), "tags")))
}

/// The template variables that a dashboard declares.
pub open spec fn templating_list(dash: Option<JsonV>) -> Seq<JsonV> {
    items_of_json(member(member(dash, "templating"@), "list"@))
}

/// The name and the current value of a template variable; several values are
/// joined with commas.
pub open spec fn variable_of(v: JsonV) -> Option<(Seq<char>, Seq<char>)> {
    match text_member(Some(v), "name"@) {
        Some(name) => Some(
            (
                name,
                match member(member(Some(v), "current"@), "value"@) {
                    Some(JsonV::Text(s)) => s,
                    Some(JsonV::Array(xs)) => join(texts_of(Some(JsonV::Array(xs))), ","@),
                    Some(other) => json_text(other),
                    None => ""@,
                },
            ),
        ),
        None => None,
    }
}

/// The template variables of a dashboard, by name.
pub open spec fn variables_of(dash: Option<JsonV>) -> Seq<(Seq<char>, Seq<char>)> {
    ordered(collected(templating_list(dash), |v: JsonV| variable_of(v)), by_name())
}

pub open spec fn by_name() -> spec_fn((Seq<char>, Seq<char>), (Seq<char>, Seq<char>)) -> bool {
    |a: (Seq<char>, Seq<char>), b: (Seq<char>, Seq<char>)| text_le(a.0, b.0)
}

fn variable_pair(v: &Json) -> (r: Option<(String, String)>)
    ensures
        r.deep_view() == variable_of(v@),
{
    let name = match get_text(Some(v), "name") {
        Some(s) => s,
        None => return None,
    };
    let value = match get_member(get_member(Some(v), "current"), "value") {
        Some(x) => match x {
            Json::Text(s) => s.clone(),
            Json::Array(_) => {
                let parts = str_array(Some(x));
                join_texts(&parts, ",")
            },
            _ => x.to_text(),
        },
        None => "".to_owned(),
    };
    Some((name, value))
}

fn pair_le(a: &(String, String), b: &(String, String)) -> (c: bool)
    ensures
        c == text_le(a.0@, b.0@),
{
    le(a.0.as_str(), b.0.as_str())
}

fn variables(dash: Option<&Json>) -> (r: Vec<(String, String)>)
    ensures
        r.deep_view() == variables_of(opt_view(dash)),
{
    let list = items_of(get_member(get_member(dash, "templating"), "list"));
    let ghost all = ref_views(list@);
    let ghost f = |v: JsonV| variable_of(v);
    let mut out: Vec<(String, String)> = Vec::new();
    for i in 0..list.len()
        invariant
            all == ref_views(list@),
            f == (|v: JsonV| variable_of(v)),
            out.deep_view() == collected(all.take(i as int), f),
    {
        proof {
            lemma_collected_step(all, f, i as int);
        }
        if let Some(p) = variable_pair(list[i]) {
            out.push(p);
        }
        assert(out.deep_view() =~= collected(all.take(i + 1), f));
    }
    assert(all.take(all.len() as int) =~= all);
    let ghost leq = |a: (String, String), b: (String, String)| text_le(a.0@, b.0@);
    let ghost found = out;
    let sorted = sort(out, pair_le, Ghost(leq));
    proof {
        let view = |p: (String, String)| p.deep_view();
        lemma_ordered_map(found@, leq, view, by_name());
        assert(sorted.deep_view() =~= sorted@.map_values(view));
        assert(found.deep_view() =~= found@.map_values(view));
    }
    sorted
}


// ---------------------------------------------------------------------------
// Panels
// ---------------------------------------------------------------------------

/// The id of the item that holds the response of the panel `id`.
pub open spec fn panel_item_id(id: i64) -> Seq<char> {
    "panel-"@ + integer(id as int)
}

/// The payload of an item, if it is the one asked for.
pub open spec fn payload_if(item: ItemV, want: Seq<char>) -> Option<Option<JsonV>> {
    if item.id == want {
        Some(item.data)
    } else {
        None
    }
}

/// The response that the scrape captured for the panel `id`.
pub open spec fn panel_data_of(a: ArtifactV, id: i64) -> Option<JsonV> {
    match first_some(a.items, |it: ItemV| payload_if(it, panel_item_id(id))) {
        Some(data) => data,
        None => None,
    }
}

pub(crate) fn item_data<'a>(artifact: &'a Artifact, id: i64) -> (r: Option<&'a Json>)
    ensures
        opt_view(r) == panel_data_of(artifact.deep_view(), id),
{
    let mut want = "panel-".to_owned();
    want.append(integer_i64(id).as_str());
    let ghost all = artifact.deep_view().items;
    let ghost f = |it: ItemV| payload_if(it, panel_item_id(id));
    assert(all.skip(0) =~= all);
    for i in 0..artifact.items.len()
        invariant
            all == artifact.items.deep_view(),
            all == artifact.deep_view().items,
            f == (|it: ItemV| payload_if(it, panel_item_id(id))),
            want@ == panel_item_id(id),
            first_some(all, f) == first_some(all.skip(i as int), f),
    {
        proof {
            lemma_first_some_step(all, f, i as int);
        }
        let item = &artifact.items[i];
        assert(all[i as int] == item.deep_view());
        if same(item.id.as_str(), want.as_str()) {
            return match &item.data {
                Some(d) => Some(d),
                None => None,
            };
        }
    }
    assert(all.skip(all.len() as int) =~= Seq::<ItemV>::empty());
    None
}

/// The panels of a dashboard that a JSON array lists.
pub open spec fn panel_list(dash: Option<JsonV>) -> Seq<JsonV> {
    items_of_json(member(dash, "panels"@))
}

/// A panel that only groups others.
pub open spec fn is_row(panel: JsonV) -> bool {
    text_member(Some(panel), "type"@) == Some("row"@)
}

pub(crate) fn panel_is_row(panel: &Json) -> (r: bool)
    ensures
        r == is_row(panel@),
{
    match get_text(Some(panel), "type") {
        Some(s) => same(s.as_str(), "row"),
        None => false,
    }
}

/// The view of a panel; rows and panels without an integer id have none.
pub open spec fn panel_of(panel: JsonV, a: ArtifactV, ds: Seq<DsEntryV>) -> Option<PanelV> {
    if is_row(panel) {
        None
    } else {
        match i64_of_json(member(Some(panel), "id"@)) {
            Some(id) => {
                let data = panel_data_of(a, id);
                Some(
                    PanelV {
                        id,
                        title: text_member_or(Some(panel), "title"@, ""@),
                        ptype: text_member_or(Some(panel), "type"@, ""@),
                        datasource: ds_name_of(member(Some(panel), "datasource"@), ds),
                        value: match data {
                            Some(d) => representative_value_of(d),
                            None => None,
                        },
                        template_sql: template_sql_of(panel),
                        executed_sql: match data {
                            Some(d) => executed_sql_of(d),
                            None => Seq::empty(),
                        },
                        sample_rows: match data {
                            Some(d) => sample_rows_of(d),
                            None => None,
                        },
                    },
                )
            },
            None => None,
        }
    }
}

pub open spec fn by_id() -> spec_fn(PanelV, PanelV) -> bool {
    |a: PanelV, b: PanelV| a.id <= b.id
}

/// The panels of a dashboard, by id.
pub open spec fn panels_of(a: ArtifactV, ds: Seq<DsEntryV>) -> Seq<PanelV> {
    ordered(collected(panel_list(dash_of(a)), |p: JsonV| panel_of(p, a, ds)), by_id())
}

fn panel_view(panel: &Json, artifact: &Artifact, ds: &Vec<DsEntry>) -> (r: Option<PanelView>)
    ensures
        r.deep_view() == panel_of(panel@, artifact.deep_view(), ds.deep_view()),
{
    if panel_is_row(panel) {
        return None;
    }
    let id: i64 = match get_i64(Some(panel), "id") {
        Some(id) => id,
        None => return None,
    };
    let data = item_data(artifact, id);
    let value = match data {
        Some(d) => representative_value(d),
        None => None,
    };
    let executed = match data {
        Some(d) => executed_sql(d),
        None => Vec::new(),
    };
    let sample = match data {
        Some(d) => sample_rows(d),
        None => None,
    };
    assert(data is None ==> executed.deep_view() =~= Seq::<Seq<char>>::empty());
    Some(
        PanelView {
            id,
            title: get_text_or(Some(panel), "title", ""),
            ptype: get_text_or(Some(panel), "type", ""),
            datasource: resolve_ds_name(get_member(Some(panel), "datasource"), ds),
            value,
            template_sql: template_sql(panel),
            executed_sql: executed,
            sample_rows: sample,
        },
    )
}

fn panel_le(a: &PanelView, b: &PanelView) -> (c: bool)
    ensures
        c == (a.id <= b.id),
{
    a.id <= b.id
}

fn panel_views(artifact: &Artifact, ds: &Vec<DsEntry>) -> (r: Vec<PanelView>)
    ensures
        r.deep_view() == panels_of(artifact.deep_view(), ds.deep_view()),
{
    let list = items_of(get_member(dash_obj(artifact), "panels"));
    let ghost all = ref_views(list@);
    let ghost a = artifact.deep_view();
    let ghost entries = ds.deep_view();
    let ghost f = |p: JsonV| panel_of(p, a, entries);
    let mut out: Vec<PanelView> = Vec::new();
    for i in 0..list.len()
        invariant
            all == ref_views(list@),
            a == artifact.deep_view(),
            entries == ds.deep_view(),
            f == (|p: JsonV| panel_of(p, a, entries)),
            out.deep_view() == collected(all.take(i as int), f),
    {
        proof {
            lemma_collected_step(all, f, i as int);
        }
        if let Some(p) = panel_view(list[i], artifact, ds) {
            out.push(p);
        }
        assert(out.deep_view() =~= collected(all.take(i + 1), f));
    }
    assert(all.take(all.len() as int) =~= all);
    let ghost leq = |a: PanelView, b: PanelView| a.id <= b.id;
    let ghost found = out;
    let sorted = sort(out, panel_le, Ghost(leq));
    proof {
        let view = |p: PanelView| p.deep_view();
        lemma_ordered_map(found@, leq, view, by_id());
        assert(sorted.deep_view() =~= sorted@.map_values(view));
        assert(found.deep_view() =~= found@.map_values(view));
    }
    sorted
}

// ---------------------------------------------------------------------------
// The most common datasource
// ---------------------------------------------------------------------------

/// The first of the entries with the highest count.
pub open spec fn most_common(t: Seq<(Seq<char>, nat)>) -> Option<(Seq<char>, nat)>
    decreases t.len(),
{
    if t.len() == 0 {
        None
    } else {
        match most_common(t.drop_last()) {
            Some(best) => if t.last().1 > best.1 {
                Some(t.last())
            } else {
                Some(best)
            },
            None => Some(t.last()),
        }
    }
}

/// The most common datasource of the panels, the lexicographically first one
/// of several; a dash without panels.
pub open spec fn primary_of(panels: Seq<PanelV>) -> Seq<char> {
    match most_common(tally(panels.map_values(|p: PanelV| p.datasource))) {
        Some(best) => best.0,
        None => "—"@,
    }
}

/// The most common datasource across the panels of a page, ties broken
/// lexicographically.
pub fn primary_ds(panels: &Vec<PanelView>) -> (r: String)
    ensures
        r@ == primary_of(panels.deep_view()),
{
    let mut names: Vec<String> = Vec::new();
    for i in 0..panels.len()
        invariant
            names@.len() == i,
            forall|k: int| 0 <= k < i ==> (#[trigger] names@[k]) == panels@[k].datasource,
    {
        names.push(panels[i].datasource.clone());
    }
    assert(names.deep_view() =~= panels.deep_view().map_values(|p: PanelV| p.datasource));
    let t = tally_texts(names);
    let ghost all = counts(t@);
    let mut best: Option<usize> = None;
    for i in 0..t.len()
        invariant
            all == counts(t@),
            match best {
                Some(b) => b < i && most_common(all.take(i as int)) == Some(all[b as int]),
                None => i == 0,
            },
    {
        assert(all.take(i + 1).drop_last() =~= all.take(i as int));
        best = match best {
            Some(b) => if t[i].1 > t[b].1 {
                Some(i)
            } else {
                Some(b)
            },
            None => Some(i),
        };
    }
    assert(all.take(all.len() as int) =~= all);
    match best {
        Some(b) => t[b].0.clone(),
        None => "—".to_owned(),
    }
}

// ---------------------------------------------------------------------------
// Navigation
// ---------------------------------------------------------------------------

/// The navigation entry that a panel stands for.
pub open spec fn panel_link(panel: JsonV) -> Option<Seq<char>> {
    let ty = text_member_or(Some(panel), "type"@, ""@);
    let title = text_member_or(Some(panel), "title"@, ""@);
    if ty == "dashlist"@ || ty == "text"@ {
        Some(
            (if title.len() == 0 {
                "(untitled)"@
            } else {
                title
            }) + " ("@ + ty + ")"@,
        )
    } else {
        None
    }
}

/// The navigation entries of a dashboard: its list and text panels and its
/// links, sorted, each once.
pub open spec fn nav_links_of(dash: Option<JsonV>) -> Seq<Seq<char>> {
    distinct_texts(
        collected(panel_list(dash), |p: JsonV| panel_link(p)) + collected(
            items_of_json(member(dash, "links"@)),
            |l: JsonV| text_member(Some(l), "title"@),
        ),
    )
}

fn one_panel_link(panel: &Json) -> (r: Option<String>)
    ensures
        r.deep_view() == panel_link(panel@),
{
    let ty = get_text_or(Some(panel), "type", "");
    if same(ty.as_str(), "dashlist") || same(ty.as_str(), "text") {
        let title = get_text_or(Some(panel), "title", "");
        let mut out = if crate::text::chars_of(title.as_str()).len() == 0 {
            "(untitled)".to_owned()
        } else {
            title
        };
        out.append(" (");
        out.append(ty.as_str());
        out.append(")");
        Some(out)
    } else {
        None
    }
}

fn nav_links(dash: Option<&Json>) -> (r: Vec<String>)
    ensures
        r.deep_view() == nav_links_of(opt_view(dash)),
{
    let panels = items_of(get_member(dash, "panels"));
    let ghost all = ref_views(panels@);
    let ghost f = |p: JsonV| panel_link(p);
    let mut out: Vec<String> = Vec::new();
    for i in 0..panels.len()
        invariant
            all == ref_views(panels@),
            f == (|p: JsonV| panel_link(p)),
            out.deep_view() == collected(all.take(i as int), f),
    {
        proof {
            lemma_collected_step(all, f, i as int);
        }
        if let Some(s) = one_panel_link(panels[i]) {
            out.push(s);
        }
        assert(out.deep_view() =~= collected(all.take(i + 1), f));
    }
    assert(all.take(all.len() as int) =~= all);
    let ghost from_panels = out.deep_view();
    let links = items_of(get_member(dash, "links"));
    let ghost ls = ref_views(links@);
    let ghost g = |l: JsonV| text_member(Some(l), "title"@);
    assert(from_panels + collected(ls.take(0), g) =~= from_panels);
    for i in 0..links.len()
        invariant
            ls == ref_views(links@),
            g == (|l: JsonV| text_member(Some(l), "title"@)),
            out.deep_view() == from_panels + collected(ls.take(i as int), g),
    {
        proof {
            lemma_collected_step(ls, g, i as int);
        }
        let ghost before = out.deep_view();
        let title = get_text(Some(links[i]), "title");
        assert(title.deep_view() == g(ls[i as int]));
        if let Some(s) = title {
            out.push(s);
            assert(out.deep_view() =~= before.push(s@));
        }
        assert(out.deep_view() =~= from_panels + collected(ls.take(i + 1), g));
    }
    assert(ls.take(ls.len() as int) =~= ls);
    sort_dedup(out)
}

// ---------------------------------------------------------------------------
// Dashboards
// ---------------------------------------------------------------------------

/// A dashboard that navigates, by its title.
pub open spec fn navigates(title: Seq<char>) -> bool {
    occurs(lowercase(title), "navigation"@)
}

/// The view of a dashboard artifact.
pub open spec fn dashboard_of(a: ArtifactV, ds: Seq<DsEntryV>) -> DashboardV {
    let panels = panels_of(a, ds);
    DashboardV {
        uid: uid_of(a),
        title: title_of(a),
        folder: folder_of(a),
        tags: tags_of(a),
        variables: variables_of(dash_of(a)),
        panels,
        primary_datasource: primary_of(panels),
        is_navigation: navigates(title_of(a)),
        nav_links: if navigates(title_of(a)) {
            nav_links_of(dash_of(a))
        } else {
            Seq::empty()
        },
    }
}

/// The view of one dashboard artifact.
pub fn dashboard_view(artifact: &Artifact, ds: &Vec<DsEntry>) -> (r: DashboardView)
    ensures
        r.deep_view() == dashboard_of(artifact.deep_view(), ds.deep_view()),
{
    let dash = dash_obj(artifact);
    let title = dash_title(artifact);
    let panels = panel_views(artifact, ds);
    let primary_datasource = primary_ds(&panels);
    let is_navigation = holds(to_lowercase(title.as_str()).as_str(), "navigation");
    let links = if is_navigation {
        nav_links(dash)
    } else {
        Vec::new()
    };
    assert(!is_navigation ==> links.deep_view() =~= Seq::<Seq<char>>::empty());
    DashboardView {
        uid: dash_uid(artifact),
        title,
        folder: dash_folder(artifact),
        tags: dash_tags(artifact),
        variables: variables(dash),
        panels,
        primary_datasource,
        is_navigation,
        nav_links: links,
    }
}

/// `a` is not behind `b`: nothing comes before any text.
pub open spec fn opt_text_le(a: Option<Seq<char>>, b: Option<Seq<char>>) -> bool {
    match (a, b) {
        (None, _) => true,
        (Some(x), Some(y)) => text_le(x, y),
        (Some(_), None) => false,
    }
}

/// Pages stand by folder, then title, then uid.
pub open spec fn page_le(a: DashboardV, b: DashboardV) -> bool {
    if a.folder != b.folder {
        opt_text_le(a.folder, b.folder)
    } else if a.title != b.title {
        text_le(a.title, b.title)
    } else {
        text_le(a.uid, b.uid)
    }
}

pub open spec fn page_order() -> spec_fn(DashboardV, DashboardV) -> bool {
    |a: DashboardV, b: DashboardV| page_le(a, b)
}

fn same_option(a: &Option<String>, b: &Option<String>) -> (r: bool)
    ensures
        r == (a.deep_view() == b.deep_view()),
{
    match (a, b) {
        (None, None) => true,
        (Some(x), Some(y)) => same(x.as_str(), y.as_str()),
        _ => false,
    }
}

fn dashboard_le(a: &DashboardView, b: &DashboardView) -> (c: bool)
    ensures
        c == page_le(a.deep_view(), b.deep_view()),
{
    if !same_option(&a.folder, &b.folder) {
        match (&a.folder, &b.folder) {
            (None, _) => true,
            (Some(x), Some(y)) => le(x.as_str(), y.as_str()),
            (Some(_), None) => false,
        }
    } else if !same(a.title.as_str(), b.title.as_str()) {
        le(a.title.as_str(), b.title.as_str())
    } else {
        le(a.uid.as_str(), b.uid.as_str())
    }
}

// ---------------------------------------------------------------------------
// The instance
// ---------------------------------------------------------------------------

/// The name of the folder of an inventory row, where it has one.
pub open spec fn row_folder(row: JsonV) -> Option<Seq<char>> {
    match text_member(Some(row), "folderTitle"@) {
        Some(s) => if s.len() > 0 {
            Some(s)
        } else {
            None
        },
        None => None,
    }
}

/// The number of folders: those of the sidecar, else the distinct ones of the
/// inventory.
pub open spec fn folder_count_of(facts: FactsV) -> nat {
    match facts.folders {
        JsonV::Array(xs) => xs.len(),
        _ => distinct_texts(
            collected(items_of_json(Some(facts.search)), |r: JsonV| row_folder(r)),
        ).len(),
    }
}

fn folder_count(facts: &Facts) -> (n: usize)
    ensures
        n == folder_count_of(facts.deep_view()),
{
    if let Some(xs) = facts.folders.as_array() {
        return xs.len();
    }
    let rows = items_of(Some(facts.search));
    let ghost all = ref_views(rows@);
    let ghost f = |r: JsonV| row_folder(r);
    let mut names: Vec<String> = Vec::new();
    for i in 0..rows.len()
        invariant
            all == ref_views(rows@),
            f == (|r: JsonV| row_folder(r)),
            names.deep_view() == collected(all.take(i as int), f),
    {
        proof {
            lemma_collected_step(all, f, i as int);
        }
        if let Some(s) = get_text(Some(rows[i]), "folderTitle") {
            if crate::text::chars_of(s.as_str()).len() > 0 {
                names.push(s);
            }
        }
        assert(names.deep_view() =~= collected(all.take(i + 1), f));
    }
    assert(all.take(all.len() as int) =~= all);
    let distinct = sort_dedup(names);
    assert(distinct.deep_view().len() == distinct@.len());
    distinct.len()
}

/// The overview line of a datasource.
pub open spec fn ds_view_of(d: DsEntryV) -> DsViewV {
    DsViewV { name: d.name, ds_type: d.ds_type, is_default: d.is_default }
}

/// The instance-wide facts of a report.
pub open spec fn instance_of(
    facts: FactsV,
    ds: Seq<DsEntryV>,
    inventory_total: usize,
    on_disk_total: usize,
) -> InstanceV {
    InstanceV {
        host: facts.host,
        version: text_member(Some(facts.instance), "version"@),
        edition: text_member(Some(facts.instance), "edition"@),
        renderer_available: bool_member(Some(facts.instance), "rendererAvailable"@),
        datasources: ds.map_values(|d: DsEntryV| ds_view_of(d)),
        dashboards_inventory: inventory_total,
        dashboards_on_disk: on_disk_total,
        folders_count: folder_count_of(facts),
    }
}

fn instance_view(
    facts: &Facts,
    ds: &Vec<DsEntry>,
    inventory_total: usize,
    on_disk_total: usize,
) -> (r: InstanceView)
    ensures
        r.deep_view() == instance_of(
            facts.deep_view(),
            ds.deep_view(),
            inventory_total,
            on_disk_total,
        ),
{
    let mut datasources: Vec<DsView> = Vec::new();
    for i in 0..ds.len()
        invariant
            datasources@.len() == i,
            forall|k: int|
                0 <= k < i ==> (#[trigger] datasources@[k]).deep_view() == ds_view_of(
                    ds@[k].deep_view(),
                ),
    {
        let d = &ds[i];
        datasources.push(
            DsView { name: d.name.clone(), ds_type: d.ds_type.clone(), is_default: d.is_default },
        );
    }
    assert(datasources.deep_view() =~= ds.deep_view().map_values(|d: DsEntryV| ds_view_of(d)));
    InstanceView {
        host: facts.host.to_owned(),
        version: get_text(Some(facts.instance), "version"),
        edition: get_text(Some(facts.instance), "edition"),
        renderer_available: get_bool(Some(facts.instance), "rendererAvailable"),
        datasources,
        dashboards_inventory: inventory_total,
        dashboards_on_disk: on_disk_total,
        folders_count: folder_count(facts),
    }
}

/// The report model of the facts and the selected dashboards.
pub open spec fn assembled(
    facts: FactsV,
    dashboards: Seq<ArtifactV>,
    scope: Seq<char>,
    inventory_total: usize,
    on_disk_total: usize,
) -> RenderV {
    let ds = ds_list(facts.datasources);
    RenderV {
        instance: instance_of(facts, ds, inventory_total, on_disk_total),
        generated: facts.generated,
        dashboards: ordered(
            dashboards.map_values(|a: ArtifactV| dashboard_of(a, ds)),
            page_order(),
        ),
        scope,
        inventory_total,
        on_disk_total,
    }
}

impl RenderModel {
    /// Assemble the model from sidecar facts and the selected dashboard
    /// artifacts, with all stable ordering applied.
    pub fn assemble(
        facts: &Facts,
        dashboards: &Vec<Artifact>,
        scope: String,
        inventory_total: usize,
        on_disk_total: usize,
    ) -> (r: RenderModel)
        ensures
            r.deep_view() == assembled(
                facts.deep_view(),
                dashboards.deep_view(),
                scope@,
                inventory_total,
                on_disk_total,
            ),
    {
        let ds = DsEntry::parse_list(facts.datasources);
        let instance = instance_view(facts, &ds, inventory_total, on_disk_total);
        let ghost entries = ds.deep_view();
        let mut views: Vec<DashboardView> = Vec::new();
        for i in 0..dashboards.len()
            invariant
                entries == ds.deep_view(),
                views@.len() == i,
                forall|k: int|
                    0 <= k < i ==> (#[trigger] views@[k]).deep_view() == dashboard_of(
                        dashboards@[k].deep_view(),
                        entries,
                    ),
        {
            views.push(dashboard_view(&dashboards[i], &ds));
        }
        let ghost leq = |a: DashboardView, b: DashboardView|
            page_le(a.deep_view(), b.deep_view());
        let ghost found = views;
        let sorted = sort(views, dashboard_le, Ghost(leq));
        proof {
            let view = |d: DashboardView| d.deep_view();
            lemma_ordered_map(found@, leq, view, page_order());
            assert(sorted.deep_view() =~= sorted@.map_values(view));
            assert(found@.map_values(view) =~= dashboards.deep_view().map_values(
                |a: ArtifactV| dashboard_of(a, entries),
            ));
        }
        RenderModel {
            instance,
            generated: facts.generated,
            dashboards: sorted,
            scope,
            inventory_total,
            on_disk_total,
        }
    }
}

} // verus!
