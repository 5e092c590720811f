//! What the models of values tell of them: every field, and nothing else.

use crate::artifact::{Artifact, Asset, Item};
use crate::grafana::audit::{DashSource, DsRef, DsRefV, Finding};
use crate::grafana::model::{DashboardView, DsView, Facts, InstanceView, PanelView, RenderModel};
use crate::grafana::options::ReportOptions;
use crate::grafana::sql::DsEntry;
use crate::json::{json_view, opt_text, opt_view, ref_views, Json, JsonV, Num};
use crate::redact::{match_views, SecretMatch};
use crate::sidecar::InstanceSidecar;
use crate::store::{opt_time, ListEntry, RootEntry};
use crate::time::Timestamp;
use crate::vector::chunk::Chunk;
use crate::vector::pipeline::vector_views;
use crate::vector::record::VectorRecord;
use crate::vector::uri::{StoreUri, StoreUriV};
use vstd::prelude::*;

verus! {

/// The model of an artifact has its fields, in every item and asset.
pub proof fn law_artifacts_are_viewed(a: Artifact, it: Item, s: Asset)
    ensures
        a.deep_view().schema_version == a.schema_version,
        a.deep_view().source == a.source@,
        a.deep_view().target == a.target@,
        a.deep_view().fetched_at == a.fetched_at@,
        a.deep_view().items == a.items@.map_values(|x: Item| x.deep_view()),
        a.deep_view().assets == a.assets@.map_values(|x: Asset| x.deep_view()),
        a.deep_view().meta == json_view(a.meta),
        it.deep_view().id == it.id@,
        it.deep_view().kind == it.kind,
        it.deep_view().title == (match it.title {
            Some(t) => Some(t@),
            None => None,
        }),
        it.deep_view().text == it.text@,
        it.deep_view().data == (match it.data {
            Some(d) => Some(json_view(d)),
            None => None,
        }),
        it.deep_view().tags == it.tags@.map_values(|t: String| t@),
        s.deep_view().path == s.path@,
        s.deep_view().mime == s.mime@,
        s.deep_view().label == s.label@,
        s.deep_view().item_id == (match s.item_id {
            Some(t) => Some(t@),
            None => None,
        }),
{
    assert(a.items.deep_view() =~= a.items@.map_values(|x: Item| x.deep_view()));
    assert(a.assets.deep_view() =~= a.assets@.map_values(|x: Asset| x.deep_view()));
    assert(it.tags.deep_view() =~= it.tags@.map_values(|t: String| t@));
}

/// The model of a JSON value tells what it is and what it holds.
pub proof fn law_values_are_viewed(j: Json)
    ensures
        j@ == json_view(j),
        j.deep_view() == json_view(j),
        match j {
            Json::Null => json_view(j) == JsonV::Null,
            Json::Bool(b) => json_view(j) == JsonV::Bool(b),
            Json::Number(Num::Unsigned(u)) => json_view(j) == JsonV::Int(u as int),
            Json::Number(Num::Signed(i)) => json_view(j) == JsonV::Int(i as int),
            Json::Number(Num::Float(f)) => json_view(j) is Float,
            Json::Text(s) => json_view(j) == JsonV::Text(s@),
            Json::Array(xs) => json_view(j) == JsonV::Array(xs@.map_values(|x: Json| json_view(x))),
            Json::Object(m) => json_view(j) == JsonV::Object(m@),
        },
{
    if let Json::Array(xs) = j {
        assert(json_view(j)->Array_0 =~= xs@.map_values(|x: Json| json_view(x)));
    }
}

/// What may be missing is viewed where it is there.
pub proof fn law_options_are_viewed(
    text: Option<&str>,
    time: Option<Timestamp>,
    value: Option<&Json>,
    values: Seq<&Json>,
    matches: Seq<SecretMatch>,
)
    ensures
        opt_text(text) == (match text {
            Some(t) => Some(t@),
            None => None,
        }),
        opt_time(time) == (match time {
            Some(t) => Some(t@),
            None => None,
        }),
        opt_view(value) == (match value {
            Some(v) => Some(json_view(*v)),
            None => None,
        }),
        ref_views(values).len() == values.len(),
        forall|i: int|
            0 <= i < values.len() ==> #[trigger] ref_views(values)[i] == json_view(*values[i]),
        match_views(matches).len() == matches.len(),
        forall|i: int|
            0 <= i < matches.len() ==> (#[trigger] match_views(matches)[i]).start
                == matches[i].start && match_views(matches)[i].end == matches[i].end && (
            match_views(matches)[i].quote is Some <==> matches[i].quote is Some) && (matches[i].quote
                is Some ==> match_views(matches)[i].quote->0 == matches[i].quote->0) && (match_views(
                matches,
            )[i].token is Some <==> matches[i].token is Some) && (matches[i].token is Some
                ==> match_views(matches)[i].token->0 == matches[i].token->0),
{
}

/// The models of a sidecar, of an entry of a listing and of what is in the root
/// have their fields.
pub proof fn law_store_values_are_viewed(s: InstanceSidecar, e: ListEntry, r: RootEntry)
    ensures
        s.deep_view().schema_version == s.schema_version,
        s.deep_view().host == s.host@,
        s.deep_view().fetched_at == s.fetched_at@,
        s.deep_view().search == json_view(s.search),
        s.deep_view().datasources == json_view(s.datasources),
        s.deep_view().instance == json_view(s.instance),
        s.deep_view().folders == json_view(s.folders),
        e.deep_view().dir == e.dir@,
        e.deep_view().fetched_at == e.fetched_at@,
        e.deep_view().source == e.source@,
        e.deep_view().target == e.target@,
        r.deep_view().0 == r.name@,
        r.deep_view().1 == r.is_dir,
{
}

/// The models of a finding, of an audited dashboard and of a resolved reference
/// have their fields.
pub proof fn law_audit_values_are_viewed(f: Finding, d: DashSource, r: DsRef)
    ensures
        f.deep_view().severity == f.severity,
        f.deep_view().class == f.class@,
        f.deep_view().source_artifact == f.source_artifact@,
        f.deep_view().dashboard_uid == f.dashboard_uid@,
        f.deep_view().dashboard_title == f.dashboard_title@,
        f.deep_view().panel_id == f.panel_id,
        f.deep_view().panel_title == (match f.panel_title {
            Some(t) => Some(t@),
            None => None,
        }),
        f.deep_view().message == f.message@,
        d.deep_view().path == d.path@,
        d.deep_view().artifact == d.artifact.deep_view(),
        match r {
            DsRef::Known(s) => r.deep_view() == DsRefV::Known(s@),
            DsRef::Variable => r.deep_view() == DsRefV::Variable,
            DsRef::Dead(s) => r.deep_view() == DsRefV::Dead(s@),
        },
{
}

/// The models of a panel and of a dashboard have their fields.
pub proof fn law_dashboards_are_viewed(p: PanelView, d: DashboardView)
    ensures
        p.deep_view().id == p.id,
        p.deep_view().title == p.title@,
        p.deep_view().ptype == p.ptype@,
        p.deep_view().datasource == p.datasource@,
        p.deep_view().value == (match p.value {
            Some(t) => Some(t@),
            None => None,
        }),
        p.deep_view().template_sql == p.template_sql@.map_values(|t: String| t@),
        p.deep_view().executed_sql == p.executed_sql@.map_values(|t: String| t@),
        p.deep_view().sample_rows == (match p.sample_rows {
            Some(t) => Some(t@),
            None => None,
        }),
        d.deep_view().uid == d.uid@,
        d.deep_view().title == d.title@,
        d.deep_view().folder == (match d.folder {
            Some(t) => Some(t@),
            None => None,
        }),
        d.deep_view().tags == d.tags@.map_values(|t: String| t@),
        d.deep_view().variables == d.variables@.map_values(|v: (String, String)| (v.0@, v.1@)),
        d.deep_view().panels == d.panels@.map_values(|x: PanelView| x.deep_view()),
        d.deep_view().primary_datasource == d.primary_datasource@,
        d.deep_view().is_navigation == d.is_navigation,
        d.deep_view().nav_links == d.nav_links@.map_values(|t: String| t@),
{
    assert(p.template_sql.deep_view() =~= p.template_sql@.map_values(|t: String| t@));
    assert(p.executed_sql.deep_view() =~= p.executed_sql@.map_values(|t: String| t@));
    assert(d.tags.deep_view() =~= d.tags@.map_values(|t: String| t@));
    assert(d.variables.deep_view() =~= d.variables@.map_values(
        |v: (String, String)| (v.0@, v.1@),
    ));
    assert(d.panels.deep_view() =~= d.panels@.map_values(|x: PanelView| x.deep_view()));
    assert(d.nav_links.deep_view() =~= d.nav_links@.map_values(|t: String| t@));
}

/// The models of an instance, of a report, of its facts and of its options have
/// their fields.
pub proof fn law_reports_are_viewed(
    i: InstanceView,
    m: RenderModel,
    f: Facts,
    o: ReportOptions,
)
    ensures
        i.deep_view().host == i.host@,
        i.deep_view().version == (match i.version {
            Some(t) => Some(t@),
            None => None,
        }),
        i.deep_view().edition == (match i.edition {
            Some(t) => Some(t@),
            None => None,
        }),
        i.deep_view().renderer_available == i.renderer_available,
        i.deep_view().datasources == i.datasources@.map_values(|d: DsView| d.deep_view()),
        i.deep_view().dashboards_inventory == i.dashboards_inventory,
        i.deep_view().dashboards_on_disk == i.dashboards_on_disk,
        i.deep_view().folders_count == i.folders_count,
        m.deep_view().instance == m.instance.deep_view(),
        m.deep_view().generated == m.generated@,
        m.deep_view().dashboards == m.dashboards@.map_values(|d: DashboardView| d.deep_view()),
        m.deep_view().scope == m.scope@,
        m.deep_view().inventory_total == m.inventory_total,
        m.deep_view().on_disk_total == m.on_disk_total,
        f.deep_view().host == f.host@,
        f.deep_view().generated == f.generated@,
        f.deep_view().search == json_view(*f.search),
        f.deep_view().datasources == json_view(*f.datasources),
        f.deep_view().instance == json_view(*f.instance),
        f.deep_view().folders == json_view(*f.folders),
        o.deep_view().mode == o.mode,
        o.deep_view().data == o.data,
        o.deep_view().window == o.window@,
        o.deep_view().redact == o.redact,
{
    assert(i.datasources.deep_view() =~= i.datasources@.map_values(|d: DsView| d.deep_view()));
    assert(m.dashboards.deep_view() =~= m.dashboards@.map_values(
        |d: DashboardView| d.deep_view(),
    ));
}

/// The models of datasources, as configured and as shown, have their fields.
pub proof fn law_datasources_are_viewed(d: DsEntry, v: DsView)
    ensures
        d.deep_view().name == d.name@,
        d.deep_view().ds_type == d.ds_type@,
        d.deep_view().uid == (match d.uid {
            Some(t) => Some(t@),
            None => None,
        }),
        d.deep_view().is_default == d.is_default,
        v.deep_view().name == v.name@,
        v.deep_view().ds_type == v.ds_type@,
        v.deep_view().is_default == v.is_default,
{
}

/// The models of a chunk, of a record and of the address of a store have their
/// fields.
pub proof fn law_vector_values_are_viewed<T>(
    c: Chunk,
    r: VectorRecord<T>,
    u: StoreUri,
    vectors: Seq<Vec<T>>,
)
    ensures
        c.deep_view().item_id == c.item_id@,
        c.deep_view().seq == c.seq,
        c.deep_view().text == c.text@,
        r.deep_view().source == r.source@,
        r.deep_view().target == r.target@,
        r.deep_view().item_id == r.item_id@,
        r.deep_view().seq == r.seq,
        r.deep_view().text == r.text@,
        r.deep_view().vector == r.vector@,
        match u {
            StoreUri::Lance { path } => u.deep_view() == (StoreUriV::Lance { path: path@ }),
            StoreUri::Qdrant { url, collection } => u.deep_view() == (StoreUriV::Qdrant {
                url: url@,
                collection: collection@,
            }),
        },
        vector_views(vectors).len() == vectors.len(),
        forall|i: int|
            0 <= i < vectors.len() ==> #[trigger] vector_views(vectors)[i] == vectors[i]@,
{
}

} // verus!
