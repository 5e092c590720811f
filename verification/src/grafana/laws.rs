//! What the report model and the audit guarantee.

use crate::artifact::ArtifactV;
use crate::collect::{
    collected, flattened, lemma_collected_from, lemma_collected_has, lemma_collected_other,
    lemma_collected_two, lemma_first_some_from, lemma_flattened_from, lemma_flattened_has,
};
use crate::grafana::audit::{
    all_findings, audit_of, broken_findings, broken_on, broken_query, by_uid, dashboard_findings,
    data_for, dead_findings, dead_on, ds_ref_of, duplicate_finding, duplicate_findings,
    empty_findings, empty_on, errors_of, finding_le, finding_order, group_findings, group_of,
    identity_if, identity_of, paired, print_of, referenced_in, severity_label, severity_rank,
    unused_findings, unused_on, DashSourceV, FindingV, Severity,
};
use crate::grafana::fingerprint::solid_panels;
use crate::grafana::model::{
    assembled, by_id, by_name, dash_of, dashboard_of, most_common, page_le, page_order, primary_of,
    texts_of, DashboardV, FactsV, PanelV,
};
use crate::grafana::options::{Mode, ReportOptionsV};
use crate::grafana::render::{header_text, shown};
use crate::grafana::report::{built_text, facts_of, findings_text, group_text, row_if};
use crate::grafana::sql::{
    ds_list, ds_name_if, ds_name_of, executed_sql_of, found_ds, frame_executed_sql,
    result_executed_sql_of, DsBy, DsEntryV,
};
use crate::json::{items_of_json, json_text, member, members_of_json, text_member, JsonV};
use crate::masking::law_no_secret_survives;
use crate::order::{
    ascending, distinct_texts, law_distinct_texts, lemma_ascending_unique, lemma_map_multiset,
    lemma_occurrences, lemma_ordered_ascending, lemma_ordered_multiset, lemma_runs,
    lemma_text_order, occurrences, ordered, sorted_texts, tally, text_order, total_preorder,
};
use crate::secrets::{is_secret, mask_from, mask_to, MASK, Secret};
use crate::sidecar::InstanceSidecar;
use crate::text::{
    lemma_text_le_antisymmetric, lemma_text_le_reflexive, lemma_text_le_total,
    lemma_text_le_transitive, occurs, occurs_at, text_le,
};
use vstd::prelude::*;

verus! {

proof fn lemma_finding_order()
    ensures
        total_preorder(finding_order()),
{
    assert forall|a: FindingV, b: FindingV| #[trigger] finding_order()(a, b) || finding_order()(
        b,
        a,
    ) by {
        lemma_text_le_total(a.class, b.class);
        lemma_text_le_total(a.dashboard_uid, b.dashboard_uid);
        lemma_text_le_total(a.message, b.message);
    }
    assert forall|a: FindingV, b: FindingV, c: FindingV| #[trigger]
        finding_order()(a, b) && #[trigger] finding_order()(b, c) implies finding_order()(a, c) by {
        lemma_finding_le_transitive(a, b, c);
    }
}

proof fn lemma_chain(x: Seq<char>, y: Seq<char>, z: Seq<char>)
    requires
        text_le(x, y),
        text_le(y, z),
    ensures
        text_le(x, z),
        x == z ==> x == y,
{
    lemma_text_le_transitive(x, y, z);
    if x == z {
        lemma_text_le_antisymmetric(x, y);
    }
}

proof fn lemma_finding_le_transitive(a: FindingV, b: FindingV, c: FindingV)
    requires
        finding_le(a, b),
        finding_le(b, c),
    ensures
        finding_le(a, c),
{
    if a.severity == b.severity && b.severity == c.severity {
        lemma_text_le_reflexive(a.class);
        lemma_text_le_reflexive(b.class);
        lemma_chain(a.class, b.class, c.class);
        if a.class == b.class && b.class == c.class {
            lemma_text_le_reflexive(a.dashboard_uid);
            lemma_text_le_reflexive(b.dashboard_uid);
            lemma_chain(a.dashboard_uid, b.dashboard_uid, c.dashboard_uid);
            if a.dashboard_uid == b.dashboard_uid && b.dashboard_uid == c.dashboard_uid {
                if a.panel_id == b.panel_id && b.panel_id == c.panel_id {
                    lemma_text_le_transitive(a.message, b.message, c.message);
                }
            }
        }
    }
}

/// The findings of an audit stand in their order: by severity, then class,
/// dashboard, panel and message. Sorting loses none and adds none.
pub proof fn law_findings_are_ordered(ds: Seq<DsEntryV>, dashboards: Seq<DashSourceV>)
    ensures
        ascending(audit_of(ds, dashboards), finding_order()),
        audit_of(ds, dashboards).to_multiset() == all_findings(ds, dashboards).to_multiset(),
{
    lemma_finding_order();
    lemma_ordered_ascending(all_findings(ds, dashboards), finding_order());
    lemma_ordered_multiset(all_findings(ds, dashboards), finding_order());
}

proof fn lemma_page_le_transitive(a: DashboardV, b: DashboardV, c: DashboardV)
    requires
        page_le(a, b),
        page_le(b, c),
    ensures
        page_le(a, c),
{
    if a.folder is Some && b.folder is Some && c.folder is Some {
        lemma_text_le_reflexive(a.folder->0);
        lemma_text_le_reflexive(b.folder->0);
        lemma_chain(a.folder->0, b.folder->0, c.folder->0);
    }
    if a.folder == b.folder && b.folder == c.folder {
        lemma_text_le_reflexive(a.title);
        lemma_text_le_reflexive(b.title);
        lemma_chain(a.title, b.title, c.title);
        if a.title == b.title && b.title == c.title {
            lemma_text_le_transitive(a.uid, b.uid, c.uid);
        }
    }
}

proof fn lemma_page_order()
    ensures
        total_preorder(page_order()),
{
    assert forall|a: DashboardV, b: DashboardV| #[trigger] page_order()(a, b) || page_order()(
        b,
        a,
    ) by {
        if a.folder is Some && b.folder is Some {
            lemma_text_le_total(a.folder->0, b.folder->0);
        }
        lemma_text_le_total(a.title, b.title);
        lemma_text_le_total(a.uid, b.uid);
    }
    assert forall|a: DashboardV, b: DashboardV, c: DashboardV| #[trigger]
        page_order()(a, b) && #[trigger] page_order()(b, c) implies page_order()(a, c) by {
        lemma_page_le_transitive(a, b, c);
    }
}

/// The pages of a report stand by folder, title and uid; none is lost or added.
pub proof fn law_pages_are_ordered(
    facts: FactsV,
    dashboards: Seq<ArtifactV>,
    scope: Seq<char>,
    inventory_total: usize,
    on_disk_total: usize,
)
    ensures
        ascending(
            assembled(facts, dashboards, scope, inventory_total, on_disk_total).dashboards,
            page_order(),
        ),
        assembled(
            facts,
            dashboards,
            scope,
            inventory_total,
            on_disk_total,
        ).dashboards.to_multiset() == dashboards.map_values(
            |a: ArtifactV| dashboard_of(a, ds_list(facts.datasources)),
        ).to_multiset(),
{
    lemma_page_order();
    let ds = ds_list(facts.datasources);
    let pages = dashboards.map_values(|a: ArtifactV| dashboard_of(a, ds));
    lemma_ordered_ascending(pages, page_order());
    lemma_ordered_multiset(pages, page_order());
}

/// What a page is placed by.
pub open spec fn page_key(d: DashboardV) -> (Option<Seq<char>>, Seq<char>, Seq<char>) {
    (d.folder, d.title, d.uid)
}

proof fn lemma_same_place(a: DashboardV, b: DashboardV)
    requires
        page_le(a, b),
        page_le(b, a),
    ensures
        page_key(a) == page_key(b),
{
    if a.folder is Some && b.folder is Some && text_le(a.folder->0, b.folder->0) && text_le(
        b.folder->0,
        a.folder->0,
    ) {
        lemma_text_le_antisymmetric(a.folder->0, b.folder->0);
    }
    if text_le(a.title, b.title) && text_le(b.title, a.title) {
        lemma_text_le_antisymmetric(a.title, b.title);
    }
    if text_le(a.uid, b.uid) && text_le(b.uid, a.uid) {
        lemma_text_le_antisymmetric(a.uid, b.uid);
    }
}

/// The report model does not depend on the order in which the dashboards are
/// given, where no two of them agree in folder, title and uid.
pub proof fn law_model_ignores_order(
    facts: FactsV,
    a: Seq<ArtifactV>,
    b: Seq<ArtifactV>,
    scope: Seq<char>,
    inventory_total: usize,
    on_disk_total: usize,
)
    requires
        a.to_multiset() == b.to_multiset(),
        forall|i: int, j: int|
            0 <= i < j < a.len() ==> page_key(
                dashboard_of(#[trigger] a[i], ds_list(facts.datasources)),
            ) != page_key(dashboard_of(#[trigger] a[j], ds_list(facts.datasources))),
    ensures
        assembled(facts, a, scope, inventory_total, on_disk_total) == assembled(
            facts,
            b,
            scope,
            inventory_total,
            on_disk_total,
        ),
{
    broadcast use vstd::seq_lib::group_to_multiset_ensures;

    let ds = ds_list(facts.datasources);
    let f = |x: ArtifactV| dashboard_of(x, ds);
    let pages = a.map_values(f);
    let others = b.map_values(f);
    lemma_map_multiset(a, b, f);
    lemma_page_order();
    lemma_ordered_ascending(pages, page_order());
    lemma_ordered_ascending(others, page_order());
    lemma_ordered_multiset(pages, page_order());
    lemma_ordered_multiset(others, page_order());
    let xs = ordered(pages, page_order());
    assert forall|i: int, j: int|
        0 <= i < xs.len() && 0 <= j < xs.len() && page_order()(
            #[trigger] xs[i],
            #[trigger] xs[j],
        ) && page_order()(xs[j], xs[i]) implies xs[i] == xs[j] by {
        lemma_same_place(xs[i], xs[j]);
        assert(xs.contains(xs[i]) && xs.contains(xs[j]));
        assert(pages.to_multiset().count(xs[i]) > 0 && pages.to_multiset().count(xs[j]) > 0);
        assert(pages.contains(xs[i]) && pages.contains(xs[j]));
        let k = choose|k: int| 0 <= k < pages.len() && pages[k] == xs[i];
        let l = choose|l: int| 0 <= l < pages.len() && pages[l] == xs[j];
        assert(pages[k] == dashboard_of(a[k], ds) && pages[l] == dashboard_of(a[l], ds));
    }
    lemma_ascending_unique(xs, ordered(others, page_order()), page_order());
}

/// The panels of a page stand by id.
pub proof fn law_panels_are_ordered(a: ArtifactV, ds: Seq<DsEntryV>)
    ensures
        ascending(dashboard_of(a, ds).panels, by_id()),
{
    let found = collected(
        crate::grafana::model::panel_list(crate::grafana::model::dash_of(a)),
        |p: JsonV| crate::grafana::model::panel_of(p, a, ds),
    );
    assert(total_preorder(by_id()));
    lemma_ordered_ascending(found, by_id());
}

/// The tags of a page stand in lexicographic order; none is lost or added.
pub proof fn law_tags_are_ordered(a: ArtifactV, ds: Seq<DsEntryV>)
    ensures
        ascending(dashboard_of(a, ds).tags, text_order()),
        dashboard_of(a, ds).tags.to_multiset() == texts_of(
            member(dash_of(a), "tags"@),
        ).to_multiset(),
{
    let found = texts_of(member(dash_of(a), "tags"@));
    lemma_text_order();
    lemma_ordered_ascending(found, text_order());
    lemma_ordered_multiset(found, text_order());
}

/// The variables of a page stand by name.
pub proof fn law_variables_are_ordered(a: ArtifactV, ds: Seq<DsEntryV>)
    ensures
        ascending(dashboard_of(a, ds).variables, by_name()),
{
    let found = collected(
        crate::grafana::model::templating_list(crate::grafana::model::dash_of(a)),
        |v: JsonV| crate::grafana::model::variable_of(v),
    );
    assert(total_preorder(by_name())) by {
        assert forall|x: (Seq<char>, Seq<char>), y: (Seq<char>, Seq<char>)| #[trigger]
            by_name()(x, y) || by_name()(y, x) by {
            lemma_text_le_total(x.0, y.0);
        }
        assert forall|
            x: (Seq<char>, Seq<char>),
            y: (Seq<char>, Seq<char>),
            z: (Seq<char>, Seq<char>),
        | #[trigger] by_name()(x, y) && #[trigger] by_name()(y, z) implies by_name()(x, z) by {
            lemma_text_le_transitive(x.0, y.0, z.0);
        }
    }
    lemma_ordered_ascending(found, by_name());
}

/// The most common entry has the highest count, and all before it have less.
proof fn lemma_most_common(t: Seq<(Seq<char>, nat)>) -> (b: int)
    requires
        t.len() > 0,
    ensures
        0 <= b < t.len(),
        most_common(t) == Some(t[b]),
        forall|k: int| 0 <= k < t.len() ==> (#[trigger] t[k]).1 <= t[b].1,
        forall|k: int| 0 <= k < b ==> (#[trigger] t[k]).1 < t[b].1,
    decreases t.len(),
{
    let init = t.drop_last();
    if init.len() == 0 {
        0
    } else {
        let b = lemma_most_common(init);
        assert forall|k: int| 0 <= k < init.len() implies (#[trigger] t[k]).1 <= init[b].1 by {
            assert(init[k] == t[k]);
        }
        assert forall|k: int| 0 <= k < b implies (#[trigger] t[k]).1 < init[b].1 by {
            assert(init[k] == t[k]);
        }
        if t.last().1 > init[b].1 {
            t.len() - 1
        } else {
            b
        }
    }
}

/// The primary datasource is the one of some panel, no datasource has more panels
/// than it, and of those that have as many it is the lexicographically first.
pub proof fn law_primary_is_the_most_common(panels: Seq<PanelV>)
    ensures
        ({
            let names = panels.map_values(|p: PanelV| p.datasource);
            let primary = primary_of(panels);
            &&& panels.len() == 0 ==> primary == "—"@
            &&& panels.len() > 0 ==> names.contains(primary)
            &&& forall|n: Seq<char>|
                #![trigger occurrences(names, n)]
                names.contains(n) ==> occurrences(names, n) <= occurrences(names, primary) && (
                occurrences(names, n) == occurrences(names, primary) ==> text_le(primary, n))
        }),
{
    let names = panels.map_values(|p: PanelV| p.datasource);
    let keys = distinct_texts(names);
    let t = tally(names);
    law_distinct_texts(names);
    if panels.len() == 0 {
        if keys.len() > 0 {
            assert(keys.contains(keys[0]));
            assert(names.contains(keys[0]));
        }
    } else {
        assert(names.contains(names[0]));
        assert(keys.contains(names[0]));
        let b = lemma_most_common(t);
        let primary = keys[b];
        assert(t[b] == (primary, occurrences(names, primary)));
        assert(keys.contains(primary));
        assert forall|n: Seq<char>|
            #![trigger occurrences(names, n)]
            names.contains(n) implies occurrences(names, n) <= occurrences(names, primary) && (
        occurrences(names, n) == occurrences(names, primary) ==> text_le(primary, n)) by {
            assert(keys.contains(n));
            let k = choose|k: int| 0 <= k < keys.len() && keys[k] == n;
            assert(t[k] == (n, occurrences(names, n)));
            if k == b {
                lemma_text_le_reflexive(n);
            } else if b < k {
                assert(text_order()(keys[b], keys[k]));
            }
        }
    }
}

/// The primary datasource does not depend on the order of the panels.
pub proof fn law_primary_ignores_order(a: Seq<PanelV>, b: Seq<PanelV>)
    requires
        a.map_values(|p: PanelV| p.datasource).to_multiset() == b.map_values(
            |p: PanelV| p.datasource,
        ).to_multiset(),
    ensures
        primary_of(a) == primary_of(b),
{
    broadcast use vstd::seq_lib::group_to_multiset_ensures;

    let x = a.map_values(|p: PanelV| p.datasource);
    let y = b.map_values(|p: PanelV| p.datasource);
    assert(x.len() == x.to_multiset().len() && y.len() == y.to_multiset().len());
    let p = primary_of(a);
    let q = primary_of(b);
    law_primary_is_the_most_common(a);
    law_primary_is_the_most_common(b);
    if x.len() > 0 {
        assert(x.to_multiset().count(p) > 0 && y.to_multiset().count(q) > 0);
        assert(x.contains(q) && y.contains(p));
        lemma_occurrences(x, p);
        lemma_occurrences(y, p);
        lemma_occurrences(x, q);
        lemma_occurrences(y, q);
        lemma_text_le_antisymmetric(p, q);
    }
}

// ---------------------------------------------------------------------------
// Duplicates
// ---------------------------------------------------------------------------

pub proof fn lemma_ordered_contains<A>(xs: Seq<A>, leq: spec_fn(A, A) -> bool, x: A)
    ensures
        ordered(xs, leq).contains(x) <==> xs.contains(x),
{
    broadcast use vstd::seq_lib::group_to_multiset_ensures;

    lemma_ordered_multiset(xs, leq);
    assert(ordered(xs, leq).to_multiset().count(x) > 0 <==> ordered(xs, leq).contains(x));
    assert(xs.to_multiset().count(x) > 0 <==> xs.contains(x));
}

pub proof fn lemma_distinct_contains(xs: Seq<Seq<char>>, x: Seq<char>)
    ensures
        distinct_texts(xs).contains(x) <==> xs.contains(x),
{
    lemma_runs(sorted_texts(xs));
    lemma_ordered_contains(xs, text_order(), x);
}

/// Dashboards that share a fingerprint are reported, each of them, whatever
/// their titles are.
pub proof fn law_duplicates_are_reported(dashboards: Seq<DashSourceV>, i: int, j: int)
    requires
        0 <= i < dashboards.len(),
        0 <= j < dashboards.len(),
        i != j,
        print_of(dashboards[i]) == print_of(dashboards[j]),
    ensures
        exists|k: int|
            0 <= k < duplicate_findings(dashboards).len() && {
                let finding = #[trigger] duplicate_findings(dashboards)[k];
                &&& finding.class == "duplicate-dashboard"@
                &&& finding.dashboard_uid == identity_of(dashboards[i]).0
                &&& finding.dashboard_title == identity_of(dashboards[i]).1
                &&& finding.source_artifact == identity_of(dashboards[i]).2
            },
{
    let fp = print_of(dashboards[i]);
    let prints = dashboards.map_values(|d: DashSourceV| print_of(d));
    let keys = distinct_texts(prints);
    assert(prints[i] == fp);
    assert(prints.contains(fp));
    lemma_distinct_contains(prints, fp);
    let n = choose|n: int| 0 <= n < keys.len() && keys[n] == fp;
    let f = |d: DashSourceV| identity_if(d, fp);
    let found = collected(dashboards, f);
    assert(f(dashboards[i]) is Some && f(dashboards[j]) is Some);
    if i < j {
        lemma_collected_two(dashboards, f, i, j);
    } else {
        lemma_collected_two(dashboards, f, j, i);
    }
    lemma_collected_has(dashboards, f, i);
    let members = group_of(dashboards, fp);
    lemma_ordered_multiset(found, by_uid());
    lemma_ordered_contains(found, by_uid(), identity_of(dashboards[i]));
    let m = choose|m: int| 0 <= m < members.len() && members[m] == identity_of(dashboards[i]);
    let finding = duplicate_finding(fp, members[0].0, members.len(), m == 0, members[m]);
    assert(group_findings(fp, members)[m] == finding);
    assert(group_findings(fp, members).contains(finding));
    let g = |fp: Seq<char>| group_findings(fp, group_of(dashboards, fp));
    assert(g(keys[n]) == group_findings(fp, members));
    lemma_flattened_has(keys, g, n, finding);
    let k = choose|k: int|
        0 <= k < duplicate_findings(dashboards).len() && duplicate_findings(dashboards)[k]
            == finding;
    assert(duplicate_findings(dashboards)[k].class == "duplicate-dashboard"@);
}

/// Only dashboards that share a fingerprint with another one are reported: the
/// same title is not enough.
pub proof fn law_only_duplicates_are_reported(dashboards: Seq<DashSourceV>, k: int)
    requires
        0 <= k < duplicate_findings(dashboards).len(),
    ensures
        exists|i: int, j: int|
            0 <= i < dashboards.len() && 0 <= j < dashboards.len() && i != j && print_of(
                #[trigger] dashboards[i],
            ) == print_of(#[trigger] dashboards[j]) && {
                let finding = duplicate_findings(dashboards)[k];
                &&& finding.dashboard_uid == identity_of(dashboards[i]).0
                &&& finding.dashboard_title == identity_of(dashboards[i]).1
                &&& finding.source_artifact == identity_of(dashboards[i]).2
            },
{
    let prints = dashboards.map_values(|d: DashSourceV| print_of(d));
    let keys = distinct_texts(prints);
    let g = |fp: Seq<char>| group_findings(fp, group_of(dashboards, fp));
    let finding = duplicate_findings(dashboards)[k];
    assert(flattened(keys, g).contains(finding));
    let n = lemma_flattened_from(keys, g, finding);
    let fp = keys[n];
    let members = group_of(dashboards, fp);
    let m = choose|m: int|
        0 <= m < group_findings(fp, members).len() && group_findings(fp, members)[m] == finding;
    assert(members.len() >= 2);
    assert(finding == duplicate_finding(fp, members[0].0, members.len(), m == 0, members[m]));
    let f = |d: DashSourceV| identity_if(d, fp);
    let found = collected(dashboards, f);
    lemma_ordered_multiset(found, by_uid());
    assert(members.contains(members[m]));
    lemma_ordered_contains(found, by_uid(), members[m]);
    let i = lemma_collected_from(dashboards, f, members[m]);
    let j = lemma_collected_other(dashboards, f, i);
    assert(print_of(dashboards[i]) == print_of(dashboards[j]));
}

// ---------------------------------------------------------------------------
// Datasources
// ---------------------------------------------------------------------------

proof fn lemma_found_ds(ds: Seq<DsEntryV>, by: DsBy, s: Seq<char>) -> (i: int)
    requires
        found_ds(ds, by, s) is Some,
    ensures
        0 <= i < ds.len(),
        Some(ds[i].name) == found_ds(ds, by, s),
{
    lemma_first_some_from(ds, |d: DsEntryV| ds_name_if(d, by, s))
}

/// A reference that resolves, resolves to a configured datasource: the audit
/// never invents a match.
pub proof fn law_known_is_configured(ds_ref: Option<JsonV>, ds: Seq<DsEntryV>)
    requires
        ds_ref_of(ds_ref, ds) is Known,
    ensures
        exists|i: int| 0 <= i < ds.len() && (#[trigger] ds[i]).name == ds_ref_of(ds_ref, ds)->Known_0,
{
    let name = ds_ref_of(ds_ref, ds)->Known_0;
    let default = found_ds(ds, DsBy::Default, ""@);
    if default == Some(name) {
        let i = lemma_found_ds(ds, DsBy::Default, ""@);
        assert(ds[i].name == name);
    } else if let Some(JsonV::Text(s)) = ds_ref {
        let i = lemma_found_ds(ds, DsBy::NameOrUid, s);
        assert(ds[i].name == name);
    } else {
        let obj = ds_ref->0;
        if let Some(uid) = text_member(Some(obj), "uid"@) {
            let i = lemma_found_ds(ds, DsBy::Uid, uid);
            assert(ds[i].name == name);
        } else {
            let i = lemma_found_ds(ds, DsBy::Type, text_member(Some(obj), "type"@)->0);
            assert(ds[i].name == name);
        }
    }
}

/// A display name is never made up: it is the name of a configured datasource, or
/// the reference itself, or, where nothing is referenced, the default.
pub proof fn law_names_are_not_invented(ds_ref: Option<JsonV>, ds: Seq<DsEntryV>)
    ensures
        ({
            let name = ds_name_of(ds_ref, ds);
            ||| exists|i: int| 0 <= i < ds.len() && (#[trigger] ds[i]).name == name
            ||| ds_ref == Some(JsonV::Text(name))
            ||| text_member(ds_ref, "uid"@) == Some(name)
            ||| text_member(ds_ref, "uid"@) is None && text_member(ds_ref, "type"@) == Some(name)
            ||| ds_ref is Some && name == json_text(ds_ref->0)
            ||| name == "default"@
        }),
        text_member(ds_ref, "uid"@) matches Some(uid) ==> ds_name_of(ds_ref, ds) == uid || exists|
            i: int,
        |
            0 <= i < ds.len() && (#[trigger] ds[i]).name == ds_name_of(ds_ref, ds) && ds[i].uid
                == Some(uid),
{
    let name = ds_name_of(ds_ref, ds);
    if found_ds(ds, DsBy::Default, ""@) == Some(name) {
        let i = lemma_found_ds(ds, DsBy::Default, ""@);
        assert(ds[i].name == name);
    }
    if let Some(JsonV::Text(s)) = ds_ref {
        if found_ds(ds, DsBy::NameOrUid, s) == Some(name) {
            let i = lemma_found_ds(ds, DsBy::NameOrUid, s);
            assert(ds[i].name == name);
        }
    }
    if let Some(uid) = text_member(ds_ref, "uid"@) {
        if found_ds(ds, DsBy::Uid, uid) == Some(name) {
            let i = lemma_first_some_from(ds, |d: DsEntryV| ds_name_if(d, DsBy::Uid, uid));
            assert(ds[i].name == name && ds[i].uid == Some(uid));
        }
    }
    if let Some(ty) = text_member(ds_ref, "type"@) {
        if found_ds(ds, DsBy::Type, ty) == Some(name) {
            let i = lemma_found_ds(ds, DsBy::Type, ty);
            assert(ds[i].name == name);
        }
    }
}

// ---------------------------------------------------------------------------
// The checks of the audit
// ---------------------------------------------------------------------------

proof fn lemma_in_audit(ds: Seq<DsEntryV>, dashboards: Seq<DashSourceV>, i: int, f: FindingV)
    requires
        0 <= i < dashboards.len(),
        dashboard_findings(dashboards[i], ds).contains(f),
    ensures
        audit_of(ds, dashboards).contains(f),
{
    let g = |d: DashSourceV| dashboard_findings(d, ds);
    lemma_flattened_has(dashboards, g, i, f);
    let found = flattened(dashboards, g);
    let k = choose|k: int| 0 <= k < found.len() && found[k] == f;
    assert(all_findings(ds, dashboards)[k] == f);
    lemma_ordered_contains(all_findings(ds, dashboards), finding_order(), f);
}

/// A panel whose datasource is not configured is reported.
pub proof fn law_dead_references_are_reported(
    ds: Seq<DsEntryV>,
    dashboards: Seq<DashSourceV>,
    i: int,
    p: int,
)
    requires
        0 <= i < dashboards.len(),
        0 <= p < solid_panels(dash_of(dashboards[i].artifact)).len(),
        ds_ref_of(
            member(Some(solid_panels(dash_of(dashboards[i].artifact))[p]), "datasource"@),
            ds,
        ) is Dead,
    ensures
        audit_of(ds, dashboards).contains(
            dead_on(dashboards[i], solid_panels(dash_of(dashboards[i].artifact))[p], ds)->0,
        ),
{
    let d = dashboards[i];
    let panels = solid_panels(dash_of(d.artifact));
    let f = |q: JsonV| dead_on(d, q, ds);
    lemma_collected_has(panels, f, p);
    let finding = dead_on(d, panels[p], ds)->0;
    let dead = dead_findings(d, ds);
    let k = choose|k: int| 0 <= k < dead.len() && dead[k] == finding;
    assert(dashboard_findings(d, ds)[k] == finding);
    lemma_in_audit(ds, dashboards, i, finding);
}

/// A panel whose query ran without an error and returned no row is reported.
pub proof fn law_empty_panels_are_reported(
    ds: Seq<DsEntryV>,
    dashboards: Seq<DashSourceV>,
    i: int,
    p: int,
)
    requires
        0 <= i < dashboards.len(),
        0 <= p < solid_panels(dash_of(dashboards[i].artifact)).len(),
        empty_on(dashboards[i], solid_panels(dash_of(dashboards[i].artifact))[p]) is Some,
    ensures
        audit_of(ds, dashboards).contains(
            empty_on(dashboards[i], solid_panels(dash_of(dashboards[i].artifact))[p])->0,
        ),
{
    let d = dashboards[i];
    let panels = solid_panels(dash_of(d.artifact));
    let f = |q: JsonV| empty_on(d, q);
    lemma_collected_has(panels, f, p);
    let finding = empty_on(d, panels[p])->0;
    let empty = empty_findings(d);
    let k = choose|k: int| 0 <= k < empty.len() && empty[k] == finding;
    let before = dead_findings(d, ds).len() + broken_findings(d).len();
    assert(dashboard_findings(d, ds)[before + k] == finding);
    lemma_in_audit(ds, dashboards, i, finding);
}

/// A query that failed is reported, and its panel is not taken for an empty one.
pub proof fn law_broken_queries_are_reported(
    ds: Seq<DsEntryV>,
    dashboards: Seq<DashSourceV>,
    i: int,
    p: int,
    e: int,
)
    requires
        0 <= i < dashboards.len(),
        0 <= p < solid_panels(dash_of(dashboards[i].artifact)).len(),
        data_for(dashboards[i], solid_panels(dash_of(dashboards[i].artifact))[p]) is Some,
        0 <= e < errors_of(
            data_for(dashboards[i], solid_panels(dash_of(dashboards[i].artifact))[p])->0,
        ).len(),
    ensures
        ({
            let panel = solid_panels(dash_of(dashboards[i].artifact))[p];
            let error = errors_of(data_for(dashboards[i], panel)->0)[e];
            &&& audit_of(ds, dashboards).contains(broken_query(dashboards[i], panel, error))
            &&& empty_on(dashboards[i], panel) is None
        }),
{
    let d = dashboards[i];
    let panels = solid_panels(dash_of(d.artifact));
    let finding = broken_query(d, panels[p], errors_of(data_for(d, panels[p])->0)[e]);
    assert(broken_on(d, panels[p])[e] == finding);
    assert(broken_on(d, panels[p]).contains(finding));
    let f = |q: JsonV| broken_on(d, q);
    lemma_flattened_has(panels, f, p, finding);
    let broken = broken_findings(d);
    let k = choose|k: int| 0 <= k < broken.len() && broken[k] == finding;
    assert(dashboard_findings(d, ds)[dead_findings(d, ds).len() + k] == finding);
    lemma_in_audit(ds, dashboards, i, finding);
}

/// A configured datasource that no panel references is reported.
pub proof fn law_unused_datasources_are_reported(
    ds: Seq<DsEntryV>,
    dashboards: Seq<DashSourceV>,
    i: int,
)
    requires
        0 <= i < ds.len(),
        !flattened(dashboards, |d: DashSourceV| referenced_in(d, ds)).contains(ds[i].name),
    ensures
        audit_of(ds, dashboards).contains(
            unused_on(
                (ds[i].name, ds[i].ds_type),
                flattened(dashboards, |d: DashSourceV| referenced_in(d, ds)),
            )->0,
        ),
{
    let referenced = flattened(dashboards, |d: DashSourceV| referenced_in(d, ds));
    let names = ds.map_values(|d: DsEntryV| (d.name, d.ds_type));
    let sorted = ordered(names, by_name());
    let f = |d: (Seq<char>, Seq<char>)| unused_on(d, referenced);
    assert(names[i] == (ds[i].name, ds[i].ds_type));
    assert(names.contains(names[i]));
    lemma_ordered_contains(names, by_name(), names[i]);
    let n = choose|n: int| 0 <= n < sorted.len() && sorted[n] == names[i];
    lemma_collected_has(sorted, f, n);
    let finding = unused_on(names[i], referenced)->0;
    let unused = unused_findings(ds, referenced);
    assert(unused.contains(finding));
    let k = choose|k: int| 0 <= k < unused.len() && unused[k] == finding;
    let all = all_findings(ds, dashboards);
    assert(all[all.len() - unused.len() + k] == finding);
    assert(all.contains(finding));
    lemma_ordered_contains(all, finding_order(), finding);
}

/// A datasource that some panel references is not reported as unused.
pub proof fn law_only_unused_datasources_are_reported(
    ds: Seq<DsEntryV>,
    referenced: Seq<Seq<char>>,
    finding: FindingV,
)
    requires
        unused_findings(ds, referenced).contains(finding),
    ensures
        exists|i: int|
            0 <= i < ds.len() && !referenced.contains((#[trigger] ds[i]).name) && unused_on(
                (ds[i].name, ds[i].ds_type),
                referenced,
            ) == Some(finding),
{
    let names = ds.map_values(|d: DsEntryV| (d.name, d.ds_type));
    let sorted = ordered(names, by_name());
    let n = lemma_collected_from(
        sorted,
        |d: (Seq<char>, Seq<char>)| unused_on(d, referenced),
        finding,
    );
    assert(sorted.contains(sorted[n]));
    lemma_ordered_contains(names, by_name(), sorted[n]);
    let i = choose|i: int| 0 <= i < names.len() && names[i] == sorted[n];
    assert(!referenced.contains(ds[i].name));
}

// ---------------------------------------------------------------------------
// What a page shows
// ---------------------------------------------------------------------------

/// Executed SQL is never made up: each text stands in the response, as the
/// executed query of a result or of one of its frames.
pub proof fn law_executed_sql_is_exposed(data: JsonV, sql: Seq<char>)
    requires
        executed_sql_of(data).contains(sql),
    ensures
        exists|i: int|
            0 <= i < members_of_json(member(Some(data), "results"@)).len() && exposes(
                (#[trigger] members_of_json(member(Some(data), "results"@))[i]).1,
                sql,
            ),
{
    let results = members_of_json(member(Some(data), "results"@));
    let i = lemma_collected_from(
        results,
        |m: (Seq<char>, JsonV)| result_executed_sql_of(m.1),
        sql,
    );
    let result = results[i].1;
    if text_member(member(Some(result), "meta"@), "executedQueryString"@) is None {
        let frames = items_of_json(member(Some(result), "frames"@));
        let k = lemma_first_some_from(frames, |f: JsonV| frame_executed_sql(f));
        assert(frame_executed_sql(frames[k]) == Some(sql));
    }
    assert(exposes(results[i].1, sql));
}

/// `sql` is the executed query of a result or of one of its frames.
pub open spec fn exposes(result: JsonV, sql: Seq<char>) -> bool {
    let frames = items_of_json(member(Some(result), "frames"@));
    ||| text_member(member(Some(result), "meta"@), "executedQueryString"@) == Some(sql)
    ||| exists|k: int|
        0 <= k < frames.len() && #[trigger] frame_executed_sql(frames[k]) == Some(sql)
}

/// With redaction on, whatever still has the shape of a secret in a shown text
/// is an assignment whose literal is the mask.
pub proof fn law_shown_text_hides_secrets(s: Seq<char>, x: Secret)
    requires
        is_secret(shown(true, s), x),
    ensures
        x.quote is Some,
        shown(true, s).subrange(mask_from(x), mask_to(x)) == MASK@,
{
    law_no_secret_survives(s, x);
}

// ---------------------------------------------------------------------------
// The headings of an audit report
// ---------------------------------------------------------------------------

/// Some finding has the severity.
pub open spec fn has_severity(findings: Seq<FindingV>, severity: Severity) -> bool {
    exists|i: int| 0 <= i < findings.len() && (#[trigger] findings[i]).severity == severity
}

/// The line that heads the findings of a severity.
pub open spec fn heading(severity: Severity) -> Seq<char> {
    "\n### "@ + severity_label(severity) + "\n"@
}

/// Where the findings of a severity start in the text of the findings.
pub open spec fn heading_at(on: bool, findings: Seq<FindingV>, severity: Severity) -> int {
    let start = "\n## Findings\n"@.len() as int;
    let errors = group_text(on, findings, Severity::Error).len();
    let warnings = group_text(on, findings, Severity::Warn).len();
    match severity {
        Severity::Error => start,
        Severity::Warn => start + errors,
        Severity::Info => start + errors + warnings,
    }
}

proof fn lemma_group_heading(on: bool, findings: Seq<FindingV>, severity: Severity)
    ensures
        has_severity(findings, severity) ==> occurs_at(
            group_text(on, findings, severity),
            heading(severity),
            0,
        ),
        !has_severity(findings, severity) ==> group_text(on, findings, severity).len() == 0,
{
    let f = |x: FindingV| row_if(on, x, severity);
    let rows = collected(findings, f);
    reveal_strlit("");
    if has_severity(findings, severity) {
        let i = choose|i: int|
            0 <= i < findings.len() && (#[trigger] findings[i]).severity == severity;
        lemma_collected_has(findings, f, i);
        assert(rows.len() > 0);
        reveal_strlit("\n");
        reveal_strlit(
            "\n\n| class | dashboard | panel | message | source |\n|-------|-----------|-------|---------|--------|\n",
        );
        let g = group_text(on, findings, severity);
        assert(g.subrange(0, heading(severity).len() as int) =~= heading(severity));
    } else if rows.len() > 0 {
        assert(rows.contains(rows[0]));
        let i = lemma_collected_from(findings, f, rows[0]);
        assert(findings[i].severity == severity);
    }
}

proof fn lemma_occurs_inside(before: Seq<char>, s: Seq<char>, after: Seq<char>, needle: Seq<char>)
    requires
        occurs_at(s, needle, 0),
    ensures
        occurs_at(before + s + after, needle, before.len() as int),
{
    let n = before.len() as int;
    assert((before + s + after).subrange(n, n + needle.len()) =~= s.subrange(
        0,
        needle.len() as int,
    ));
}

/// Each severity that some finding has is headed by a line of its own, the others
/// are not shown, and errors stand before warnings and warnings before notes.
pub proof fn law_severities_have_headings(
    on: bool,
    findings: Seq<FindingV>,
    first: Severity,
    second: Severity,
)
    ensures
        has_severity(findings, first) ==> occurs_at(
            findings_text(on, findings),
            heading(first),
            heading_at(on, findings, first),
        ),
        !has_severity(findings, first) ==> group_text(on, findings, first).len() == 0,
        has_severity(findings, first) && severity_rank(first) < severity_rank(second)
            ==> heading_at(on, findings, first) < heading_at(on, findings, second),
{
    let e = group_text(on, findings, Severity::Error);
    let w = group_text(on, findings, Severity::Warn);
    let n = group_text(on, findings, Severity::Info);
    let top = "\n## Findings\n"@;
    let text = findings_text(on, findings);
    let none = Seq::<char>::empty();
    lemma_group_heading(on, findings, first);
    if has_severity(findings, first) {
        assert(findings.len() > 0);
        assert(text =~= top + (e + w + n));
        assert(heading(first).len() > 0) by {
            reveal_strlit("\n");
        }
        match first {
            Severity::Error => {
                lemma_occurs_inside(top, e, w + n, heading(first));
                assert(text =~= top + e + (w + n));
            },
            Severity::Warn => {
                lemma_occurs_inside(top + e, w, n, heading(first));
                assert(text =~= (top + e) + w + n);
            },
            Severity::Info => {
                lemma_occurs_inside(top + e + w, n, none, heading(first));
                assert(text =~= (top + e + w) + n + none);
            },
        }
    }
}

/// The line that heads `first` stands before one that heads `second`.
pub open spec fn headed_in_order(text: Seq<char>, first: Severity, second: Severity) -> bool {
    exists|i: int, j: int|
        i < j && #[trigger] occurs_at(text, heading(first), i) && #[trigger] occurs_at(
            text,
            heading(second),
            j,
        )
}

proof fn lemma_behind(top: Seq<char>, body: Seq<char>, needle: Seq<char>, i: int)
    requires
        occurs_at(body, needle, i),
    ensures
        occurs_at(top + body, needle, top.len() + i),
{
    let a = top.len() + i;
    assert((top + body).subrange(a, a + needle.len()) =~= body.subrange(i, i + needle.len()));
}

proof fn lemma_headed(
    top: Seq<char>,
    on: bool,
    found: Seq<FindingV>,
    first: Severity,
    second: Severity,
)
    requires
        has_severity(found, first),
    ensures
        occurs(top + findings_text(on, found), heading(first)),
        has_severity(found, second) && severity_rank(first) < severity_rank(second)
            ==> headed_in_order(top + findings_text(on, found), first, second),
{
    let body = findings_text(on, found);
    let i = heading_at(on, found, first);
    law_severities_have_headings(on, found, first, second);
    lemma_behind(top, body, heading(first), i);
    if has_severity(found, second) && severity_rank(first) < severity_rank(second) {
        let j = heading_at(on, found, second);
        law_severities_have_headings(on, found, second, first);
        lemma_behind(top, body, heading(second), j);
        assert(top.len() + i < top.len() + j);
    }
}

/// In the report of an audit each severity that some finding has is headed by a
/// line of its own, errors before warnings before notes.
pub proof fn law_audit_reports_have_headings(
    sidecar: InstanceSidecar,
    dirs: Seq<Seq<char>>,
    dashboards: Seq<ArtifactV>,
    scope: Seq<char>,
    inventory_total: usize,
    on_disk_total: usize,
    opts: ReportOptionsV,
    first: Severity,
    second: Severity,
)
    requires
        opts.mode == Mode::Audit,
        has_severity(audit_of(ds_list(sidecar.datasources@), paired(dirs, dashboards)), first),
    ensures
        ({
            let found = audit_of(ds_list(sidecar.datasources@), paired(dirs, dashboards));
            let text = built_text(
                sidecar,
                dirs,
                dashboards,
                scope,
                inventory_total,
                on_disk_total,
                opts,
            );
            &&& occurs(text, heading(first))
            &&& has_severity(found, second) && severity_rank(first) < severity_rank(second)
                ==> headed_in_order(text, first, second)
        }),
{
    let found = audit_of(ds_list(sidecar.datasources@), paired(dirs, dashboards));
    let m = assembled(facts_of(sidecar), dashboards, scope, inventory_total, on_disk_total);
    lemma_headed(header_text(m, opts), opts.redact, found, first, second);
}

} // verus!
