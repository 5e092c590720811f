//! What an audit finds, in terms of the dashboards and datasources it is given.

use crate::artifact::{ArtifactV, ItemV};
use crate::collect::{
    collected, first_some, flattened, lemma_collected_from, lemma_collected_has,
    lemma_flattened_from, lemma_flattened_has,
};
use crate::grafana::audit::{
    all_findings, audit_of, broken_findings, broken_on, broken_query, by_uid, current_value,
    dashboard_findings, data_for, dead_findings, dead_on, ds_ref_of, duplicate_finding,
    duplicate_findings, empty_findings, empty_on, error_in, errors_of, finding_order, frame_rows,
    frames_of, group_findings, group_of, identity_if, orphan_findings, print_of, query_empty,
    referenced_by, referenced_in, row_count_of, short_print, total_rows, unused_findings, unused_on,
    variable_finding, variable_findings, DashSourceV, DsRefV, FindingV,
};
use crate::grafana::fingerprint::{fingerprint_of, solid, solid_panels};
use crate::grafana::laws::{
    law_findings_are_ordered, lemma_distinct_contains, lemma_ordered_contains,
};
use crate::grafana::model::{by_name, dash_of, panel_item_id, payload_if, tags_of, texts_of};
use crate::grafana::sql::{cell_text, ds_is, ds_name_if, found_ds, longest_column, DsBy, DsEntryV};
use crate::json::{
    i64_of_json, items_of_json, json_text, member, members_of_json, text_member, text_of_json,
    JsonV,
};
use crate::order::{
    ascending, distinct_texts, law_distinct_texts, lemma_ordered_ascending, lemma_ordered_multiset,
    ordered, placed, text_order, total_preorder,
};
use crate::text::{
    decimal, integer, lemma_text_le_reflexive, lemma_text_le_total, lemma_text_le_transitive,
    text_le,
};
use crate::text_laws::{
    law_decimal_writes_the_number, law_first_some_is_first, law_flattened_of_parts,
    lemma_first_some_at,
};
use vstd::prelude::*;

verus! {

// ---------------------------------------------------------------------------
// What a finding is about
// ---------------------------------------------------------------------------

/// The dashboard in an artifact.
pub open spec fn board(a: ArtifactV) -> Option<JsonV> {
    member(member(Some(a.meta), "dashboard"@), "dashboard"@)
}

/// The uid of a dashboard, else the target of its artifact.
pub open spec fn board_uid(a: ArtifactV) -> Seq<char> {
    match text_member(board(a), "uid"@) {
        Some(uid) => uid,
        None => a.target,
    }
}

/// The title of a dashboard, else its uid.
pub open spec fn board_title(a: ArtifactV) -> Seq<char> {
    match text_member(board(a), "title"@) {
        Some(title) => title,
        None => board_uid(a),
    }
}

/// The panels of a dashboard.
pub open spec fn board_panels(a: ArtifactV) -> Seq<JsonV> {
    items_of_json(member(board(a), "panels"@))
}

/// The variables of a dashboard.
pub open spec fn board_variables(a: ArtifactV) -> Seq<JsonV> {
    items_of_json(member(member(board(a), "templating"@), "list"@))
}

/// A panel is a row, which shows nothing itself.
pub open spec fn shows_nothing(panel: JsonV) -> bool {
    text_member(Some(panel), "type"@) == Some("row"@)
}

/// A finding is on a dashboard as a whole.
pub open spec fn on_board(f: FindingV, d: DashSourceV) -> bool {
    &&& f.source_artifact == d.path
    &&& f.dashboard_uid == board_uid(d.artifact)
    &&& f.dashboard_title == board_title(d.artifact)
    &&& f.panel_id is None
    &&& f.panel_title is None
}

/// A finding is on a panel of a dashboard.
pub open spec fn on_panel(f: FindingV, d: DashSourceV, panel: JsonV) -> bool {
    &&& f.source_artifact == d.path
    &&& f.dashboard_uid == board_uid(d.artifact)
    &&& f.dashboard_title == board_title(d.artifact)
    &&& f.panel_id == i64_of_json(member(Some(panel), "id"@))
    &&& f.panel_title == text_member(Some(panel), "title"@)
}

// ---------------------------------------------------------------------------
// Classes
// ---------------------------------------------------------------------------

/// The classes that findings can have.
pub open spec fn classes() -> Seq<Seq<char>> {
    seq![
        "dead-datasource"@,
        "broken-query"@,
        "empty-panel"@,
        "orphan"@,
        "blank-variable"@,
        "constant-variable"@,
        "duplicate-dashboard"@,
        "unused-datasource"@,
    ]
}

proof fn lemma_classes_differ()
    ensures
        classes().len() == 8,
        classes().no_duplicates(),
{
    reveal_strlit("dead-datasource");
    reveal_strlit("broken-query");
    reveal_strlit("empty-panel");
    reveal_strlit("orphan");
    reveal_strlit("blank-variable");
    reveal_strlit("constant-variable");
    reveal_strlit("duplicate-dashboard");
    reveal_strlit("unused-datasource");
    let cs = classes();
    assert(cs[0].len() == 15);
    assert(cs[1].len() == 12);
    assert(cs[2].len() == 11);
    assert(cs[3].len() == 6);
    assert(cs[4].len() == 14);
    assert(cs[5].len() == 17 && cs[5][0] == 'c');
    assert(cs[6].len() == 19);
    assert(cs[7].len() == 17 && cs[7][0] == 'u');
}

pub proof fn lemma_sum_contains<A>(a: Seq<A>, b: Seq<A>, x: A)
    ensures
        (a + b).contains(x) <==> a.contains(x) || b.contains(x),
{
    if a.contains(x) {
        let k = choose|k: int| 0 <= k < a.len() && a[k] == x;
        assert((a + b)[k] == x);
    }
    if b.contains(x) {
        let k = choose|k: int| 0 <= k < b.len() && b[k] == x;
        assert((a + b)[a.len() + k] == x);
    }
    if (a + b).contains(x) {
        let k = choose|k: int| 0 <= k < (a + b).len() && (a + b)[k] == x;
        if k < a.len() {
            assert(a[k] == x);
        } else {
            assert(b[k - a.len()] == x);
        }
    }
}

/// What a dashboard is found for, check by check.
proof fn lemma_on_dashboard(ds: Seq<DsEntryV>, d: DashSourceV, f: FindingV)
    ensures
        dashboard_findings(d, ds).contains(f) <==> {
            ||| dead_findings(d, ds).contains(f)
            ||| broken_findings(d).contains(f)
            ||| empty_findings(d).contains(f)
            ||| orphan_findings(d).contains(f)
            ||| variable_findings(d).contains(f)
        },
        dead_findings(d, ds).contains(f) ==> f.class == "dead-datasource"@,
        broken_findings(d).contains(f) ==> f.class == "broken-query"@,
        empty_findings(d).contains(f) ==> f.class == "empty-panel"@,
        orphan_findings(d).contains(f) ==> f.class == "orphan"@,
        variable_findings(d).contains(f) ==> f.class == "blank-variable"@ || f.class
            == "constant-variable"@,
{
    let a = dead_findings(d, ds);
    let b = broken_findings(d);
    let c = empty_findings(d);
    let o = orphan_findings(d);
    let v = variable_findings(d);
    lemma_sum_contains(a, b, f);
    lemma_sum_contains(a + b, c, f);
    lemma_sum_contains(a + b + c, o, f);
    lemma_sum_contains(a + b + c + o, v, f);
    let panels = solid_panels(dash_of(d.artifact));
    if a.contains(f) {
        let k = lemma_collected_from(panels, |p: JsonV| dead_on(d, p, ds), f);
    }
    if b.contains(f) {
        let k = lemma_flattened_from(panels, |p: JsonV| broken_on(d, p), f);
        let found = broken_on(d, panels[k]);
        let n = choose|n: int| 0 <= n < found.len() && found[n] == f;
        assert(found[n].class == "broken-query"@);
    }
    if c.contains(f) {
        let k = lemma_collected_from(panels, |p: JsonV| empty_on(d, p), f);
    }
    if v.contains(f) {
        let k = lemma_collected_from(
            board_variables(d.artifact),
            |x: JsonV| variable_finding(d, x),
            f,
        );
    }
}

proof fn lemma_duplicate_class(dashboards: Seq<DashSourceV>, f: FindingV)
    requires
        duplicate_findings(dashboards).contains(f),
    ensures
        f.class == "duplicate-dashboard"@,
{
    let keys = distinct_texts(dashboards.map_values(|d: DashSourceV| print_of(d)));
    let g = |fp: Seq<char>| group_findings(fp, group_of(dashboards, fp));
    let n = lemma_flattened_from(keys, g, f);
    let found = group_findings(keys[n], group_of(dashboards, keys[n]));
    let k = choose|k: int| 0 <= k < found.len() && found[k] == f;
    assert(found[k].class == "duplicate-dashboard"@);
}

proof fn lemma_unused_class(ds: Seq<DsEntryV>, referenced: Seq<Seq<char>>, f: FindingV)
    requires
        unused_findings(ds, referenced).contains(f),
    ensures
        f.class == "unused-datasource"@,
{
    let sorted = ordered(ds.map_values(|d: DsEntryV| (d.name, d.ds_type)), by_name());
    let k = lemma_collected_from(
        sorted,
        |d: (Seq<char>, Seq<char>)| unused_on(d, referenced),
        f,
    );
}

/// Where the findings of an audit come from.
proof fn lemma_found(ds: Seq<DsEntryV>, dashboards: Seq<DashSourceV>, f: FindingV)
    ensures
        audit_of(ds, dashboards).contains(f) <==> {
            ||| exists|i: int|
                0 <= i < dashboards.len() && dashboard_findings(
                    #[trigger] dashboards[i],
                    ds,
                ).contains(f)
            ||| duplicate_findings(dashboards).contains(f)
            ||| unused_findings(
                ds,
                flattened(dashboards, |d: DashSourceV| referenced_in(d, ds)),
            ).contains(f)
        },
{
    let g = |d: DashSourceV| dashboard_findings(d, ds);
    let a = flattened(dashboards, g);
    let b = duplicate_findings(dashboards);
    let c = unused_findings(ds, flattened(dashboards, |d: DashSourceV| referenced_in(d, ds)));
    lemma_ordered_contains(all_findings(ds, dashboards), finding_order(), f);
    lemma_sum_contains(a, b, f);
    lemma_sum_contains(a + b, c, f);
    if a.contains(f) {
        let i = lemma_flattened_from(dashboards, g, f);
        assert(dashboard_findings(dashboards[i], ds).contains(f));
    }
    if exists|i: int|
        0 <= i < dashboards.len() && dashboard_findings(#[trigger] dashboards[i], ds).contains(
            f,
        ) {
        let i = choose|i: int|
            0 <= i < dashboards.len() && dashboard_findings(#[trigger] dashboards[i], ds).contains(
                f,
            );
        lemma_flattened_has(dashboards, g, i, f);
    }
}

/// A finding of one of the checks of a dashboard comes from that check.
proof fn lemma_found_by_class(ds: Seq<DsEntryV>, dashboards: Seq<DashSourceV>, f: FindingV)
    ensures
        audit_of(ds, dashboards).contains(f) ==> classes().contains(f.class),
        f.class == "dead-datasource"@ ==> (audit_of(ds, dashboards).contains(f) <==> exists|i: int|
            0 <= i < dashboards.len() && dead_findings(#[trigger] dashboards[i], ds).contains(f)),
        f.class == "broken-query"@ ==> (audit_of(ds, dashboards).contains(f) <==> exists|i: int|
            0 <= i < dashboards.len() && broken_findings(#[trigger] dashboards[i]).contains(f)),
        f.class == "empty-panel"@ ==> (audit_of(ds, dashboards).contains(f) <==> exists|i: int|
            0 <= i < dashboards.len() && empty_findings(#[trigger] dashboards[i]).contains(f)),
        f.class == "orphan"@ ==> (audit_of(ds, dashboards).contains(f) <==> exists|i: int|
            0 <= i < dashboards.len() && orphan_findings(#[trigger] dashboards[i]).contains(f)),
        f.class == "blank-variable"@ || f.class == "constant-variable"@ ==> (audit_of(
            ds,
            dashboards,
        ).contains(f) <==> exists|i: int|
            0 <= i < dashboards.len() && variable_findings(#[trigger] dashboards[i]).contains(f)),
        f.class == "duplicate-dashboard"@ ==> (audit_of(ds, dashboards).contains(f)
            <==> duplicate_findings(dashboards).contains(f)),
        f.class == "unused-datasource"@ ==> (audit_of(ds, dashboards).contains(f)
            <==> unused_findings(
            ds,
            flattened(dashboards, |d: DashSourceV| referenced_in(d, ds)),
        ).contains(f)),
{
    lemma_classes_differ();
    lemma_found(ds, dashboards, f);
    let cs = classes();
    assert(cs[0] == "dead-datasource"@ && cs[1] == "broken-query"@ && cs[2] == "empty-panel"@
        && cs[3] == "orphan"@ && cs[4] == "blank-variable"@ && cs[5] == "constant-variable"@
        && cs[6] == "duplicate-dashboard"@ && cs[7] == "unused-datasource"@);
    let referenced = flattened(dashboards, |d: DashSourceV| referenced_in(d, ds));
    if duplicate_findings(dashboards).contains(f) {
        lemma_duplicate_class(dashboards, f);
    }
    if unused_findings(ds, referenced).contains(f) {
        lemma_unused_class(ds, referenced, f);
    }
    assert forall|i: int| 0 <= i < dashboards.len() implies {
        &&& dashboard_findings(#[trigger] dashboards[i], ds).contains(f) <==> {
            ||| dead_findings(dashboards[i], ds).contains(f)
            ||| broken_findings(dashboards[i]).contains(f)
            ||| empty_findings(dashboards[i]).contains(f)
            ||| orphan_findings(dashboards[i]).contains(f)
            ||| variable_findings(dashboards[i]).contains(f)
        }
        &&& dead_findings(dashboards[i], ds).contains(f) ==> f.class == cs[0]
        &&& broken_findings(dashboards[i]).contains(f) ==> f.class == cs[1]
        &&& empty_findings(dashboards[i]).contains(f) ==> f.class == cs[2]
        &&& orphan_findings(dashboards[i]).contains(f) ==> f.class == cs[3]
        &&& variable_findings(dashboards[i]).contains(f) ==> f.class == cs[4] || f.class == cs[5]
    } by {
        lemma_on_dashboard(ds, dashboards[i], f);
    }
    if audit_of(ds, dashboards).contains(f) {
        assert(exists|k: int| 0 <= k < cs.len() && cs[k] == f.class);
    }
}

/// Every finding is of one of the eight classes.
pub proof fn law_findings_have_known_classes(
    ds: Seq<DsEntryV>,
    dashboards: Seq<DashSourceV>,
    f: FindingV,
)
    requires
        audit_of(ds, dashboards).contains(f),
    ensures
        classes().contains(f.class),
{
    lemma_found_by_class(ds, dashboards, f);
}

/// Of every two findings the one in front is not less severe; of the same severity
/// they stand by class, then by dashboard, panel and message.
pub proof fn law_findings_stand_in_order(
    ds: Seq<DsEntryV>,
    dashboards: Seq<DashSourceV>,
    i: int,
    j: int,
)
    requires
        0 <= i < j < audit_of(ds, dashboards).len(),
    ensures
        ({
            let a = audit_of(ds, dashboards)[i];
            let b = audit_of(ds, dashboards)[j];
            &&& a.severity is Info ==> b.severity is Info
            &&& a.severity is Warn ==> !(b.severity is Error)
            &&& a.severity == b.severity ==> text_le(a.class, b.class)
            &&& a.severity == b.severity && a.class == b.class ==> text_le(
                a.dashboard_uid,
                b.dashboard_uid,
            )
            &&& a.severity == b.severity && a.class == b.class && a.dashboard_uid
                == b.dashboard_uid ==> (match (a.panel_id, b.panel_id) {
                (Some(x), Some(y)) => x <= y,
                (Some(_), None) => false,
                _ => true,
            })
            &&& a.severity == b.severity && a.class == b.class && a.dashboard_uid
                == b.dashboard_uid && a.panel_id == b.panel_id ==> text_le(a.message, b.message)
        }),
{
    law_findings_are_ordered(ds, dashboards);
    let a = audit_of(ds, dashboards)[i];
    let b = audit_of(ds, dashboards)[j];
    assert(finding_order()(a, b));
    lemma_text_le_reflexive(a.class);
    lemma_text_le_reflexive(a.dashboard_uid);
}

// ---------------------------------------------------------------------------
// Orphans
// ---------------------------------------------------------------------------

/// A dashboard is in no folder: its folder has no name.
pub open spec fn in_no_folder(a: ArtifactV) -> bool {
    match text_member(member(member(Some(a.meta), "dashboard"@), "meta"@), "folderTitle"@) {
        Some(title) => title.len() == 0,
        None => true,
    }
}

/// A dashboard has no tag: there is no text among its tags.
pub open spec fn has_no_tag(a: ArtifactV) -> bool {
    forall|k: int|
        0 <= k < items_of_json(member(board(a), "tags"@)).len() ==> !(#[trigger] items_of_json(
            member(board(a), "tags"@),
        )[k] is Text)
}

/// A finding tells that a dashboard is in no folder, has no tag, or both.
pub open spec fn tells_orphan(d: DashSourceV, f: FindingV) -> bool {
    &&& in_no_folder(d.artifact) || has_no_tag(d.artifact)
    &&& on_board(f, d)
    &&& f.severity is Info
    &&& f.message == (if !has_no_tag(d.artifact) {
        "orphan dashboard: in no folder"@
    } else if !in_no_folder(d.artifact) {
        "orphan dashboard: untagged"@
    } else {
        "orphan dashboard: in no folder and untagged"@
    })
}

proof fn lemma_tags(a: ArtifactV)
    ensures
        tags_of(a).len() == 0 <==> has_no_tag(a),
{
    let items = items_of_json(member(board(a), "tags"@));
    let f = |v: JsonV| text_of_json(Some(v));
    let texts = texts_of(member(dash_of(a), "tags"@));
    lemma_ordered_multiset(texts, text_order());
    assert(texts == collected(items, f));
    if !has_no_tag(a) {
        let k = choose|k: int| 0 <= k < items.len() && #[trigger] items[k] is Text;
        lemma_collected_has(items, f, k);
    }
    if texts.len() > 0 {
        assert(texts.contains(texts[0]));
        let k = lemma_collected_from(items, f, texts[0]);
        assert(items[k] is Text);
    }
}

proof fn lemma_orphan(d: DashSourceV, f: FindingV)
    requires
        f.class == "orphan"@,
    ensures
        orphan_findings(d).contains(f) <==> tells_orphan(d, f),
{
    reveal_strlit("orphan dashboard: ");
    reveal_strlit("in no folder");
    reveal_strlit("untagged");
    reveal_strlit("in no folder and untagged");
    reveal_strlit("orphan dashboard: in no folder");
    reveal_strlit("orphan dashboard: untagged");
    reveal_strlit("orphan dashboard: in no folder and untagged");
    lemma_tags(d.artifact);
    assert("orphan dashboard: "@ + "in no folder"@ =~= "orphan dashboard: in no folder"@);
    assert("orphan dashboard: "@ + "untagged"@ =~= "orphan dashboard: untagged"@);
    assert("orphan dashboard: "@ + "in no folder and untagged"@
        =~= "orphan dashboard: in no folder and untagged"@);
    let found = orphan_findings(d);
    if found.contains(f) {
        assert(found[0] == f);
    }
    if tells_orphan(d, f) {
        assert(found.len() == 1);
        assert(found[0] == f);
    }
}

/// A dashboard that is in no folder or has no tag is found as an orphan, and no
/// other one; the finding says which of the two holds, or that both do.
pub proof fn law_orphans_are_found(ds: Seq<DsEntryV>, dashboards: Seq<DashSourceV>, f: FindingV)
    requires
        f.class == "orphan"@,
    ensures
        audit_of(ds, dashboards).contains(f) <==> exists|i: int|
            0 <= i < dashboards.len() && tells_orphan(#[trigger] dashboards[i], f),
{
    lemma_found_by_class(ds, dashboards, f);
    assert forall|i: int| 0 <= i < dashboards.len() implies orphan_findings(
        #[trigger] dashboards[i],
    ).contains(f) == tells_orphan(dashboards[i], f) by {
        lemma_orphan(dashboards[i], f);
    }
}

// ---------------------------------------------------------------------------
// Datasources
// ---------------------------------------------------------------------------

/// A name stands for whichever datasource is the default one.
pub open spec fn asks_default(s: Seq<char>) -> bool {
    s == "default"@ || s == "-- Grafana --"@
}

/// A name is one of a variable, which is filled in on display.
pub open spec fn asks_variable(s: Seq<char>) -> bool {
    s.len() > 0 && s[0] == '$'
}

/// What a panel names as its datasource is a variable.
pub open spec fn names_variable(reference: Option<JsonV>) -> bool {
    match reference {
        Some(JsonV::Text(s)) => !asks_default(s) && asks_variable(s),
        Some(JsonV::Object(_)) => text_member(reference, "uid"@) matches Some(uid)
            && asks_variable(uid),
        _ => false,
    }
}

/// A configured datasource is one that a panel can mean: the default one where it
/// names none, the one with the name or uid, or with the uid, else the type, that
/// it gives.
pub open spec fn means(reference: Option<JsonV>, d: DsEntryV) -> bool {
    match reference {
        None | Some(JsonV::Null) => d.is_default,
        Some(JsonV::Text(s)) => if asks_default(s) {
            d.is_default
        } else {
            d.name == s || d.uid == Some(s)
        },
        Some(JsonV::Object(_)) => match text_member(reference, "uid"@) {
            Some(uid) => d.uid == Some(uid),
            None => text_member(reference, "type"@) == Some(d.ds_type),
        },
        _ => false,
    }
}

/// What a finding calls a datasource that a panel names.
pub open spec fn called(reference: Option<JsonV>) -> Seq<char> {
    match reference {
        None | Some(JsonV::Null) => "(default, none configured)"@,
        Some(JsonV::Text(s)) => s,
        Some(JsonV::Object(_)) => match text_member(reference, "uid"@) {
            Some(uid) => uid,
            None => match text_member(reference, "type"@) {
                Some(ty) => ty,
                None => "(unspecified)"@,
            },
        },
        Some(other) => json_text(other),
    }
}

/// No configured datasource is the one that a panel means.
pub open spec fn means_none(reference: Option<JsonV>, ds: Seq<DsEntryV>) -> bool {
    forall|j: int| 0 <= j < ds.len() ==> !means(reference, #[trigger] ds[j])
}

/// Of the configured datasources that a panel can mean, the first one has a name.
pub open spec fn means_named(
    reference: Option<JsonV>,
    ds: Seq<DsEntryV>,
    name: Seq<char>,
) -> bool {
    exists|j: int|
        0 <= j < ds.len() && means(reference, #[trigger] ds[j]) && ds[j].name == name && forall|
            l: int,
        |
            0 <= l < j ==> !means(reference, #[trigger] ds[l])
}

pub proof fn lemma_search(ds: Seq<DsEntryV>, by: DsBy, s: Seq<char>, reference: Option<JsonV>)
    requires
        forall|d: DsEntryV| #[trigger] means(reference, d) == ds_is(d, by, s),
    ensures
        match found_ds(ds, by, s) {
            Some(name) => means_named(reference, ds, name) && !means_none(reference, ds),
            None => means_none(reference, ds),
        },
        forall|name: Seq<char>| #[trigger]
            means_named(reference, ds, name) ==> found_ds(ds, by, s) == Some(name),
{
    let f = |d: DsEntryV| ds_name_if(d, by, s);
    if found_ds(ds, by, s) is Some {
        let j = lemma_first_some_at(ds, f);
        assert(means(reference, ds[j]));
        assert forall|l: int| 0 <= l < j implies !means(reference, #[trigger] ds[l]) by {
            assert(f(ds[l]) is None);
        }
        assert(means_named(reference, ds, ds[j].name));
    } else {
        assert forall|j: int| 0 <= j < ds.len() implies !means(reference, #[trigger] ds[j]) by {
            if means(reference, ds[j]) {
                lemma_finds_some(ds, f, j);
            }
        }
    }
    assert forall|name: Seq<char>| #[trigger]
        means_named(reference, ds, name) implies found_ds(ds, by, s) == Some(name) by {
        let j = choose|j: int|
            0 <= j < ds.len() && means(reference, #[trigger] ds[j]) && ds[j].name == name
                && forall|l: int| 0 <= l < j ==> !means(reference, #[trigger] ds[l]);
        assert forall|l: int| 0 <= l < j implies f(#[trigger] ds[l]) is None by {
            assert(!means(reference, ds[l]));
        }
        law_first_some_is_first(ds, f, j);
    }
}

pub proof fn lemma_finds_some<A, B>(xs: Seq<A>, f: spec_fn(A) -> Option<B>, i: int)
    requires
        0 <= i < xs.len(),
        f(xs[i]) is Some,
    ensures
        first_some(xs, f) is Some,
    decreases i,
{
    if i > 0 && f(xs[0]) is None {
        assert(xs.drop_first()[i - 1] == xs[i]);
        lemma_finds_some(xs.drop_first(), f, i - 1);
    }
}

/// What a reference to a datasource comes to.
pub proof fn lemma_reference(reference: Option<JsonV>, ds: Seq<DsEntryV>)
    ensures
        ds_ref_of(reference, ds) is Dead <==> !names_variable(reference) && means_none(
            reference,
            ds,
        ),
        ds_ref_of(reference, ds) is Dead ==> ds_ref_of(reference, ds)->Dead_0 == called(reference),
        forall|name: Seq<char>|
            !names_variable(reference) && #[trigger] means_named(reference, ds, name)
                <==> ds_ref_of(reference, ds) == DsRefV::Known(name),
{
    match reference {
        None | Some(JsonV::Null) => {
            lemma_search(ds, DsBy::Default, ""@, reference);
        },
        Some(JsonV::Text(s)) => {
            if asks_default(s) {
                lemma_search(ds, DsBy::Default, ""@, reference);
            } else {
                lemma_search(ds, DsBy::NameOrUid, s, reference);
            }
        },
        Some(JsonV::Object(_)) => {
            match text_member(reference, "uid"@) {
                Some(uid) => {
                    lemma_search(ds, DsBy::Uid, uid, reference);
                },
                None => {
                    if let Some(ty) = text_member(reference, "type"@) {
                        lemma_search(ds, DsBy::Type, ty, reference);
                    }
                },
            }
        },
        _ => {},
    }
}

/// A finding tells that the datasource of a panel is not configured.
pub open spec fn tells_dead(ds: Seq<DsEntryV>, d: DashSourceV, k: int, f: FindingV) -> bool {
    &&& 0 <= k < board_panels(d.artifact).len()
    &&& !shows_nothing(board_panels(d.artifact)[k])
    &&& !names_variable(member(Some(board_panels(d.artifact)[k]), "datasource"@))
    &&& means_none(member(Some(board_panels(d.artifact)[k]), "datasource"@), ds)
    &&& on_panel(f, d, board_panels(d.artifact)[k])
    &&& f.severity is Error
    &&& f.message == "panel references datasource `"@ + called(
        member(Some(board_panels(d.artifact)[k]), "datasource"@),
    ) + "` not present in the instance"@
}

proof fn lemma_solid_from(a: ArtifactV, p: JsonV) -> (k: int)
    requires
        solid_panels(dash_of(a)).contains(p),
    ensures
        0 <= k < board_panels(a).len(),
        board_panels(a)[k] == p,
        !shows_nothing(p),
{
    lemma_collected_from(board_panels(a), |p: JsonV| solid(p), p)
}

proof fn lemma_solid_at(a: ArtifactV, k: int) -> (n: int)
    requires
        0 <= k < board_panels(a).len(),
        !shows_nothing(board_panels(a)[k]),
    ensures
        0 <= n < solid_panels(dash_of(a)).len(),
        solid_panels(dash_of(a))[n] == board_panels(a)[k],
{
    lemma_collected_has(board_panels(a), |p: JsonV| solid(p), k);
    choose|n: int|
        0 <= n < solid_panels(dash_of(a)).len() && solid_panels(dash_of(a))[n] == board_panels(a)[k]
}

proof fn lemma_dead(ds: Seq<DsEntryV>, d: DashSourceV, f: FindingV)
    requires
        f.class == "dead-datasource"@,
    ensures
        dead_findings(d, ds).contains(f) <==> exists|k: int| tells_dead(ds, d, k, f),
{
    let panels = solid_panels(dash_of(d.artifact));
    let g = |p: JsonV| dead_on(d, p, ds);
    if dead_findings(d, ds).contains(f) {
        let n = lemma_collected_from(panels, g, f);
        assert(panels.contains(panels[n]));
        let k = lemma_solid_from(d.artifact, panels[n]);
        lemma_reference(member(Some(panels[n]), "datasource"@), ds);
        assert(tells_dead(ds, d, k, f));
    }
    if exists|k: int| tells_dead(ds, d, k, f) {
        let k = choose|k: int| tells_dead(ds, d, k, f);
        let n = lemma_solid_at(d.artifact, k);
        lemma_reference(member(Some(panels[n]), "datasource"@), ds);
        assert(g(panels[n]) == Some(f));
        lemma_collected_has(panels, g, n);
    }
}

/// A panel that is no row and that names a datasource, or the default one, that is
/// not configured is found, and no other one; a variable is not looked up.
pub proof fn law_dead_datasources_are_found(
    ds: Seq<DsEntryV>,
    dashboards: Seq<DashSourceV>,
    f: FindingV,
)
    requires
        f.class == "dead-datasource"@,
    ensures
        audit_of(ds, dashboards).contains(f) <==> exists|i: int, k: int|
            0 <= i < dashboards.len() && #[trigger] tells_dead(ds, dashboards[i], k, f),
{
    lemma_found_by_class(ds, dashboards, f);
    assert forall|i: int| 0 <= i < dashboards.len() implies (dead_findings(
        #[trigger] dashboards[i],
        ds,
    ).contains(f) <==> exists|k: int| tells_dead(ds, dashboards[i], k, f)) by {
        lemma_dead(ds, dashboards[i], f);
    }
}

/// A panel that is no row means a datasource by its name.
pub open spec fn panel_means(
    ds: Seq<DsEntryV>,
    d: DashSourceV,
    k: int,
    name: Seq<char>,
) -> bool {
    &&& 0 <= k < board_panels(d.artifact).len()
    &&& !shows_nothing(board_panels(d.artifact)[k])
    &&& !names_variable(member(Some(board_panels(d.artifact)[k]), "datasource"@))
    &&& means_named(member(Some(board_panels(d.artifact)[k]), "datasource"@), ds, name)
}

/// A finding tells that no panel means a configured datasource.
pub open spec fn tells_unused(
    ds: Seq<DsEntryV>,
    dashboards: Seq<DashSourceV>,
    e: DsEntryV,
    f: FindingV,
) -> bool {
    &&& forall|i: int, k: int|
        0 <= i < dashboards.len() ==> !#[trigger] panel_means(ds, dashboards[i], k, e.name)
    &&& f.severity is Warn
    &&& f.source_artifact.len() == 0
    &&& f.dashboard_uid.len() == 0
    &&& f.dashboard_title.len() == 0
    &&& f.panel_id is None
    &&& f.panel_title is None
    &&& f.message == "datasource `"@ + e.name + "` ("@ + e.ds_type
        + ") is configured but referenced by no scraped panel"@
}

proof fn lemma_referenced(ds: Seq<DsEntryV>, dashboards: Seq<DashSourceV>, name: Seq<char>)
    ensures
        flattened(dashboards, |d: DashSourceV| referenced_in(d, ds)).contains(name) <==> exists|
            i: int,
            k: int,
        |
            0 <= i < dashboards.len() && #[trigger] panel_means(ds, dashboards[i], k, name),
{
    let g = |d: DashSourceV| referenced_in(d, ds);
    let h = |p: JsonV| referenced_by(p, ds);
    if flattened(dashboards, g).contains(name) {
        let i = lemma_flattened_from(dashboards, g, name);
        let panels = solid_panels(dash_of(dashboards[i].artifact));
        let n = lemma_collected_from(panels, h, name);
        assert(panels.contains(panels[n]));
        let k = lemma_solid_from(dashboards[i].artifact, panels[n]);
        lemma_reference(member(Some(panels[n]), "datasource"@), ds);
        assert(panel_means(ds, dashboards[i], k, name));
    }
    if exists|i: int, k: int|
        0 <= i < dashboards.len() && #[trigger] panel_means(ds, dashboards[i], k, name) {
        let (i, k) = choose|i: int, k: int|
            0 <= i < dashboards.len() && #[trigger] panel_means(ds, dashboards[i], k, name);
        let panels = solid_panels(dash_of(dashboards[i].artifact));
        let n = lemma_solid_at(dashboards[i].artifact, k);
        lemma_reference(member(Some(panels[n]), "datasource"@), ds);
        lemma_collected_has(panels, h, n);
        lemma_flattened_has(dashboards, g, i, name);
    }
}

/// A configured datasource that no panel means is found, and no other one.
pub proof fn law_unused_datasources_are_found(
    ds: Seq<DsEntryV>,
    dashboards: Seq<DashSourceV>,
    f: FindingV,
)
    requires
        f.class == "unused-datasource"@,
    ensures
        audit_of(ds, dashboards).contains(f) <==> exists|j: int|
            0 <= j < ds.len() && tells_unused(ds, dashboards, #[trigger] ds[j], f),
{
    reveal_strlit("");
    lemma_found_by_class(ds, dashboards, f);
    let referenced = flattened(dashboards, |d: DashSourceV| referenced_in(d, ds));
    let pairs = ds.map_values(|d: DsEntryV| (d.name, d.ds_type));
    let sorted = ordered(pairs, by_name());
    let g = |d: (Seq<char>, Seq<char>)| unused_on(d, referenced);
    if unused_findings(ds, referenced).contains(f) {
        let n = lemma_collected_from(sorted, g, f);
        assert(sorted.contains(sorted[n]));
        lemma_ordered_contains(pairs, by_name(), sorted[n]);
        let j = choose|j: int| 0 <= j < pairs.len() && pairs[j] == sorted[n];
        lemma_referenced(ds, dashboards, ds[j].name);
        assert(tells_unused(ds, dashboards, ds[j], f));
    }
    if exists|j: int| 0 <= j < ds.len() && tells_unused(ds, dashboards, #[trigger] ds[j], f) {
        let j = choose|j: int|
            0 <= j < ds.len() && tells_unused(ds, dashboards, #[trigger] ds[j], f);
        lemma_referenced(ds, dashboards, ds[j].name);
        assert(pairs[j] == (ds[j].name, ds[j].ds_type));
        assert(pairs.contains(pairs[j]));
        lemma_ordered_contains(pairs, by_name(), pairs[j]);
        let n = choose|n: int| 0 <= n < sorted.len() && sorted[n] == pairs[j];
        assert(f.source_artifact =~= ""@);
        assert(f.dashboard_uid =~= ""@);
        assert(f.dashboard_title =~= ""@);
        assert(g(sorted[n]) == Some(f));
        lemma_collected_has(sorted, g, n);
    }
}

// ---------------------------------------------------------------------------
// Queries
// ---------------------------------------------------------------------------

/// What a panel's queries returned is the payload of an item of the artifact: of
/// the first one that is named after the panel's id.
pub open spec fn answers(a: ArtifactV, panel: JsonV, item: int) -> bool {
    &&& i64_of_json(member(Some(panel), "id"@)) is Some
    &&& 0 <= item < a.items.len()
    &&& a.items[item].id == "panel-"@ + integer(
        i64_of_json(member(Some(panel), "id"@))->0 as int,
    )
    &&& forall|l: int| 0 <= l < item ==> (#[trigger] a.items[l]).id != a.items[item].id
    &&& a.items[item].data is Some
}

/// The results in a payload.
pub open spec fn results_in(data: Option<JsonV>) -> Seq<(Seq<char>, JsonV)> {
    members_of_json(member(data, "results"@))
}

/// A result tells of an error: in words, else by a status of an error.
pub open spec fn fails_with(result: JsonV, cause: Seq<char>) -> bool {
    ||| cause.len() > 0 && text_member(Some(result), "error"@) == Some(cause)
    ||| {
        &&& text_member(Some(result), "error"@) matches Some(e) ==> e.len() == 0
        &&& i64_of_json(member(Some(result), "status"@)) matches Some(status) && status >= 400
            && cause == "status "@ + integer(status as int)
    }
}

/// A result tells of an error.
pub open spec fn fails(result: JsonV) -> bool {
    ||| text_member(Some(result), "error"@) matches Some(e) && e.len() > 0
    ||| i64_of_json(member(Some(result), "status"@)) matches Some(status) && status >= 400
}

proof fn lemma_answer(d: DashSourceV, panel: JsonV, item: int)
    requires
        answers(d.artifact, panel, item),
    ensures
        data_for(d, panel) == d.artifact.items[item].data,
{
    let id = i64_of_json(member(Some(panel), "id"@))->0;
    let g = |it: ItemV| payload_if(it, panel_item_id(id));
    assert forall|l: int| 0 <= l < item implies g(#[trigger] d.artifact.items[l]) is None by {
        assert(d.artifact.items[l].id != d.artifact.items[item].id);
    }
    law_first_some_is_first(d.artifact.items, g, item);
}

proof fn lemma_answer_from(d: DashSourceV, panel: JsonV) -> (item: int)
    requires
        data_for(d, panel) is Some,
    ensures
        answers(d.artifact, panel, item),
        data_for(d, panel) == d.artifact.items[item].data,
{
    let id = i64_of_json(member(Some(panel), "id"@))->0;
    let g = |it: ItemV| payload_if(it, panel_item_id(id));
    let item = lemma_first_some_at(d.artifact.items, g);
    assert forall|l: int| 0 <= l < item implies (#[trigger] d.artifact.items[l]).id
        != d.artifact.items[item].id by {
        assert(g(d.artifact.items[l]) is None);
    }
    item
}

/// A finding tells that a query of a panel failed.
pub open spec fn tells_broken(
    d: DashSourceV,
    k: int,
    item: int,
    n: int,
    cause: Seq<char>,
    f: FindingV,
) -> bool {
    &&& 0 <= k < board_panels(d.artifact).len()
    &&& !shows_nothing(board_panels(d.artifact)[k])
    &&& answers(d.artifact, board_panels(d.artifact)[k], item)
    &&& 0 <= n < results_in(d.artifact.items[item].data).len()
    &&& fails_with(results_in(d.artifact.items[item].data)[n].1, cause)
    &&& on_panel(f, d, board_panels(d.artifact)[k])
    &&& f.severity is Error
    &&& f.message == "query "@ + results_in(d.artifact.items[item].data)[n].0 + " failed: "@
        + cause
}

proof fn lemma_broken(d: DashSourceV, f: FindingV)
    requires
        f.class == "broken-query"@,
    ensures
        broken_findings(d).contains(f) <==> exists|k: int, item: int, n: int, cause: Seq<char>|
            tells_broken(d, k, item, n, cause, f),
{
    let panels = solid_panels(dash_of(d.artifact));
    let g = |p: JsonV| broken_on(d, p);
    let h = |m: (Seq<char>, JsonV)| error_in(m);
    if broken_findings(d).contains(f) {
        let q = lemma_flattened_from(panels, g, f);
        assert(panels.contains(panels[q]));
        let k = lemma_solid_from(d.artifact, panels[q]);
        let item = lemma_answer_from(d, panels[q]);
        let data = data_for(d, panels[q])->0;
        let errors = errors_of(data);
        let e = choose|e: int|
            0 <= e < broken_on(d, panels[q]).len() && broken_on(d, panels[q])[e] == f;
        assert(f == broken_query(d, panels[q], errors[e]));
        assert(errors.contains(errors[e]));
        let n = lemma_collected_from(results_in(Some(data)), h, errors[e]);
        assert(tells_broken(d, k, item, n, errors[e].1, f));
    }
    if exists|k: int, item: int, n: int, cause: Seq<char>| tells_broken(d, k, item, n, cause, f) {
        let (k, item, n, cause) = choose|k: int, item: int, n: int, cause: Seq<char>|
            tells_broken(d, k, item, n, cause, f);
        let q = lemma_solid_at(d.artifact, k);
        lemma_answer(d, panels[q], item);
        let data = data_for(d, panels[q])->0;
        let results = results_in(Some(data));
        lemma_collected_has(results, h, n);
        let errors = errors_of(data);
        assert(h(results[n]) == Some((results[n].0, cause)));
        let e = choose|e: int| 0 <= e < errors.len() && errors[e] == (results[n].0, cause);
        assert(broken_on(d, panels[q])[e] == f);
        assert(broken_on(d, panels[q]).contains(f));
        lemma_flattened_has(panels, g, q, f);
    }
}

/// A query of a panel that failed is found, with what it failed for, and no other
/// one.
pub proof fn law_broken_queries_are_found(
    ds: Seq<DsEntryV>,
    dashboards: Seq<DashSourceV>,
    f: FindingV,
)
    requires
        f.class == "broken-query"@,
    ensures
        audit_of(ds, dashboards).contains(f) <==> exists|
            i: int,
            k: int,
            item: int,
            n: int,
            cause: Seq<char>,
        |
            0 <= i < dashboards.len() && #[trigger] tells_broken(
                dashboards[i],
                k,
                item,
                n,
                cause,
                f,
            ),
{
    lemma_found_by_class(ds, dashboards, f);
    assert forall|i: int| 0 <= i < dashboards.len() implies (broken_findings(
        #[trigger] dashboards[i],
    ).contains(f) <==> exists|k: int, item: int, n: int, cause: Seq<char>|
        tells_broken(dashboards[i], k, item, n, cause, f)) by {
        lemma_broken(dashboards[i], f);
    }
}

/// The frames of a result.
pub open spec fn frames_in(result: JsonV) -> Seq<JsonV> {
    items_of_json(member(Some(result), "frames"@))
}

/// A frame holds no row: every column of it is empty.
pub open spec fn holds_no_row(frame: JsonV) -> bool {
    forall|c: int|
        0 <= c < items_of_json(member(member(Some(frame), "data"@), "values"@)).len()
            ==> items_of_json(
            Some(
                #[trigger] items_of_json(member(member(Some(frame), "data"@), "values"@))[c],
            ),
        ).len() == 0
}

/// A payload holds frames, and none of them holds a row.
pub open spec fn holds_empty_frames(data: Option<JsonV>) -> bool {
    &&& exists|n: int, g: int|
        0 <= n < results_in(data).len() && 0 <= g < frames_in(
            (#[trigger] results_in(data)[n]).1,
        ).len() && holds_no_row(#[trigger] frames_in(results_in(data)[n].1)[g])
    &&& forall|n: int, g: int|
        0 <= n < results_in(data).len() && 0 <= g < frames_in(results_in(data)[n].1).len()
            ==> holds_no_row(#[trigger] frames_in(results_in(data)[n].1)[g])
}

proof fn lemma_no_column(columns: Seq<JsonV>)
    ensures
        (longest_column(columns) matches Some(n) ==> n == 0) <==> forall|c: int|
            0 <= c < columns.len() ==> items_of_json(Some(#[trigger] columns[c])).len() == 0,
    decreases columns.len(),
{
    if columns.len() > 0 {
        let init = columns.drop_last();
        lemma_no_column(init);
        if forall|c: int|
            0 <= c < columns.len() ==> items_of_json(Some(#[trigger] columns[c])).len() == 0 {
            assert forall|c: int| 0 <= c < init.len() implies items_of_json(
                Some(#[trigger] init[c]),
            ).len() == 0 by {
                assert(items_of_json(Some(columns[c])).len() == 0);
            }
            assert(items_of_json(Some(columns[columns.len() - 1])).len() == 0);
        }
        if longest_column(columns) matches Some(n) ==> n == 0 {
            assert forall|c: int| 0 <= c < columns.len() implies items_of_json(
                Some(#[trigger] columns[c]),
            ).len() == 0 by {
                if c < columns.len() - 1 {
                    assert(init[c] == columns[c]);
                }
            }
        }
    }
}

proof fn lemma_no_row(frame: JsonV)
    ensures
        frame_rows(frame) == 0 <==> holds_no_row(frame),
{
    lemma_no_column(items_of_json(member(member(Some(frame), "data"@), "values"@)));
}

proof fn lemma_no_rows(frames: Seq<JsonV>)
    ensures
        total_rows(frames) == 0 <==> forall|g: int|
            0 <= g < frames.len() ==> holds_no_row(#[trigger] frames[g]),
    decreases frames.len(),
{
    if frames.len() > 0 {
        let init = frames.drop_last();
        lemma_no_rows(init);
        lemma_no_row(frames.last());
        if forall|g: int| 0 <= g < frames.len() ==> holds_no_row(#[trigger] frames[g]) {
            assert forall|g: int| 0 <= g < init.len() implies holds_no_row(#[trigger] init[g]) by {
                assert(holds_no_row(frames[g]));
            }
            assert(holds_no_row(frames[frames.len() - 1]));
        }
        if total_rows(frames) == 0 {
            assert forall|g: int| 0 <= g < frames.len() implies holds_no_row(
                #[trigger] frames[g],
            ) by {
                if g < frames.len() - 1 {
                    assert(init[g] == frames[g]);
                }
            }
        }
    }
}

proof fn lemma_empty_frames(data: JsonV)
    ensures
        row_count_of(data) == Some(0nat) <==> holds_empty_frames(Some(data)),
        errors_of(data).len() == 0 <==> forall|n: int|
            0 <= n < results_in(Some(data)).len() ==> !fails(
                (#[trigger] results_in(Some(data))[n]).1,
            ),
{
    let results = results_in(Some(data));
    let h = |m: (Seq<char>, JsonV)| items_of_json(member(Some(m.1), "frames"@));
    let frames = frames_of(data);
    lemma_no_rows(frames);
    if row_count_of(data) == Some(0nat) {
        assert forall|n: int, g: int|
            0 <= n < results.len() && 0 <= g < frames_in(results[n].1).len() implies holds_no_row(
            #[trigger] frames_in(results[n].1)[g],
        ) by {
            let x = frames_in(results[n].1)[g];
            assert(h(results[n])[g] == x);
            assert(h(results[n]).contains(x));
            lemma_flattened_has(results, h, n, x);
            let i = choose|i: int| 0 <= i < frames.len() && frames[i] == x;
            assert(holds_no_row(frames[i]));
        }
        assert(frames.contains(frames[0]));
        let n = lemma_flattened_from(results, h, frames[0]);
        let fs = frames_in(results[n].1);
        assert(fs == h(results[n]));
        let g = choose|g: int| 0 <= g < fs.len() && fs[g] == frames[0];
        assert(holds_no_row(frames_in(results[n].1)[g]));
    }
    if holds_empty_frames(Some(data)) {
        let (n, g) = choose|n: int, g: int|
            0 <= n < results.len() && 0 <= g < frames_in((#[trigger] results[n]).1).len()
                && holds_no_row(#[trigger] frames_in(results[n].1)[g]);
        let x = frames_in(results[n].1)[g];
        assert(h(results[n])[g] == x);
        assert(h(results[n]).contains(x));
        lemma_flattened_has(results, h, n, x);
        assert forall|i: int| 0 <= i < frames.len() implies holds_no_row(#[trigger] frames[i]) by {
            assert(frames.contains(frames[i]));
            let m = lemma_flattened_from(results, h, frames[i]);
            let fs = frames_in(results[m].1);
            assert(fs == h(results[m]));
            let q = choose|q: int| 0 <= q < fs.len() && fs[q] == frames[i];
            assert(holds_no_row(frames_in(results[m].1)[q]));
        }
    }
    let e = |m: (Seq<char>, JsonV)| error_in(m);
    if errors_of(data).len() == 0 {
        assert forall|n: int| 0 <= n < results.len() implies !fails((#[trigger] results[n]).1) by {
            if fails(results[n].1) {
                lemma_collected_has(results, e, n);
            }
        }
    } else {
        let first = errors_of(data)[0];
        assert(errors_of(data).contains(first));
        let n = lemma_collected_from(results, e, first);
        assert(fails(results[n].1));
    }
}

/// A finding tells that the queries of a panel returned no row.
pub open spec fn tells_empty(d: DashSourceV, k: int, item: int, f: FindingV) -> bool {
    &&& 0 <= k < board_panels(d.artifact).len()
    &&& !shows_nothing(board_panels(d.artifact)[k])
    &&& answers(d.artifact, board_panels(d.artifact)[k], item)
    &&& forall|n: int|
        0 <= n < results_in(d.artifact.items[item].data).len() ==> !fails(
            (#[trigger] results_in(d.artifact.items[item].data)[n]).1,
        )
    &&& holds_empty_frames(d.artifact.items[item].data)
    &&& on_panel(f, d, board_panels(d.artifact)[k])
    &&& f.severity is Warn
    &&& f.message == "query ran but returned 0 rows"@
}

proof fn lemma_empty(d: DashSourceV, f: FindingV)
    requires
        f.class == "empty-panel"@,
    ensures
        empty_findings(d).contains(f) <==> exists|k: int, item: int| tells_empty(d, k, item, f),
{
    let panels = solid_panels(dash_of(d.artifact));
    let g = |p: JsonV| empty_on(d, p);
    if empty_findings(d).contains(f) {
        let q = lemma_collected_from(panels, g, f);
        assert(panels.contains(panels[q]));
        let k = lemma_solid_from(d.artifact, panels[q]);
        let item = lemma_answer_from(d, panels[q]);
        lemma_empty_frames(data_for(d, panels[q])->0);
        assert(tells_empty(d, k, item, f));
    }
    if exists|k: int, item: int| tells_empty(d, k, item, f) {
        let (k, item) = choose|k: int, item: int| tells_empty(d, k, item, f);
        let q = lemma_solid_at(d.artifact, k);
        lemma_answer(d, panels[q], item);
        lemma_empty_frames(data_for(d, panels[q])->0);
        assert(g(panels[q]) == Some(f));
        lemma_collected_has(panels, g, q);
    }
}

/// A panel whose queries ran without an error and returned frames without a row
/// is found, and no other one.
pub proof fn law_empty_panels_are_found(
    ds: Seq<DsEntryV>,
    dashboards: Seq<DashSourceV>,
    f: FindingV,
)
    requires
        f.class == "empty-panel"@,
    ensures
        audit_of(ds, dashboards).contains(f) <==> exists|i: int, k: int, item: int|
            0 <= i < dashboards.len() && #[trigger] tells_empty(dashboards[i], k, item, f),
{
    lemma_found_by_class(ds, dashboards, f);
    assert forall|i: int| 0 <= i < dashboards.len() implies (empty_findings(
        #[trigger] dashboards[i],
    ).contains(f) <==> exists|k: int, item: int| tells_empty(dashboards[i], k, item, f)) by {
        lemma_empty(dashboards[i], f);
    }
}

// ---------------------------------------------------------------------------
// Variables
// ---------------------------------------------------------------------------

/// A variable has no value: neither a current one nor a query.
pub open spec fn has_no_value(v: JsonV) -> bool {
    &&& match member(member(Some(v), "current"@), "value"@) {
        Some(JsonV::Text(s)) => s.len() == 0,
        Some(JsonV::Float(s)) => s.len() == 0,
        Some(_) => false,
        None => true,
    }
    &&& text_member(Some(v), "query"@) matches Some(q) ==> q.len() == 0
}

/// A finding tells that a constant variable has no value, or that it has one.
pub open spec fn tells_constant(d: DashSourceV, k: int, f: FindingV) -> bool {
    let v = board_variables(d.artifact)[k];
    let name = match text_member(Some(v), "name"@) {
        Some(s) => s,
        None => Seq::empty(),
    };
    &&& 0 <= k < board_variables(d.artifact).len()
    &&& text_member(Some(v), "type"@) == Some("constant"@)
    &&& on_board(f, d)
    &&& has_no_value(v) ==> f.class == "blank-variable"@ && f.severity is Warn && f.message
        == "constant variable `"@ + name + "` is left empty"@
    &&& !has_no_value(v) ==> f.class == "constant-variable"@ && f.severity is Info && f.message
        == "constant variable `"@ + name + "` hardcodes a value"@
}

proof fn lemma_no_value(v: JsonV)
    ensures
        has_no_value(v) <==> current_value(v).len() == 0 && query_empty(v),
{
    reveal_strlit("");
    reveal_strlit("null");
    reveal_strlit("true");
    reveal_strlit("false");
    reveal_strlit("[");
    reveal_strlit("{");
    if let Some(x) = member(member(Some(v), "current"@), "value"@) {
        if let JsonV::Int(i) = x {
            if i >= 0 {
                law_decimal_writes_the_number(i as nat);
            }
            assert(integer(i).len() > 0);
        }
        if let JsonV::Text(s) = x {
            assert(cell_text(x) == s);
        } else {
            assert(cell_text(x) == json_text(x));
            assert(!(x is Float) ==> json_text(x).len() > 0);
        }
    }
}

proof fn lemma_constant(d: DashSourceV, f: FindingV)
    ensures
        variable_findings(d).contains(f) <==> exists|k: int| tells_constant(d, k, f),
{
    reveal_strlit("");
    reveal_strlit("constant");
    assert(""@ =~= Seq::<char>::empty());
    let vs = board_variables(d.artifact);
    let g = |v: JsonV| variable_finding(d, v);
    if variable_findings(d).contains(f) {
        let k = lemma_collected_from(vs, g, f);
        lemma_no_value(vs[k]);
        assert(tells_constant(d, k, f));
    }
    if exists|k: int| tells_constant(d, k, f) {
        let k = choose|k: int| tells_constant(d, k, f);
        lemma_no_value(vs[k]);
        assert(g(vs[k]) == Some(f));
        lemma_collected_has(vs, g, k);
    }
}

/// A constant variable is found, for having no value or for having a fixed one,
/// and no other variable is.
pub proof fn law_constants_are_found(
    ds: Seq<DsEntryV>,
    dashboards: Seq<DashSourceV>,
    f: FindingV,
)
    requires
        f.class == "blank-variable"@ || f.class == "constant-variable"@,
    ensures
        audit_of(ds, dashboards).contains(f) <==> exists|i: int, k: int|
            0 <= i < dashboards.len() && #[trigger] tells_constant(dashboards[i], k, f),
{
    lemma_found_by_class(ds, dashboards, f);
    assert forall|i: int| 0 <= i < dashboards.len() implies (variable_findings(
        #[trigger] dashboards[i],
    ).contains(f) <==> exists|k: int| tells_constant(dashboards[i], k, f)) by {
        lemma_constant(dashboards[i], f);
    }
}

// ---------------------------------------------------------------------------
// Counts
// ---------------------------------------------------------------------------

/// How many findings are of a class.
pub open spec fn count_of(fs: Seq<FindingV>, class: Seq<char>) -> nat {
    fs.filter(|f: FindingV| f.class == class).len()
}

proof fn lemma_push_count<A>(xs: Seq<A>, x: A, p: spec_fn(A) -> bool)
    ensures
        xs.push(x).filter(p).len() == xs.filter(p).len() + (if p(x) {
            1int
        } else {
            0
        }),
{
    reveal(Seq::filter);
    assert(xs.push(x).drop_last() =~= xs);
}

proof fn lemma_placed_count<A>(
    xs: Seq<A>,
    x: A,
    leq: spec_fn(A, A) -> bool,
    p: spec_fn(A) -> bool,
)
    ensures
        placed(xs, x, leq).filter(p).len() == xs.push(x).filter(p).len(),
    decreases xs.len(),
{
    if xs.len() > 0 && !leq(xs.last(), x) {
        let init = xs.drop_last();
        lemma_placed_count(init, x, leq, p);
        lemma_push_count(placed(init, x, leq), xs.last(), p);
        lemma_push_count(init, x, p);
        lemma_push_count(init, xs.last(), p);
        lemma_push_count(xs, x, p);
        assert(xs =~= init.push(xs.last()));
    }
}

pub proof fn lemma_ordered_count<A>(xs: Seq<A>, leq: spec_fn(A, A) -> bool, p: spec_fn(A) -> bool)
    ensures
        ordered(xs, leq).filter(p).len() == xs.filter(p).len(),
    decreases xs.len(),
{
    if xs.len() > 0 {
        let init = xs.drop_last();
        lemma_ordered_count(init, leq, p);
        lemma_placed_count(ordered(init, leq), xs.last(), leq, p);
        reveal(Seq::filter);
        assert(ordered(init, leq).push(xs.last()).drop_last() =~= ordered(init, leq));
    }
}

proof fn lemma_sum_count<A>(a: Seq<A>, b: Seq<A>, p: spec_fn(A) -> bool)
    ensures
        (a + b).filter(p).len() == a.filter(p).len() + b.filter(p).len(),
{
    Seq::filter_distributes_over_add(a, b, p);
}

/// Counting by two conditions that come to the same.
pub proof fn lemma_same_count<A>(xs: Seq<A>, p: spec_fn(A) -> bool, q: spec_fn(A) -> bool)
    requires
        forall|i: int| 0 <= i < xs.len() ==> p(#[trigger] xs[i]) == q(xs[i]),
    ensures
        xs.filter(p) == xs.filter(q),
    decreases xs.len(),
{
    reveal(Seq::filter);
    if xs.len() > 0 {
        let init = xs.drop_last();
        assert forall|i: int| 0 <= i < init.len() implies p(#[trigger] init[i]) == q(init[i]) by {
            assert(p(xs[i]) == q(xs[i]));
        }
        lemma_same_count(init, p, q);
        assert(p(xs[xs.len() - 1]) == q(xs[xs.len() - 1]));
    }
}

proof fn lemma_all_count<A>(xs: Seq<A>, p: spec_fn(A) -> bool)
    ensures
        (forall|x: A| #[trigger] xs.contains(x) ==> p(x)) ==> xs.filter(p).len() == xs.len(),
        (forall|x: A| #[trigger] xs.contains(x) ==> !p(x)) ==> xs.filter(p).len() == 0,
    decreases xs.len(),
{
    reveal(Seq::filter);
    if xs.len() > 0 {
        let init = xs.drop_last();
        lemma_all_count(init, p);
        assert(xs.contains(xs[xs.len() - 1]));
        assert forall|x: A| #[trigger] init.contains(x) implies xs.contains(x) by {
            let i = choose|i: int| 0 <= i < init.len() && init[i] == x;
            assert(xs[i] == x);
        }
    }
}

/// As many are collected as there are items that something is made of.
pub proof fn lemma_collected_count<A, B>(
    xs: Seq<A>,
    f: spec_fn(A) -> Option<B>,
    p: spec_fn(B) -> bool,
)
    ensures
        collected(xs, f).filter(p).len() == xs.filter(|x: A| f(x) is Some && p(f(x)->0)).len(),
        collected(xs, f).len() == xs.filter(|x: A| f(x) is Some).len(),
    decreases xs.len(),
{
    reveal(Seq::filter);
    if xs.len() > 0 {
        lemma_collected_count(xs.drop_last(), f, p);
        if let Some(b) = f(xs.last()) {
            let init = collected(xs.drop_last(), f);
            assert(init.push(b).drop_last() =~= init);
        }
    }
}

/// What each check contributes to the findings of a class.
proof fn lemma_dashboard_count(ds: Seq<DsEntryV>, d: DashSourceV, class: Seq<char>)
    ensures
        count_of(dashboard_findings(d, ds), class) == count_of(dead_findings(d, ds), class)
            + count_of(broken_findings(d), class) + count_of(empty_findings(d), class)
            + count_of(orphan_findings(d), class) + count_of(variable_findings(d), class),
        count_of(dead_findings(d, ds), class) == (if class == "dead-datasource"@ {
            dead_findings(d, ds).len()
        } else {
            0
        }),
        count_of(broken_findings(d), class) == (if class == "broken-query"@ {
            broken_findings(d).len()
        } else {
            0
        }),
        count_of(empty_findings(d), class) == (if class == "empty-panel"@ {
            empty_findings(d).len()
        } else {
            0
        }),
        count_of(orphan_findings(d), class) == (if class == "orphan"@ {
            orphan_findings(d).len()
        } else {
            0
        }),
        class != "blank-variable"@ && class != "constant-variable"@ ==> count_of(
            variable_findings(d),
            class,
        ) == 0,
{
    let p = |f: FindingV| f.class == class;
    let a = dead_findings(d, ds);
    let b = broken_findings(d);
    let c = empty_findings(d);
    let o = orphan_findings(d);
    let v = variable_findings(d);
    lemma_sum_count(a, b, p);
    lemma_sum_count(a + b, c, p);
    lemma_sum_count(a + b + c, o, p);
    lemma_sum_count(a + b + c + o, v, p);
    assert forall|f: FindingV| true implies {
        &&& #[trigger] a.contains(f) ==> f.class == "dead-datasource"@
        &&& b.contains(f) ==> f.class == "broken-query"@
        &&& c.contains(f) ==> f.class == "empty-panel"@
        &&& o.contains(f) ==> f.class == "orphan"@
        &&& v.contains(f) ==> f.class == "blank-variable"@ || f.class == "constant-variable"@
    } by {
        lemma_on_dashboard(ds, d, f);
    }
    assert forall|f: FindingV| #[trigger] b.contains(f) implies f.class == "broken-query"@ by {
        lemma_on_dashboard(ds, d, f);
    }
    assert forall|f: FindingV| #[trigger] c.contains(f) implies f.class == "empty-panel"@ by {
        lemma_on_dashboard(ds, d, f);
    }
    assert forall|f: FindingV| #[trigger] o.contains(f) implies f.class == "orphan"@ by {
        lemma_on_dashboard(ds, d, f);
    }
    assert forall|f: FindingV| #[trigger] v.contains(f) implies f.class == "blank-variable"@
        || f.class == "constant-variable"@ by {
        lemma_on_dashboard(ds, d, f);
    }
    lemma_all_count(a, p);
    lemma_all_count(b, p);
    lemma_all_count(c, p);
    lemma_all_count(o, p);
    lemma_all_count(v, p);
}

proof fn lemma_audit_count(ds: Seq<DsEntryV>, dashboards: Seq<DashSourceV>, class: Seq<char>)
    ensures
        class != "duplicate-dashboard"@ && class != "unused-datasource"@ ==> count_of(
            audit_of(ds, dashboards),
            class,
        ) == count_of(flattened(dashboards, |d: DashSourceV| dashboard_findings(d, ds)), class),
        class == "duplicate-dashboard"@ ==> count_of(audit_of(ds, dashboards), class)
            == duplicate_findings(dashboards).len(),
        class == "unused-datasource"@ ==> count_of(audit_of(ds, dashboards), class)
            == unused_findings(
            ds,
            flattened(dashboards, |d: DashSourceV| referenced_in(d, ds)),
        ).len(),
{
    lemma_classes_differ();
    let cs = classes();
    assert(cs[0] == "dead-datasource"@ && cs[1] == "broken-query"@ && cs[2] == "empty-panel"@
        && cs[3] == "orphan"@ && cs[4] == "blank-variable"@ && cs[5] == "constant-variable"@
        && cs[6] == "duplicate-dashboard"@ && cs[7] == "unused-datasource"@);
    let p = |f: FindingV| f.class == class;
    let g = |d: DashSourceV| dashboard_findings(d, ds);
    let a = flattened(dashboards, g);
    let b = duplicate_findings(dashboards);
    let referenced = flattened(dashboards, |d: DashSourceV| referenced_in(d, ds));
    let c = unused_findings(ds, referenced);
    lemma_ordered_count(all_findings(ds, dashboards), finding_order(), p);
    lemma_sum_count(a, b, p);
    lemma_sum_count(a + b, c, p);
    assert forall|f: FindingV| #[trigger] a.contains(f) implies f.class != cs[6] && f.class
        != cs[7] by {
        let i = lemma_flattened_from(dashboards, g, f);
        lemma_on_dashboard(ds, dashboards[i], f);
    }
    assert forall|f: FindingV| #[trigger] b.contains(f) implies f.class == cs[6] by {
        lemma_duplicate_class(dashboards, f);
    }
    assert forall|f: FindingV| #[trigger] c.contains(f) implies f.class == cs[7] by {
        lemma_unused_class(ds, referenced, f);
    }
    lemma_all_count(a, p);
    lemma_all_count(b, p);
    lemma_all_count(c, p);
}

/// What is found on a dashboard does not depend on the other ones, but for
/// duplicates and for unused datasources.
pub proof fn law_dashboards_are_checked_one_by_one(
    ds: Seq<DsEntryV>,
    a: Seq<DashSourceV>,
    b: Seq<DashSourceV>,
    class: Seq<char>,
)
    requires
        class != "duplicate-dashboard"@,
        class != "unused-datasource"@,
    ensures
        count_of(audit_of(ds, a + b), class) == count_of(audit_of(ds, a), class) + count_of(
            audit_of(ds, b),
            class,
        ),
{
    lemma_audit_count(ds, a + b, class);
    lemma_audit_count(ds, a, class);
    lemma_audit_count(ds, b, class);
    let g = |d: DashSourceV| dashboard_findings(d, ds);
    if a.len() > 0 {
        law_flattened_of_parts(a, b, a[0], g);
    } else {
        assert(a + b =~= b);
    }
    lemma_sum_count(flattened(a, g), flattened(b, g), |f: FindingV| f.class == class);
}

/// The queries of a panel ran without an error and returned frames without a row.
pub open spec fn runs_empty(a: ArtifactV, panel: JsonV) -> bool {
    exists|item: int|
        #![trigger answers(a, panel, item)]
        answers(a, panel, item) && holds_empty_frames(a.items[item].data) && forall|n: int|
            0 <= n < results_in(a.items[item].data).len() ==> !fails(
                (#[trigger] results_in(a.items[item].data)[n]).1,
            )
}

/// The results of a panel's queries that tell of an error.
pub open spec fn failures(a: ArtifactV, panel: JsonV) -> Seq<(Seq<char>, JsonV)> {
    if !shows_nothing(panel) && exists|item: int| answers(a, panel, item) {
        results_in(a.items[choose|item: int| answers(a, panel, item)].data).filter(
            |m: (Seq<char>, JsonV)| fails(m.1),
        )
    } else {
        Seq::empty()
    }
}

proof fn lemma_runs_empty(d: DashSourceV, panel: JsonV)
    ensures
        empty_on(d, panel) is Some <==> runs_empty(d.artifact, panel),
{
    if empty_on(d, panel) is Some {
        let item = lemma_answer_from(d, panel);
        lemma_empty_frames(data_for(d, panel)->0);
        assert(answers(d.artifact, panel, item));
    }
    if runs_empty(d.artifact, panel) {
        let item = choose|item: int|
            #![trigger answers(d.artifact, panel, item)]
            answers(d.artifact, panel, item) && holds_empty_frames(d.artifact.items[item].data)
                && forall|n: int|
                0 <= n < results_in(d.artifact.items[item].data).len() ==> !fails(
                    (#[trigger] results_in(d.artifact.items[item].data)[n]).1,
                );
        lemma_answer(d, panel, item);
        lemma_empty_frames(data_for(d, panel)->0);
    }
}

proof fn lemma_failures(d: DashSourceV, panel: JsonV)
    requires
        !shows_nothing(panel),
    ensures
        broken_on(d, panel).len() == failures(d.artifact, panel).len(),
{
    if data_for(d, panel) is Some {
        let first = lemma_answer_from(d, panel);
        let item = choose|item: int| answers(d.artifact, panel, item);
        assert(answers(d.artifact, panel, item));
        lemma_answer(d, panel, item);
        let data = data_for(d, panel)->0;
        let results = results_in(Some(data));
        let e = |m: (Seq<char>, JsonV)| error_in(m);
        lemma_collected_count(results, e, |x: (Seq<char>, Seq<char>)| true);
        lemma_same_count(
            results,
            |m: (Seq<char>, JsonV)| e(m) is Some,
            |m: (Seq<char>, JsonV)| fails(m.1),
        );
    } else if exists|item: int| answers(d.artifact, panel, item) {
        let item = choose|item: int| answers(d.artifact, panel, item);
        lemma_answer(d, panel, item);
    }
}

proof fn lemma_failure_count(d: DashSourceV, panels: Seq<JsonV>)
    ensures
        flattened(
            collected(panels, |p: JsonV| solid(p)),
            |p: JsonV| broken_on(d, p),
        ).len() == flattened(panels, |p: JsonV| failures(d.artifact, p)).len(),
    decreases panels.len(),
{
    if panels.len() > 0 {
        let init = panels.drop_last();
        let p = panels.last();
        lemma_failure_count(d, init);
        let s = |p: JsonV| solid(p);
        if shows_nothing(p) {
            assert(failures(d.artifact, p).len() == 0);
        } else {
            lemma_failures(d, p);
            let before = collected(init, s);
            assert(collected(panels, s) == before.push(p));
            assert(before.push(p).drop_last() =~= before);
        }
    }
}

/// As much is found on a dashboard as there is to find: one finding for an orphan,
/// one for each panel without its datasource or without a row, one for each result
/// that tells of an error, and one for each constant variable.
pub proof fn law_findings_are_counted(ds: Seq<DsEntryV>, d: DashSourceV)
    ensures
        count_of(audit_of(ds, seq![d]), "orphan"@) == (if in_no_folder(d.artifact) || has_no_tag(
            d.artifact,
        ) {
            1nat
        } else {
            0
        }),
        count_of(audit_of(ds, seq![d]), "dead-datasource"@) == board_panels(d.artifact).filter(
            |p: JsonV|
                !shows_nothing(p) && !names_variable(member(Some(p), "datasource"@)) && means_none(
                    member(Some(p), "datasource"@),
                    ds,
                ),
        ).len(),
        count_of(audit_of(ds, seq![d]), "empty-panel"@) == board_panels(d.artifact).filter(
            |p: JsonV| !shows_nothing(p) && runs_empty(d.artifact, p),
        ).len(),
        count_of(audit_of(ds, seq![d]), "broken-query"@) == flattened(
            board_panels(d.artifact),
            |p: JsonV| failures(d.artifact, p),
        ).len(),
        count_of(audit_of(ds, seq![d]), "blank-variable"@) == board_variables(d.artifact).filter(
            |v: JsonV| text_member(Some(v), "type"@) == Some("constant"@) && has_no_value(v),
        ).len(),
        count_of(audit_of(ds, seq![d]), "constant-variable"@) == board_variables(
            d.artifact,
        ).filter(
            |v: JsonV| text_member(Some(v), "type"@) == Some("constant"@) && !has_no_value(v),
        ).len(),
{
    lemma_classes_differ();
    let cs = classes();
    assert(cs[0] == "dead-datasource"@ && cs[1] == "broken-query"@ && cs[2] == "empty-panel"@
        && cs[3] == "orphan"@ && cs[4] == "blank-variable"@ && cs[5] == "constant-variable"@
        && cs[6] == "duplicate-dashboard"@ && cs[7] == "unused-datasource"@);
    let g = |x: DashSourceV| dashboard_findings(x, ds);
    law_flattened_of_parts(seq![d], seq![d], d, g);
    assert forall|k: int| 0 <= k < 6 implies count_of(audit_of(ds, seq![d]), #[trigger] cs[k])
        == count_of(dashboard_findings(d, ds), cs[k]) by {
        lemma_audit_count(ds, seq![d], cs[k]);
    }
    lemma_dashboard_count(ds, d, cs[0]);
    lemma_dashboard_count(ds, d, cs[1]);
    lemma_dashboard_count(ds, d, cs[2]);
    lemma_dashboard_count(ds, d, cs[3]);
    lemma_dashboard_count(ds, d, cs[4]);
    lemma_dashboard_count(ds, d, cs[5]);
    lemma_tags(d.artifact);
    let panels = board_panels(d.artifact);
    let dead = |p: JsonV| dead_on(d, p, ds);
    let no_datasource = |p: JsonV|
        !shows_nothing(p) && !names_variable(member(Some(p), "datasource"@)) && means_none(
            member(Some(p), "datasource"@),
            ds,
        );
    assert forall|i: int| 0 <= i < panels.len() implies no_datasource(#[trigger] panels[i]) == (
    !shows_nothing(panels[i]) && dead(panels[i]) is Some) by {
        lemma_reference(member(Some(panels[i]), "datasource"@), ds);
    }
    lemma_panel_count(panels, dead, no_datasource);
    let empty = |p: JsonV| empty_on(d, p);
    let no_row = |p: JsonV| !shows_nothing(p) && runs_empty(d.artifact, p);
    assert forall|i: int| 0 <= i < panels.len() implies no_row(#[trigger] panels[i]) == (
    !shows_nothing(panels[i]) && empty(panels[i]) is Some) by {
        lemma_runs_empty(d, panels[i]);
    }
    lemma_panel_count(panels, empty, no_row);
    lemma_failure_count(d, panels);
    lemma_constant_count(d, true);
    lemma_constant_count(d, false);
}

proof fn lemma_panel_count(
    panels: Seq<JsonV>,
    f: spec_fn(JsonV) -> Option<FindingV>,
    q: spec_fn(JsonV) -> bool,
)
    requires
        forall|i: int|
            0 <= i < panels.len() ==> q(#[trigger] panels[i]) == (!shows_nothing(panels[i]) && f(
                panels[i],
            ) is Some),
    ensures
        collected(collected(panels, |p: JsonV| solid(p)), f).len() == panels.filter(q).len(),
{
    let s = |p: JsonV| solid(p);
    let made = |p: JsonV| f(p) is Some;
    lemma_collected_count(collected(panels, s), f, |x: FindingV| true);
    lemma_collected_count(panels, s, made);
    lemma_same_count(panels, q, |p: JsonV| s(p) is Some && made(s(p)->0));
}

proof fn lemma_constant_count(d: DashSourceV, blank: bool)
    ensures
        count_of(
            variable_findings(d),
            if blank {
                "blank-variable"@
            } else {
                "constant-variable"@
            },
        ) == board_variables(d.artifact).filter(
            |v: JsonV|
                text_member(Some(v), "type"@) == Some("constant"@) && has_no_value(v) == blank,
        ).len(),
        board_variables(d.artifact).filter(
            |v: JsonV|
                text_member(Some(v), "type"@) == Some("constant"@) && has_no_value(v) == true,
        ) == board_variables(d.artifact).filter(
            |v: JsonV| text_member(Some(v), "type"@) == Some("constant"@) && has_no_value(v),
        ),
        board_variables(d.artifact).filter(
            |v: JsonV|
                text_member(Some(v), "type"@) == Some("constant"@) && has_no_value(v) == false,
        ) == board_variables(d.artifact).filter(
            |v: JsonV| text_member(Some(v), "type"@) == Some("constant"@) && !has_no_value(v),
        ),
{
    lemma_classes_differ();
    let cs = classes();
    assert(cs[4] == "blank-variable"@ && cs[5] == "constant-variable"@);
    assert(cs[4] != cs[5]);
    reveal_strlit("");
    reveal_strlit("constant");
    assert(""@.len() != "constant"@.len());
    let class = if blank {
        "blank-variable"@
    } else {
        "constant-variable"@
    };
    let vs = board_variables(d.artifact);
    let f = |v: JsonV| variable_finding(d, v);
    let p = |x: FindingV| x.class == class;
    let q = |v: JsonV|
        text_member(Some(v), "type"@) == Some("constant"@) && has_no_value(v) == blank;
    lemma_collected_count(vs, f, p);
    let made = |v: JsonV| f(v) is Some && p(f(v)->0);
    assert forall|i: int| 0 <= i < vs.len() implies q(#[trigger] vs[i]) == made(vs[i]) by {
        lemma_no_value(vs[i]);
    }
    lemma_same_count(vs, q, made);
    lemma_same_count(
        vs,
        |v: JsonV| text_member(Some(v), "type"@) == Some("constant"@) && has_no_value(v) == true,
        |v: JsonV| text_member(Some(v), "type"@) == Some("constant"@) && has_no_value(v),
    );
    lemma_same_count(
        vs,
        |v: JsonV| text_member(Some(v), "type"@) == Some("constant"@) && has_no_value(v) == false,
        |v: JsonV| text_member(Some(v), "type"@) == Some("constant"@) && !has_no_value(v),
    );
}

proof fn lemma_mapped_count<A, B>(xs: Seq<A>, f: spec_fn(A) -> B, p: spec_fn(B) -> bool)
    ensures
        xs.map_values(f).filter(p).len() == xs.filter(|x: A| p(f(x))).len(),
    decreases xs.len(),
{
    reveal(Seq::filter);
    if xs.len() > 0 {
        lemma_mapped_count(xs.drop_last(), f, p);
        assert(xs.map_values(f).drop_last() =~= xs.drop_last().map_values(f));
    }
}

/// As many datasources are found to be unused as are configured and not meant by
/// any panel.
pub proof fn law_unused_datasources_are_counted(ds: Seq<DsEntryV>, dashboards: Seq<DashSourceV>)
    ensures
        count_of(audit_of(ds, dashboards), "unused-datasource"@) == ds.filter(
            |e: DsEntryV|
                forall|i: int, k: int|
                    0 <= i < dashboards.len() ==> !#[trigger] panel_means(
                        ds,
                        dashboards[i],
                        k,
                        e.name,
                    ),
        ).len(),
{
    lemma_audit_count(ds, dashboards, "unused-datasource"@);
    let referenced = flattened(dashboards, |d: DashSourceV| referenced_in(d, ds));
    let pair = |d: DsEntryV| (d.name, d.ds_type);
    let pairs = ds.map_values(pair);
    let sorted = ordered(pairs, by_name());
    let g = |d: (Seq<char>, Seq<char>)| unused_on(d, referenced);
    let p = |d: (Seq<char>, Seq<char>)| g(d) is Some;
    lemma_collected_count(sorted, g, |x: FindingV| true);
    lemma_ordered_count(pairs, by_name(), p);
    lemma_mapped_count(ds, pair, p);
    let q = |e: DsEntryV|
        forall|i: int, k: int|
            0 <= i < dashboards.len() ==> !#[trigger] panel_means(ds, dashboards[i], k, e.name);
    let made = |e: DsEntryV| p(pair(e));
    assert forall|j: int| 0 <= j < ds.len() implies q(#[trigger] ds[j]) == made(ds[j]) by {
        lemma_referenced(ds, dashboards, ds[j].name);
    }
    lemma_same_count(ds, q, made);
}

// ---------------------------------------------------------------------------
// Duplicates
// ---------------------------------------------------------------------------

/// The fingerprint of the dashboard in an artifact.
pub open spec fn board_print(a: ArtifactV) -> Seq<char> {
    fingerprint_of(board(a))
}

/// The dashboards with a fingerprint.
pub open spec fn alike(dashboards: Seq<DashSourceV>, fp: Seq<char>) -> Seq<DashSourceV> {
    dashboards.filter(|d: DashSourceV| board_print(d.artifact) == fp)
}

/// Two dashboards have the same fingerprint.
pub open spec fn twins(dashboards: Seq<DashSourceV>, i: int, j: int) -> bool {
    &&& 0 <= i < dashboards.len()
    &&& 0 <= j < dashboards.len()
    &&& i != j
    &&& board_print(dashboards[i].artifact) == board_print(dashboards[j].artifact)
}

/// Among the dashboards with its fingerprint none has a lower uid.
pub open spec fn comes_first(dashboards: Seq<DashSourceV>, j: int) -> bool {
    forall|l: int|
        #[trigger] twins(dashboards, j, l) ==> text_le(
            board_uid(dashboards[j].artifact),
            board_uid(dashboards[l].artifact),
        )
}

/// What findings tell of a fingerprint.
pub open spec fn print_start(fp: Seq<char>) -> Seq<char> {
    if fp.len() >= 16 {
        fp.take(16)
    } else {
        fp
    }
}

/// A finding tells that a dashboard has twins: how many have its fingerprint, if
/// it comes first among them, else which one does.
pub open spec fn tells_duplicate(
    dashboards: Seq<DashSourceV>,
    i: int,
    j: int,
    f: FindingV,
) -> bool {
    let fp = board_print(dashboards[i].artifact);
    &&& twins(dashboards, i, j)
    &&& on_board(f, dashboards[i])
    &&& {
        ||| comes_first(dashboards, i) && f.severity is Info && f.message
            == "duplicate set (fingerprint "@ + print_start(fp) + "): "@ + decimal(
            alike(dashboards, fp).len(),
        ) + " dashboards share this panel/query set"@
        ||| comes_first(dashboards, j) && f.severity is Warn && f.message == "duplicate of `"@
            + board_uid(dashboards[j].artifact) + "` (fingerprint "@ + print_start(fp) + ")"@
    }
}

proof fn lemma_two_counted<A>(xs: Seq<A>, p: spec_fn(A) -> bool, i: int, j: int)
    requires
        0 <= i < j < xs.len(),
        p(xs[i]),
        p(xs[j]),
    ensures
        xs.filter(p).len() >= 2,
    decreases xs.len(),
{
    reveal(Seq::filter);
    let init = xs.drop_last();
    if j < xs.len() - 1 {
        lemma_two_counted(init, p, i, j);
    } else {
        init.lemma_filter_contains(p, i);
        assert(init.filter(p).contains(init[i]));
    }
}

proof fn lemma_other_counted<A>(xs: Seq<A>, p: spec_fn(A) -> bool, i: int) -> (j: int)
    requires
        xs.filter(p).len() >= 2,
        0 <= i < xs.len(),
    ensures
        0 <= j < xs.len(),
        j != i,
        p(xs[j]),
    decreases xs.len(),
{
    reveal(Seq::filter);
    let init = xs.drop_last();
    if i < xs.len() - 1 && p(xs.last()) {
        xs.len() - 1
    } else if i == xs.len() - 1 {
        let x = init.filter(p)[0];
        assert(init.filter(p).contains(x));
        init.lemma_filter_contains_rev(p, x);
        init.lemma_filter_pred(p, 0);
        choose|j: int| 0 <= j < init.len() && init[j] == x
    } else {
        lemma_other_counted(init, p, i)
    }
}

/// The members of a group are the dashboards with its fingerprint, by uid.
proof fn lemma_group(dashboards: Seq<DashSourceV>, fp: Seq<char>)
    ensures
        group_of(dashboards, fp).len() == alike(dashboards, fp).len(),
        ascending(group_of(dashboards, fp), by_uid()),
        forall|m: (Seq<char>, Seq<char>, Seq<char>)|
            group_of(dashboards, fp).contains(m) ==> #[trigger] is_member(dashboards, fp, m),
        forall|i: int|
            0 <= i < dashboards.len() && board_print((#[trigger] dashboards[i]).artifact) == fp
                ==> group_of(dashboards, fp).contains(
                (
                    board_uid(dashboards[i].artifact),
                    board_title(dashboards[i].artifact),
                    dashboards[i].path,
                ),
            ),
{
    let f = |d: DashSourceV| identity_if(d, fp);
    let found = collected(dashboards, f);
    lemma_collected_count(dashboards, f, |x: (Seq<char>, Seq<char>, Seq<char>)| true);
    lemma_same_count(
        dashboards,
        |d: DashSourceV| f(d) is Some,
        |d: DashSourceV| board_print(d.artifact) == fp,
    );
    lemma_ordered_multiset(found, by_uid());
    lemma_uid_order();
    lemma_ordered_ascending(found, by_uid());
    assert forall|m: (Seq<char>, Seq<char>, Seq<char>)|
        group_of(dashboards, fp).contains(m) implies #[trigger] is_member(dashboards, fp, m) by {
        lemma_ordered_contains(found, by_uid(), m);
        let i = lemma_collected_from(dashboards, f, m);
        assert(print_of(dashboards[i]) == fp);
    }
    assert forall|i: int|
        0 <= i < dashboards.len() && board_print((#[trigger] dashboards[i]).artifact)
            == fp implies group_of(dashboards, fp).contains(
        (
            board_uid(dashboards[i].artifact),
            board_title(dashboards[i].artifact),
            dashboards[i].path,
        ),
    ) by {
        lemma_collected_has(dashboards, f, i);
        lemma_ordered_contains(found, by_uid(), f(dashboards[i])->0);
    }
}

spec fn is_member(
    dashboards: Seq<DashSourceV>,
    fp: Seq<char>,
    m: (Seq<char>, Seq<char>, Seq<char>),
) -> bool {
    exists|i: int|
        0 <= i < dashboards.len() && board_print((#[trigger] dashboards[i]).artifact) == fp
            && board_uid(dashboards[i].artifact) == m.0 && board_title(dashboards[i].artifact)
            == m.1 && dashboards[i].path == m.2
}

proof fn lemma_uid_order()
    ensures
        total_preorder(by_uid()),
{
    let leq = by_uid();
    assert forall|
        a: (Seq<char>, Seq<char>, Seq<char>),
        b: (Seq<char>, Seq<char>, Seq<char>),
    | #[trigger] leq(a, b) || leq(b, a) by {
        lemma_text_le_total(a.0, b.0);
    }
    assert forall|
        a: (Seq<char>, Seq<char>, Seq<char>),
        b: (Seq<char>, Seq<char>, Seq<char>),
        c: (Seq<char>, Seq<char>, Seq<char>),
    | #[trigger] leq(a, b) && #[trigger] leq(b, c) implies leq(a, c) by {
        lemma_text_le_transitive(a.0, b.0, c.0);
    }
}

/// The uid at the front of a group is the lowest one in it.
proof fn lemma_front(dashboards: Seq<DashSourceV>, fp: Seq<char>, j: int)
    requires
        0 <= j < dashboards.len(),
        board_print(dashboards[j].artifact) == fp,
        group_of(dashboards, fp).len() > 0,
        board_uid(dashboards[j].artifact) == group_of(dashboards, fp)[0].0,
    ensures
        comes_first(dashboards, j),
{
    lemma_group(dashboards, fp);
    let members = group_of(dashboards, fp);
    assert forall|l: int| #[trigger] twins(dashboards, j, l) implies text_le(
        board_uid(dashboards[j].artifact),
        board_uid(dashboards[l].artifact),
    ) by {
        let m = (
            board_uid(dashboards[l].artifact),
            board_title(dashboards[l].artifact),
            dashboards[l].path,
        );
        assert(board_print(dashboards[l].artifact) == fp);
        assert(members.contains(m));
        let k = choose|k: int| 0 <= k < members.len() && members[k] == m;
        if k == 0 {
            lemma_text_le_reflexive(m.0);
        } else {
            assert(by_uid()(members[0], members[k]));
        }
    }
}

/// The member `k` of the group of a dashboard is that dashboard.
spec fn stands_at(dashboards: Seq<DashSourceV>, i: int, k: int) -> bool {
    let members = group_of(dashboards, board_print(dashboards[i].artifact));
    &&& 0 <= i < dashboards.len()
    &&& members.len() >= 2
    &&& 0 <= k < members.len()
    &&& members[k] == (
        board_uid(dashboards[i].artifact),
        board_title(dashboards[i].artifact),
        dashboards[i].path,
    )
}

/// Another dashboard with the same fingerprint: where the dashboard is not at the
/// front of its group, one with the uid that is.
proof fn lemma_twin(dashboards: Seq<DashSourceV>, i: int, k: int) -> (j: int)
    requires
        stands_at(dashboards, i, k),
    ensures
        twins(dashboards, i, j),
        k > 0 ==> board_uid(dashboards[j].artifact) == group_of(
            dashboards,
            board_print(dashboards[i].artifact),
        )[0].0,
{
    let fp = board_print(dashboards[i].artifact);
    let members = group_of(dashboards, fp);
    lemma_group(dashboards, fp);
    if k == 0 {
        let j = lemma_other_counted(
            dashboards,
            |d: DashSourceV| board_print(d.artifact) == fp,
            i,
        );
        assert(twins(dashboards, i, j));
        j
    } else {
        let uid = members[0].0;
        assert(members.contains(members[0]));
        assert(is_member(dashboards, fp, members[0]));
        let at = choose|j: int|
            0 <= j < dashboards.len() && board_print((#[trigger] dashboards[j]).artifact) == fp
                && board_uid(dashboards[j].artifact) == members[0].0 && board_title(
                dashboards[j].artifact,
            ) == members[0].1 && dashboards[j].path == members[0].2;
        if at != i {
            at
        } else {
            let f = |d: DashSourceV| identity_if(d, fp);
            let found = collected(dashboards, f);
            let has_uid = |m: (Seq<char>, Seq<char>, Seq<char>)| m.0 == uid;
            lemma_two_counted(members, has_uid, 0, k);
            lemma_ordered_count(found, by_uid(), has_uid);
            lemma_collected_count(dashboards, f, has_uid);
            let j = lemma_other_counted(
                dashboards,
                |d: DashSourceV| f(d) is Some && has_uid(f(d)->0),
                i,
            );
            assert(f(dashboards[j]) is Some);
            j
        }
    }
}

/// What is told of the member `k` of a group, that is of the dashboard `i`.
proof fn lemma_member_told(dashboards: Seq<DashSourceV>, i: int, k: int) -> (j: int)
    requires
        stands_at(dashboards, i, k),
    ensures
        tells_duplicate(
            dashboards,
            i,
            j,
            group_findings(
                board_print(dashboards[i].artifact),
                group_of(dashboards, board_print(dashboards[i].artifact)),
            )[k],
        ),
{
    let fp = board_print(dashboards[i].artifact);
    let members = group_of(dashboards, fp);
    let finding = group_findings(fp, members)[k];
    let j = lemma_twin(dashboards, i, k);
    assert(members.len() == alike(dashboards, fp).len()) by {
        lemma_group(dashboards, fp);
    }
    assert(print_start(fp) =~= short_print(fp));
    if k == 0 {
        lemma_front(dashboards, fp, i);
    } else {
        lemma_front(dashboards, fp, j);
    }
    assert(finding == duplicate_finding(fp, members[0].0, members.len(), k == 0, members[k]));
    j
}

/// Every dashboard with a twin is found, and what is found of duplicates tells of
/// a dashboard and its twins.
pub proof fn law_twins_are_found(ds: Seq<DsEntryV>, dashboards: Seq<DashSourceV>, i: int, j: int)
    requires
        twins(dashboards, i, j),
    ensures
        exists|f: FindingV, l: int|
            #![trigger tells_duplicate(dashboards, i, l, f)]
            f.class == "duplicate-dashboard"@ && audit_of(ds, dashboards).contains(f)
                && tells_duplicate(dashboards, i, l, f),
{
    let k = lemma_place(dashboards, i, j);
    let fp = board_print(dashboards[i].artifact);
    let f = group_findings(fp, group_of(dashboards, fp))[k];
    let l = lemma_member_told(dashboards, i, k);
    lemma_group_found(dashboards, i, k);
    lemma_duplicate_class(dashboards, f);
    lemma_found_by_class(ds, dashboards, f);
    assert(tells_duplicate(dashboards, i, l, f));
}

/// A dashboard is a member of the group of its fingerprint.
proof fn lemma_in_group(dashboards: Seq<DashSourceV>, i: int)
    requires
        0 <= i < dashboards.len(),
    ensures
        group_of(dashboards, board_print(dashboards[i].artifact)).len() == alike(
            dashboards,
            board_print(dashboards[i].artifact),
        ).len(),
        group_of(dashboards, board_print(dashboards[i].artifact)).contains(
            (
                board_uid(dashboards[i].artifact),
                board_title(dashboards[i].artifact),
                dashboards[i].path,
            ),
        ),
{
    lemma_group(dashboards, board_print(dashboards[i].artifact));
}

/// Dashboards with the same fingerprint are two of those that have it.
proof fn lemma_twins_counted(dashboards: Seq<DashSourceV>, i: int, j: int)
    requires
        twins(dashboards, i, j),
    ensures
        alike(dashboards, board_print(dashboards[i].artifact)).len() >= 2,
{
    let fp = board_print(dashboards[i].artifact);
    let p = |d: DashSourceV| board_print(d.artifact) == fp;
    assert(p(dashboards[i]) && p(dashboards[j]));
    if i < j {
        lemma_two_counted(dashboards, p, i, j);
    } else {
        lemma_two_counted(dashboards, p, j, i);
    }
}

/// Where a dashboard with a twin stands in its group.
proof fn lemma_place(dashboards: Seq<DashSourceV>, i: int, j: int) -> (k: int)
    requires
        twins(dashboards, i, j),
    ensures
        stands_at(dashboards, i, k),
{
    lemma_in_group(dashboards, i);
    lemma_twins_counted(dashboards, i, j);
    let members = group_of(dashboards, board_print(dashboards[i].artifact));
    let m = (
        board_uid(dashboards[i].artifact),
        board_title(dashboards[i].artifact),
        dashboards[i].path,
    );
    choose|k: int| 0 <= k < members.len() && members[k] == m
}

proof fn lemma_group_found(dashboards: Seq<DashSourceV>, i: int, k: int)
    requires
        stands_at(dashboards, i, k),
    ensures
        duplicate_findings(dashboards).contains(
            group_findings(
                board_print(dashboards[i].artifact),
                group_of(dashboards, board_print(dashboards[i].artifact)),
            )[k],
        ),
{
    let fp = board_print(dashboards[i].artifact);
    let members = group_of(dashboards, fp);
    let f = group_findings(fp, members)[k];
    assert(group_findings(fp, members).contains(f));
    let prints = dashboards.map_values(|d: DashSourceV| print_of(d));
    let keys = distinct_texts(prints);
    assert(prints[i] == fp);
    assert(prints.contains(fp));
    lemma_distinct_contains(prints, fp);
    let n = choose|n: int| 0 <= n < keys.len() && keys[n] == fp;
    let g = |x: Seq<char>| group_findings(x, group_of(dashboards, x));
    lemma_flattened_has(keys, g, n, f);
}

/// What is found of duplicates tells of a dashboard that has a twin.
pub proof fn law_only_twins_are_found(
    ds: Seq<DsEntryV>,
    dashboards: Seq<DashSourceV>,
    f: FindingV,
)
    requires
        f.class == "duplicate-dashboard"@,
        audit_of(ds, dashboards).contains(f),
    ensures
        exists|i: int, j: int| #[trigger] tells_duplicate(dashboards, i, j, f),
{
    lemma_found_by_class(ds, dashboards, f);
    let keys = distinct_texts(dashboards.map_values(|d: DashSourceV| print_of(d)));
    let g = |x: Seq<char>| group_findings(x, group_of(dashboards, x));
    let n = lemma_flattened_from(keys, g, f);
    let fp = keys[n];
    let members = group_of(dashboards, fp);
    let found = group_findings(fp, members);
    assert(found == g(keys[n]));
    let k = choose|k: int| 0 <= k < found.len() && found[k] == f;
    lemma_group(dashboards, fp);
    assert(members.contains(members[k]));
    assert(is_member(dashboards, fp, members[k]));
    let i = choose|i: int|
        0 <= i < dashboards.len() && board_print((#[trigger] dashboards[i]).artifact) == fp
            && board_uid(dashboards[i].artifact) == members[k].0 && board_title(
            dashboards[i].artifact,
        ) == members[k].1 && dashboards[i].path == members[k].2;
    assert(stands_at(dashboards, i, k));
    let j = lemma_member_told(dashboards, i, k);
    assert(tells_duplicate(dashboards, i, j, f));
}

proof fn lemma_either_count<A>(
    xs: Seq<A>,
    p: spec_fn(A) -> bool,
    q: spec_fn(A) -> bool,
    r: spec_fn(A) -> bool,
)
    requires
        forall|x: A| #[trigger] r(x) == (p(x) || q(x)),
        forall|x: A| !(#[trigger] p(x) && q(x)),
    ensures
        xs.filter(r).len() == xs.filter(p).len() + xs.filter(q).len(),
    decreases xs.len(),
{
    reveal(Seq::filter);
    if xs.len() > 0 {
        lemma_either_count(xs.drop_last(), p, q, r);
        assert(r(xs.last()) == (p(xs.last()) || q(xs.last())));
        assert(!(p(xs.last()) && q(xs.last())));
    }
}

proof fn lemma_group_count(dashboards: Seq<DashSourceV>, keys: Seq<Seq<char>>)
    requires
        keys.no_duplicates(),
    ensures
        flattened(keys, |fp: Seq<char>| group_findings(fp, group_of(dashboards, fp))).len()
            == dashboards.filter(
            |d: DashSourceV|
                keys.contains(board_print(d.artifact)) && alike(
                    dashboards,
                    board_print(d.artifact),
                ).len() >= 2,
        ).len(),
    decreases keys.len(),
{
    let g = |fp: Seq<char>| group_findings(fp, group_of(dashboards, fp));
    let r = |d: DashSourceV|
        keys.contains(board_print(d.artifact)) && alike(dashboards, board_print(d.artifact)).len()
            >= 2;
    if keys.len() == 0 {
        assert forall|x: DashSourceV| #[trigger] dashboards.contains(x) implies !r(x) by {}
        lemma_all_count(dashboards, r);
    } else {
        let init = keys.drop_last();
        let fp = keys.last();
        lemma_group_count(dashboards, init);
        lemma_group(dashboards, fp);
        let p = |d: DashSourceV|
            init.contains(board_print(d.artifact)) && alike(
                dashboards,
                board_print(d.artifact),
            ).len() >= 2;
        let q = |d: DashSourceV|
            board_print(d.artifact) == fp && alike(dashboards, fp).len() >= 2;
        assert forall|x: DashSourceV| #[trigger] r(x) == (p(x) || q(x)) by {
            let y = board_print(x.artifact);
            assert(keys =~= init.push(fp));
            if keys.contains(y) {
                let k = choose|k: int| 0 <= k < keys.len() && keys[k] == y;
                if k < init.len() {
                    assert(init[k] == y);
                }
            }
            if init.contains(y) {
                let k = choose|k: int| 0 <= k < init.len() && init[k] == y;
                assert(keys[k] == y);
            }
            assert(keys[keys.len() - 1] == fp);
        }
        assert forall|x: DashSourceV| !(#[trigger] p(x) && q(x)) by {
            if p(x) && q(x) {
                let k = choose|k: int| 0 <= k < init.len() && init[k] == fp;
                assert(keys[k] == keys[keys.len() - 1]);
            }
        }
        lemma_either_count(dashboards, p, q, r);
        if alike(dashboards, fp).len() >= 2 {
            lemma_same_count(
                dashboards,
                q,
                |d: DashSourceV| board_print(d.artifact) == fp,
            );
        } else {
            assert forall|x: DashSourceV| #[trigger] dashboards.contains(x) implies !q(x) by {}
            lemma_all_count(dashboards, q);
        }
    }
}

/// As many findings tell of duplicates as dashboards share a fingerprint.
pub proof fn law_duplicates_are_counted(ds: Seq<DsEntryV>, dashboards: Seq<DashSourceV>)
    ensures
        count_of(audit_of(ds, dashboards), "duplicate-dashboard"@) == dashboards.filter(
            |d: DashSourceV| alike(dashboards, board_print(d.artifact)).len() >= 2,
        ).len(),
{
    lemma_audit_count(ds, dashboards, "duplicate-dashboard"@);
    let prints = dashboards.map_values(|d: DashSourceV| print_of(d));
    let keys = distinct_texts(prints);
    law_distinct_texts(prints);
    lemma_group_count(dashboards, keys);
    let r = |d: DashSourceV|
        keys.contains(board_print(d.artifact)) && alike(dashboards, board_print(d.artifact)).len()
            >= 2;
    let q = |d: DashSourceV| alike(dashboards, board_print(d.artifact)).len() >= 2;
    assert forall|i: int| 0 <= i < dashboards.len() implies r(#[trigger] dashboards[i]) == q(
        dashboards[i],
    ) by {
        assert(prints[i] == board_print(dashboards[i].artifact));
        assert(prints.contains(prints[i]));
    }
    lemma_same_count(dashboards, r, q);
}

/// Findings are compared by severity, errors first, then by class, dashboard,
/// panel, without one first, and message.
pub proof fn law_findings_are_compared(a: FindingV, b: FindingV)
    ensures
        finding_order()(a, b) <==> {
            ||| a.severity is Error && !(b.severity is Error)
            ||| a.severity is Warn && b.severity is Info
            ||| a.severity == b.severity && a.class != b.class && text_le(a.class, b.class)
            ||| a.severity == b.severity && a.class == b.class && a.dashboard_uid
                != b.dashboard_uid && text_le(a.dashboard_uid, b.dashboard_uid)
            ||| a.severity == b.severity && a.class == b.class && a.dashboard_uid
                == b.dashboard_uid && a.panel_id != b.panel_id && (a.panel_id is None || (
            b.panel_id is Some && a.panel_id->0 <= b.panel_id->0))
            ||| a.severity == b.severity && a.class == b.class && a.dashboard_uid
                == b.dashboard_uid && a.panel_id == b.panel_id && text_le(a.message, b.message)
        },
{
}

} // verus!
