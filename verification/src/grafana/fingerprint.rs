//! The fingerprint of a dashboard's content.
//!
//! Covers the sorted panel set (id, type, title, datasource reference, sorted
//! targets) and the sorted variable set (name, type), and nothing else: not the
//! dashboard's title, and not the order in which things are listed.

use crate::collect::{collected, lemma_collected_step};
use crate::digest::{blake3_hex, digest, hex_of};
use crate::grafana::model::{is_row, panel_is_row, panel_list, templating_list};
use crate::json::{
    array_texts, array_view, get_i64, get_member, get_text_or, i64_of_json, items_of, items_of_json,
    json_text, member, member_texts, opt_view, ref_views, text_member_or, with_member, Json,
    JsonMap, JsonV, Num,
};
use crate::order::{
    lemma_ordered_map, lemma_ordered_map_where, lemma_sorted_texts_canonical, ordered, sort,
    sorted_texts, text_order,
};
use crate::text::{join, le, text_le};
use vstd::prelude::*;

verus! {

/// The members of an object made of `pairs`, later ones replacing earlier ones.
pub open spec fn object_members(pairs: Seq<(Seq<char>, JsonV)>) -> Seq<(Seq<char>, JsonV)>
    decreases pairs.len(),
{
    if pairs.len() == 0 {
        Seq::empty()
    } else {
        with_member(object_members(pairs.drop_last()), pairs.last().0, pairs.last().1)
    }
}

/// An object made of `pairs`.
pub open spec fn object_of(pairs: Seq<(Seq<char>, JsonV)>) -> JsonV {
    JsonV::Object(object_members(pairs))
}

pub open spec fn by_text() -> spec_fn(JsonV, JsonV) -> bool {
    |a: JsonV, b: JsonV| text_le(json_text(a), json_text(b))
}

/// `xs`, ordered by their compact JSON form.
pub open spec fn text_sorted(xs: Seq<JsonV>) -> JsonV {
    JsonV::Array(ordered(xs, by_text()))
}

/// A member that is a string, else the empty one.
pub open spec fn text_part(j: JsonV, key: Seq<char>) -> JsonV {
    JsonV::Text(text_member_or(Some(j), key, ""@))
}

/// What the fingerprint takes of a target.
pub open spec fn target_projection(t: JsonV) -> JsonV {
    object_of(
        seq![
            ("refId"@, text_part(t, "refId"@)),
            ("rawSql"@, text_part(t, "rawSql"@)),
            ("expr"@, text_part(t, "expr"@)),
        ],
    )
}

/// The id of a panel, where it has one.
pub open spec fn id_part(p: JsonV) -> JsonV {
    match i64_of_json(member(Some(p), "id"@)) {
        Some(i) => JsonV::Int(i as int),
        None => JsonV::Null,
    }
}

/// The datasource reference of a panel, where it has one.
pub open spec fn datasource_part(p: JsonV) -> JsonV {
    match member(Some(p), "datasource"@) {
        Some(d) => d,
        None => JsonV::Null,
    }
}

/// What the fingerprint takes of a panel, given its targets.
pub open spec fn panel_with_targets(p: JsonV, targets: JsonV) -> JsonV {
    object_of(
        seq![
            ("id"@, id_part(p)),
            ("type"@, text_part(p, "type"@)),
            ("title"@, text_part(p, "title"@)),
            ("datasource"@, datasource_part(p)),
            ("targets"@, targets),
        ],
    )
}

/// What the fingerprint takes of the targets of a panel.
pub open spec fn targets_projection(p: JsonV) -> JsonV {
    text_sorted(
        items_of_json(member(Some(p), "targets"@)).map_values(|t: JsonV| target_projection(t)),
    )
}

/// What the fingerprint takes of a panel.
pub open spec fn panel_projection(p: JsonV) -> JsonV {
    panel_with_targets(p, targets_projection(p))
}

/// What the fingerprint takes of a template variable.
pub open spec fn variable_projection(v: JsonV) -> JsonV {
    object_of(seq![("name"@, text_part(v, "name"@)), ("type"@, text_part(v, "type"@))])
}

/// A panel that does not only group others.
pub open spec fn solid(p: JsonV) -> Option<JsonV> {
    if is_row(p) {
        None
    } else {
        Some(p)
    }
}

/// The panels of a dashboard that do not only group others, as listed.
pub open spec fn solid_panels(dash: Option<JsonV>) -> Seq<JsonV> {
    collected(panel_list(dash), |p: JsonV| solid(p))
}

/// What the fingerprint takes of a dashboard.
pub open spec fn projection(dash: Option<JsonV>) -> JsonV {
    object_of(
        seq![
            (
                "panels"@,
                text_sorted(solid_panels(dash).map_values(|p: JsonV| panel_projection(p))),
            ),
            (
                "variables"@,
                text_sorted(templating_list(dash).map_values(|v: JsonV| variable_projection(v))),
            ),
        ],
    )
}

/// The fingerprint of a dashboard: the digest of the printed projection.
pub open spec fn fingerprint_of(dash: Option<JsonV>) -> Seq<char> {
    blake3_hex(json_text(projection(dash)))
}

// ---------------------------------------------------------------------------
// Computing it
// ---------------------------------------------------------------------------

/// The model of a list of named values.
pub open spec fn pair_views(pairs: Seq<(String, Json)>) -> Seq<(Seq<char>, JsonV)> {
    pairs.map_values(|p: (String, Json)| (p.0@, p.1@))
}

fn make_object(pairs: Vec<(String, Json)>) -> (r: Json)
    ensures
        r@ == object_of(pair_views(pairs@)),
{
    let mut m = JsonMap::new();
    let ghost all = pair_views(pairs@);
    let ghost given = pairs@;
    for p in it: pairs
        invariant
            it.seq() == given,
            all == pair_views(given),
            m@ == object_members(all.take(it.index())),
    {
        assert(all.take(it.index() + 1).drop_last() =~= all.take(it.index()));
        m.insert(p.0, p.1);
    }
    assert(all.take(all.len() as int) =~= all);
    Json::Object(m)
}

fn keyed_le(a: &(String, Json), b: &(String, Json)) -> (c: bool)
    ensures
        c == text_le(a.0@, b.0@),
{
    le(a.0.as_str(), b.0.as_str())
}

/// Sort values by their compact JSON form.
fn sort_by_text(xs: Vec<Json>) -> (r: Json)
    ensures
        r@ == text_sorted(array_view(xs@)),
{
    let ghost given = xs@;
    let mut keyed: Vec<(String, Json)> = Vec::new();
    for x in it: xs
        invariant
            it.seq() == given,
            keyed@.len() == it.index(),
            forall|k: int|
                0 <= k < keyed@.len() ==> (#[trigger] keyed@[k]).1 == given[k] && keyed@[k].0@
                    == json_text(given[k]@),
    {
        let key = x.to_text();
        keyed.push((key, x));
    }
    let ghost leq = |a: (String, Json), b: (String, Json)| text_le(a.0@, b.0@);
    let ghost unsorted = keyed@;
    let sorted = sort(keyed, keyed_le, Ghost(leq));
    let ghost view = |p: (String, Json)| p.1@;
    proof {
        let honest = |p: (String, Json)| p.0@ == json_text(p.1@);
        lemma_ordered_map_where(unsorted, leq, view, by_text(), honest);
        assert(unsorted.map_values(view) =~= array_view(given));
    }
    let ghost ordered_pairs = sorted@;
    let mut out: Vec<Json> = Vec::new();
    for p in it: sorted
        invariant
            it.seq() == ordered_pairs,
            out@.len() == it.index(),
            forall|k: int| 0 <= k < out@.len() ==> (#[trigger] out@[k]) == ordered_pairs[k].1,
    {
        out.push(p.1);
    }
    assert(array_view(out@) =~= ordered_pairs.map_values(view));
    Json::Array(out)
}

/// A named string member of a projection.
fn text_pair(j: &Json, key: &str) -> (r: (String, Json))
    ensures
        r.0@ == key@,
        r.1@ == text_part(j@, key@),
{
    (key.to_owned(), Json::Text(get_text_or(Some(j), key, "")))
}

fn project_target(t: &Json) -> (r: Json)
    ensures
        r@ == target_projection(t@),
{
    let mut pairs: Vec<(String, Json)> = Vec::new();
    pairs.push(text_pair(t, "refId"));
    pairs.push(text_pair(t, "rawSql"));
    pairs.push(text_pair(t, "expr"));
    assert(pair_views(pairs@) =~= seq![
        ("refId"@, text_part(t@, "refId"@)),
        ("rawSql"@, text_part(t@, "rawSql"@)),
        ("expr"@, text_part(t@, "expr"@)),
    ]);
    make_object(pairs)
}

fn project_targets(p: &Json) -> (r: Json)
    ensures
        r@ == targets_projection(p@),
{
    let targets = items_of(get_member(Some(p), "targets"));
    let ghost all = ref_views(targets@);
    let mut out: Vec<Json> = Vec::new();
    for i in 0..targets.len()
        invariant
            all == ref_views(targets@),
            out@.len() == i,
            forall|k: int| 0 <= k < i ==> (#[trigger] out@[k])@ == target_projection(all[k]),
    {
        out.push(project_target(targets[i]));
    }
    assert(array_view(out@) =~= all.map_values(|t: JsonV| target_projection(t)));
    sort_by_text(out)
}

fn project_panel(p: &Json) -> (r: Json)
    ensures
        r@ == panel_projection(p@),
{
    let id = match get_i64(Some(p), "id") {
        Some(i) => Json::Number(Num::Signed(i)),
        None => Json::Null,
    };
    let datasource = match get_member(Some(p), "datasource") {
        Some(d) => d.copy(),
        None => Json::Null,
    };
    let targets = project_targets(p);
    assert(id@ == id_part(p@));
    assert(datasource@ == datasource_part(p@));
    let mut pairs: Vec<(String, Json)> = Vec::new();
    pairs.push(("id".to_owned(), id));
    pairs.push(text_pair(p, "type"));
    pairs.push(text_pair(p, "title"));
    pairs.push(("datasource".to_owned(), datasource));
    pairs.push(("targets".to_owned(), targets));
    assert(pair_views(pairs@) =~= seq![
        ("id"@, id@),
        ("type"@, text_part(p@, "type"@)),
        ("title"@, text_part(p@, "title"@)),
        ("datasource"@, datasource@),
        ("targets"@, targets@),
    ]);
    make_object(pairs)
}

fn project_variable(v: &Json) -> (r: Json)
    ensures
        r@ == variable_projection(v@),
{
    let mut pairs: Vec<(String, Json)> = Vec::new();
    pairs.push(text_pair(v, "name"));
    pairs.push(text_pair(v, "type"));
    assert(pair_views(pairs@) =~= seq![
        ("name"@, text_part(v@, "name"@)),
        ("type"@, text_part(v@, "type"@)),
    ]);
    make_object(pairs)
}

/// The panels of a dashboard that do not only group others, in document order.
pub(crate) fn solid_panels_in<'a>(dash: Option<&'a Json>) -> (r: Vec<&'a Json>)
    ensures
        ref_views(r@) == solid_panels(opt_view(dash)),
{
    let panels = items_of(get_member(dash, "panels"));
    let ghost all = ref_views(panels@);
    let ghost f = |p: JsonV| solid(p);
    let mut out: Vec<&'a Json> = Vec::new();
    for i in 0..panels.len()
        invariant
            all == ref_views(panels@),
            f == (|p: JsonV| solid(p)),
            ref_views(out@) == collected(all.take(i as int), f),
    {
        proof {
            lemma_collected_step(all, f, i as int);
        }
        if !panel_is_row(panels[i]) {
            out.push(panels[i]);
        }
        assert(ref_views(out@) =~= collected(all.take(i + 1), f));
    }
    assert(all.take(all.len() as int) =~= all);
    out
}

/// The fingerprint of a dashboard.
pub fn fingerprint(dash: Option<&Json>) -> (r: String)
    ensures
        r@ == fingerprint_of(opt_view(dash)),
{
    let panels = solid_panels_in(dash);
    let ghost all = ref_views(panels@);
    let mut projected: Vec<Json> = Vec::new();
    for i in 0..panels.len()
        invariant
            all == ref_views(panels@),
            projected@.len() == i,
            forall|k: int| 0 <= k < i ==> (#[trigger] projected@[k])@ == panel_projection(all[k]),
    {
        projected.push(project_panel(panels[i]));
    }
    assert(array_view(projected@) =~= all.map_values(|p: JsonV| panel_projection(p)));

    let list = items_of(get_member(get_member(dash, "templating"), "list"));
    let ghost vars = ref_views(list@);
    let mut variables: Vec<Json> = Vec::new();
    for i in 0..list.len()
        invariant
            vars == ref_views(list@),
            variables@.len() == i,
            forall|k: int|
                0 <= k < i ==> (#[trigger] variables@[k])@ == variable_projection(vars[k]),
    {
        variables.push(project_variable(list[i]));
    }
    assert(array_view(variables@) =~= vars.map_values(|v: JsonV| variable_projection(v)));

    let panels_json = sort_by_text(projected);
    let variables_json = sort_by_text(variables);
    let mut pairs: Vec<(String, Json)> = Vec::new();
    pairs.push(("panels".to_owned(), panels_json));
    pairs.push(("variables".to_owned(), variables_json));
    assert(pair_views(pairs@) =~= seq![
        ("panels"@, panels_json@),
        ("variables"@, variables_json@),
    ]);
    let whole = make_object(pairs);
    hex_of(&digest(whole.to_text().as_str()))
}

// ---------------------------------------------------------------------------
// Laws
// ---------------------------------------------------------------------------

/// The printed form of each of a list of values.
pub open spec fn printed(xs: Seq<JsonV>) -> Seq<Seq<char>> {
    xs.map_values(|x: JsonV| json_text(x))
}

/// A sorted array prints as its sorted printed items.
pub proof fn lemma_sorted_array_text(xs: Seq<JsonV>)
    ensures
        json_text(text_sorted(xs)) == "["@ + join(sorted_texts(printed(xs)), ","@) + "]"@,
{
    let sorted = ordered(xs, by_text());
    let f = |x: JsonV| json_text(x);
    lemma_ordered_map(xs, by_text(), f, text_order());
    assert(array_texts(sorted) =~= sorted.map_values(f));
}

/// An object prints the same when its values print the same.
proof fn lemma_object_text(a: Seq<(Seq<char>, JsonV)>, b: Seq<(Seq<char>, JsonV)>)
    requires
        a.len() == b.len(),
        forall|i: int|
            0 <= i < a.len() ==> (#[trigger] a[i]).0 == b[i].0 && json_text(a[i].1) == json_text(
                b[i].1,
            ),
    ensures
        json_text(object_of(a)) == json_text(object_of(b)),
{
    lemma_object_members(a, b);
    let x = object_members(a);
    let y = object_members(b);
    assert(member_texts(x) =~= member_texts(y)) by {
        assert forall|i: int| 0 <= i < x.len() implies member_texts(x)[i] == member_texts(y)[i] by {
            assert(x[i].0 == y[i].0);
        }
    }
}

proof fn lemma_object_members(a: Seq<(Seq<char>, JsonV)>, b: Seq<(Seq<char>, JsonV)>)
    requires
        a.len() == b.len(),
        forall|i: int|
            0 <= i < a.len() ==> (#[trigger] a[i]).0 == b[i].0 && json_text(a[i].1) == json_text(
                b[i].1,
            ),
    ensures
        object_members(a).len() == object_members(b).len(),
        forall|i: int|
            0 <= i < object_members(a).len() ==> (#[trigger] object_members(a)[i]).0
                == object_members(b)[i].0 && json_text(object_members(a)[i].1) == json_text(
                object_members(b)[i].1,
            ),
    decreases a.len(),
{
    if a.len() > 0 {
        let c = a.drop_last();
        let d = b.drop_last();
        assert forall|i: int| 0 <= i < c.len() implies (#[trigger] c[i]).0 == d[i].0 && json_text(
            c[i].1,
        ) == json_text(d[i].1) by {
            assert(a[i].0 == b[i].0);
        }
        lemma_object_members(c, d);
        assert(a[a.len() - 1].0 == b[b.len() - 1].0);
        lemma_with_member_text(
            object_members(c),
            object_members(d),
            a.last().0,
            a.last().1,
            b.last().1,
        );
    }
}

proof fn lemma_with_member_text(
    x: Seq<(Seq<char>, JsonV)>,
    y: Seq<(Seq<char>, JsonV)>,
    key: Seq<char>,
    u: JsonV,
    v: JsonV,
)
    requires
        x.len() == y.len(),
        forall|i: int|
            0 <= i < x.len() ==> (#[trigger] x[i]).0 == y[i].0 && json_text(x[i].1) == json_text(
                y[i].1,
            ),
        json_text(u) == json_text(v),
    ensures
        with_member(x, key, u).len() == with_member(y, key, v).len(),
        forall|i: int|
            0 <= i < with_member(x, key, u).len() ==> (#[trigger] with_member(x, key, u)[i]).0
                == with_member(y, key, v)[i].0 && json_text(with_member(x, key, u)[i].1)
                == json_text(with_member(y, key, v)[i].1),
    decreases x.len(),
{
    if x.len() > 0 {
        assert(x[x.len() - 1].0 == y[y.len() - 1].0);
        let c = x.drop_last();
        let d = y.drop_last();
        assert forall|i: int| 0 <= i < c.len() implies (#[trigger] c[i]).0 == d[i].0 && json_text(
            c[i].1,
        ) == json_text(d[i].1) by {
            assert(x[i].0 == y[i].0);
        }
        lemma_with_member_text(c, d, key, u, v);
    }
}

/// The fingerprint sees only the panels and the variables: dashboards that list
/// the same ones have the same fingerprint, whatever their titles are.
pub proof fn law_fingerprint_ignores_the_rest(a: Option<JsonV>, b: Option<JsonV>)
    requires
        panel_list(a) == panel_list(b),
        templating_list(a) == templating_list(b),
    ensures
        fingerprint_of(a) == fingerprint_of(b),
{
}

/// The fingerprint does not depend on the order in which a dashboard lists its
/// panels and its variables.
pub proof fn law_fingerprint_ignores_order(a: Option<JsonV>, b: Option<JsonV>)
    requires
        printed(solid_panels(a).map_values(|p: JsonV| panel_projection(p))).to_multiset()
            == printed(solid_panels(b).map_values(|p: JsonV| panel_projection(p))).to_multiset(),
        printed(templating_list(a).map_values(|v: JsonV| variable_projection(v))).to_multiset()
            == printed(
            templating_list(b).map_values(|v: JsonV| variable_projection(v)),
        ).to_multiset(),
    ensures
        fingerprint_of(a) == fingerprint_of(b),
{
    let pa = solid_panels(a).map_values(|p: JsonV| panel_projection(p));
    let pb = solid_panels(b).map_values(|p: JsonV| panel_projection(p));
    let va = templating_list(a).map_values(|v: JsonV| variable_projection(v));
    let vb = templating_list(b).map_values(|v: JsonV| variable_projection(v));
    lemma_sorted_array_text(pa);
    lemma_sorted_array_text(pb);
    lemma_sorted_array_text(va);
    lemma_sorted_array_text(vb);
    lemma_sorted_texts_canonical(printed(pa), printed(pb));
    lemma_sorted_texts_canonical(printed(va), printed(vb));
    lemma_object_text(
        seq![("panels"@, text_sorted(pa)), ("variables"@, text_sorted(va))],
        seq![("panels"@, text_sorted(pb)), ("variables"@, text_sorted(vb))],
    );
}

/// The order in which a panel lists its targets does not show in what the
/// fingerprint takes of the panel.
pub proof fn law_fingerprint_ignores_target_order(p: JsonV, q: JsonV)
    requires
        printed(
            items_of_json(member(Some(p), "targets"@)).map_values(
                |t: JsonV| target_projection(t),
            ),
        ).to_multiset() == printed(
            items_of_json(member(Some(q), "targets"@)).map_values(
                |t: JsonV| target_projection(t),
            ),
        ).to_multiset(),
        id_part(p) == id_part(q),
        text_part(p, "type"@) == text_part(q, "type"@),
        text_part(p, "title"@) == text_part(q, "title"@),
        datasource_part(p) == datasource_part(q),
    ensures
        json_text(panel_projection(p)) == json_text(panel_projection(q)),
{
    let ta = items_of_json(member(Some(p), "targets"@)).map_values(
        |t: JsonV| target_projection(t),
    );
    let tb = items_of_json(member(Some(q), "targets"@)).map_values(
        |t: JsonV| target_projection(t),
    );
    lemma_sorted_array_text(ta);
    lemma_sorted_array_text(tb);
    lemma_sorted_texts_canonical(printed(ta), printed(tb));
    lemma_panel_text(p, text_sorted(ta), text_sorted(tb));
    assert(panel_with_targets(p, text_sorted(tb)) == panel_with_targets(q, text_sorted(tb)));
}

proof fn lemma_panel_text(p: JsonV, s: JsonV, t: JsonV)
    requires
        json_text(s) == json_text(t),
    ensures
        json_text(panel_with_targets(p, s)) == json_text(panel_with_targets(p, t)),
{
    lemma_object_text(
        seq![
            ("id"@, id_part(p)),
            ("type"@, text_part(p, "type"@)),
            ("title"@, text_part(p, "title"@)),
            ("datasource"@, datasource_part(p)),
            ("targets"@, s),
        ],
        seq![
            ("id"@, id_part(p)),
            ("type"@, text_part(p, "type"@)),
            ("title"@, text_part(p, "title"@)),
            ("datasource"@, datasource_part(p)),
            ("targets"@, t),
        ],
    );
}

} // verus!
