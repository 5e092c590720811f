//! What a fingerprint tells of a dashboard.

use crate::collect::{collected, lemma_collected_from};
use crate::digest::{blake3_digest, hex_text, law_hex_text_is_injective};
use crate::grafana::fingerprint::{
    by_text, datasource_part, fingerprint_of, id_part, lemma_sorted_array_text, object_members,
    object_of, panel_projection, printed, projection, solid, solid_panels, target_projection,
    targets_projection, text_part, text_sorted, variable_projection,
};
use crate::grafana::model::{panel_list, templating_list};
use crate::json::{
    all_sound, i64_of_json, items_of_json, json_text, keys_ascend, law_with_member_reads_back,
    lookup, member, members_sound, sound, text_member, JsonV,
};
use crate::json_laws::{
    law_printing_is_injective, law_with_member_ascends, lemma_member_sound, lemma_with_member_sound,
};
use crate::order::{
    lemma_map_multiset, lemma_ordered_ascending, lemma_ordered_keeps, lemma_ordered_multiset,
    lemma_sorted_texts_canonical, ordered, total_preorder,
};
use crate::text::{lemma_text_le_total, lemma_text_le_transitive, text_le};
use vstd::multiset::Multiset;
use vstd::prelude::*;

verus! {

// ---------------------------------------------------------------------------
// Objects made of pairs
// ---------------------------------------------------------------------------

spec fn keys_differ(pairs: Seq<(Seq<char>, JsonV)>) -> bool {
    forall|i: int, j: int|
        0 <= i < j < pairs.len() ==> (#[trigger] pairs[i]).0 != (#[trigger] pairs[j]).0
}

proof fn lemma_object_lookup(pairs: Seq<(Seq<char>, JsonV)>, k: int)
    requires
        keys_differ(pairs),
    ensures
        keys_ascend(object_members(pairs)),
        0 <= k < pairs.len() ==> lookup(object_members(pairs), pairs[k].0) == Some(pairs[k].1),
    decreases pairs.len(),
{
    if pairs.len() > 0 {
        let init = pairs.drop_last();
        let last = pairs.last();
        assert forall|i: int, j: int| 0 <= i < j < init.len() implies (#[trigger] init[i]).0 != (
        #[trigger] init[j]).0 by {
            assert(pairs[i].0 != pairs[j].0);
        }
        lemma_object_lookup(init, k);
        law_with_member_ascends(object_members(init), last.0, last.1);
        law_with_member_reads_back(object_members(init), last.0, last.1, pairs[k].0);
        if 0 <= k < init.len() {
            assert(pairs[k].0 != pairs[pairs.len() - 1].0);
            assert(init[k] == pairs[k]);
        }
    }
}

/// Objects with the same keys are the same just where their values are.
proof fn lemma_object_injective(a: Seq<(Seq<char>, JsonV)>, b: Seq<(Seq<char>, JsonV)>)
    requires
        a.len() == b.len(),
        forall|i: int| 0 <= i < a.len() ==> (#[trigger] a[i]).0 == b[i].0,
        keys_differ(a),
    ensures
        object_of(a) == object_of(b) <==> (forall|i: int|
            0 <= i < a.len() ==> (#[trigger] a[i]).1 == b[i].1),
{
    assert(keys_differ(b)) by {
        assert forall|i: int, j: int| 0 <= i < j < b.len() implies (#[trigger] b[i]).0 != (
        #[trigger] b[j]).0 by {
            assert(a[i].0 != a[j].0);
        }
    }
    if object_of(a) == object_of(b) {
        assert forall|i: int| 0 <= i < a.len() implies (#[trigger] a[i]).1 == b[i].1 by {
            lemma_object_lookup(a, i);
            lemma_object_lookup(b, i);
        }
    } else if forall|i: int| 0 <= i < a.len() ==> (#[trigger] a[i]).1 == b[i].1 {
        assert(a =~= b);
    }
}

proof fn lemma_object_sound(pairs: Seq<(Seq<char>, JsonV)>)
    requires
        forall|i: int| 0 <= i < pairs.len() ==> sound((#[trigger] pairs[i]).1),
    ensures
        members_sound(object_members(pairs)),
        sound(object_of(pairs)),
    decreases pairs.len(),
{
    if pairs.len() > 0 {
        let init = pairs.drop_last();
        assert forall|i: int| 0 <= i < init.len() implies sound((#[trigger] init[i]).1) by {
            assert(sound(pairs[i].1));
        }
        lemma_object_sound(init);
        assert(sound(pairs[pairs.len() - 1].1));
        lemma_with_member_sound(object_members(init), pairs.last().0, pairs.last().1);
    }
}

/// A sorted array of sound items is sound.
proof fn lemma_text_sorted_sound(xs: Seq<JsonV>)
    requires
        all_sound(xs),
    ensures
        sound(text_sorted(xs)),
{
    let p = |x: JsonV| sound(x);
    assert forall|i: int| 0 <= i < xs.len() implies p(#[trigger] xs[i]) by {
        assert(sound(xs[i]));
    }
    lemma_ordered_keeps(xs, by_text(), p);
    let out = ordered(xs, by_text());
    assert forall|i: int| 0 <= i < out.len() implies sound(#[trigger] out[i]) by {
        assert(p(out[i]));
    }
}

/// Two sorted arrays are the same just where they hold the same items.
proof fn lemma_text_sorted_canonical(xs: Seq<JsonV>, ys: Seq<JsonV>)
    requires
        all_sound(xs),
        all_sound(ys),
    ensures
        text_sorted(xs) == text_sorted(ys) <==> xs.to_multiset() == ys.to_multiset(),
{
    lemma_ordered_multiset(xs, by_text());
    lemma_ordered_multiset(ys, by_text());
    if xs.to_multiset() == ys.to_multiset() {
        lemma_map_multiset(xs, ys, |x: JsonV| json_text(x));
        lemma_sorted_texts_canonical(printed(xs), printed(ys));
        lemma_sorted_array_text(xs);
        lemma_sorted_array_text(ys);
        lemma_text_sorted_sound(xs);
        lemma_text_sorted_sound(ys);
        law_printing_is_injective(text_sorted(xs), text_sorted(ys));
    }
}

// ---------------------------------------------------------------------------
// Targets, variables, panels
// ---------------------------------------------------------------------------

/// The fingerprint tells targets apart by their reference, their SQL and their
/// expression, and by nothing else.
pub proof fn law_target_content(t: JsonV, u: JsonV)
    ensures
        target_projection(t) == target_projection(u) <==> {
            &&& text_part(t, "refId"@) == text_part(u, "refId"@)
            &&& text_part(t, "rawSql"@) == text_part(u, "rawSql"@)
            &&& text_part(t, "expr"@) == text_part(u, "expr"@)
        },
        sound(target_projection(t)),
{
    reveal_strlit("refId");
    reveal_strlit("rawSql");
    reveal_strlit("expr");
    assert("refId"@.len() == 5 && "rawSql"@.len() == 6 && "expr"@.len() == 4);
    let a = seq![
        ("refId"@, text_part(t, "refId"@)),
        ("rawSql"@, text_part(t, "rawSql"@)),
        ("expr"@, text_part(t, "expr"@)),
    ];
    let b = seq![
        ("refId"@, text_part(u, "refId"@)),
        ("rawSql"@, text_part(u, "rawSql"@)),
        ("expr"@, text_part(u, "expr"@)),
    ];
    lemma_object_injective(a, b);
    lemma_object_sound(a);
    assert(a[0].1 == text_part(t, "refId"@) && a[1].1 == text_part(t, "rawSql"@) && a[2].1
        == text_part(t, "expr"@));
}

/// The fingerprint tells variables apart by their name and their type, and by
/// nothing else.
pub proof fn law_variable_content(v: JsonV, w: JsonV)
    ensures
        variable_projection(v) == variable_projection(w) <==> {
            &&& text_part(v, "name"@) == text_part(w, "name"@)
            &&& text_part(v, "type"@) == text_part(w, "type"@)
        },
        sound(variable_projection(v)),
{
    reveal_strlit("name");
    reveal_strlit("type");
    assert("name"@[0] != "type"@[0]);
    let a = seq![("name"@, text_part(v, "name"@)), ("type"@, text_part(v, "type"@))];
    let b = seq![("name"@, text_part(w, "name"@)), ("type"@, text_part(w, "type"@))];
    lemma_object_injective(a, b);
    lemma_object_sound(a);
    assert(a[0].1 == text_part(v, "name"@) && a[1].1 == text_part(v, "type"@));
}

/// What the fingerprint takes of each target of a panel.
pub open spec fn target_contents(p: JsonV) -> Seq<JsonV> {
    items_of_json(member(Some(p), "targets"@)).map_values(|t: JsonV| target_projection(t))
}

/// What the fingerprint takes of each panel of a dashboard.
pub open spec fn panel_contents(dash: Option<JsonV>) -> Seq<JsonV> {
    solid_panels(dash).map_values(|p: JsonV| panel_projection(p))
}

/// What the fingerprint takes of each variable of a dashboard.
pub open spec fn variable_contents(dash: Option<JsonV>) -> Seq<JsonV> {
    templating_list(dash).map_values(|v: JsonV| variable_projection(v))
}

proof fn lemma_targets_sound(p: JsonV)
    ensures
        all_sound(target_contents(p)),
        sound(targets_projection(p)),
{
    let ts = items_of_json(member(Some(p), "targets"@));
    let out = target_contents(p);
    assert forall|i: int| 0 <= i < out.len() implies sound(#[trigger] out[i]) by {
        law_target_content(ts[i], ts[i]);
    }
    lemma_text_sorted_sound(out);
}

/// The fingerprint tells panels apart by their id, type, title, datasource
/// reference and targets, and not by the order of the targets.
pub proof fn law_panel_content(p: JsonV, q: JsonV)
    ensures
        panel_projection(p) == panel_projection(q) <==> {
            &&& id_part(p) == id_part(q)
            &&& text_part(p, "type"@) == text_part(q, "type"@)
            &&& text_part(p, "title"@) == text_part(q, "title"@)
            &&& datasource_part(p) == datasource_part(q)
            &&& target_contents(p).to_multiset() == target_contents(q).to_multiset()
        },
{
    reveal_strlit("id");
    reveal_strlit("type");
    reveal_strlit("title");
    reveal_strlit("datasource");
    reveal_strlit("targets");
    assert("id"@.len() == 2 && "type"@.len() == 4 && "title"@.len() == 5);
    assert("datasource"@.len() == 10 && "targets"@.len() == 7);
    let a = panel_pairs(p);
    let b = panel_pairs(q);
    lemma_object_injective(a, b);
    lemma_targets_sound(p);
    lemma_targets_sound(q);
    lemma_text_sorted_canonical(target_contents(p), target_contents(q));
    assert(a[0].1 == id_part(p) && b[0].1 == id_part(q));
    assert(a[1].1 == text_part(p, "type"@) && b[1].1 == text_part(q, "type"@));
    assert(a[2].1 == text_part(p, "title"@) && b[2].1 == text_part(q, "title"@));
    assert(a[3].1 == datasource_part(p) && b[3].1 == datasource_part(q));
    assert(a[4].1 == text_sorted(target_contents(p)) && b[4].1 == text_sorted(target_contents(q)));
}

spec fn panel_pairs(p: JsonV) -> Seq<(Seq<char>, JsonV)> {
    seq![
        ("id"@, id_part(p)),
        ("type"@, text_part(p, "type"@)),
        ("title"@, text_part(p, "title"@)),
        ("datasource"@, datasource_part(p)),
        ("targets"@, targets_projection(p)),
    ]
}

proof fn lemma_panel_sound(p: JsonV)
    requires
        sound(p),
    ensures
        sound(panel_projection(p)),
{
    lemma_member_sound(Some(p), "datasource"@);
    lemma_targets_sound(p);
    lemma_object_sound(panel_pairs(p));
}

// ---------------------------------------------------------------------------
// Dashboards
// ---------------------------------------------------------------------------

proof fn lemma_contents_sound(dash: Option<JsonV>)
    requires
        dash matches Some(d) ==> sound(d),
    ensures
        all_sound(panel_contents(dash)),
        all_sound(variable_contents(dash)),
        sound(projection(dash)),
{
    lemma_member_sound(dash, "panels"@);
    let listed = panel_list(dash);
    assert(all_sound(listed));
    let solids = solid_panels(dash);
    let ps = panel_contents(dash);
    assert forall|i: int| 0 <= i < ps.len() implies sound(#[trigger] ps[i]) by {
        assert(solids.contains(solids[i]));
        let k = lemma_collected_from(listed, |p: JsonV| solid(p), solids[i]);
        assert(sound(listed[k]));
        lemma_panel_sound(solids[i]);
    }
    let vs = variable_contents(dash);
    assert forall|i: int| 0 <= i < vs.len() implies sound(#[trigger] vs[i]) by {
        law_variable_content(templating_list(dash)[i], templating_list(dash)[i]);
    }
    lemma_text_sorted_sound(ps);
    lemma_text_sorted_sound(vs);
    lemma_object_sound(projection_pairs(dash));
}

spec fn projection_pairs(dash: Option<JsonV>) -> Seq<(Seq<char>, JsonV)> {
    seq![
        ("panels"@, text_sorted(panel_contents(dash))),
        ("variables"@, text_sorted(variable_contents(dash))),
    ]
}

/// Dashboards have the same fingerprint just where they have the same panels and
/// the same variables, in whatever order, as far as the digest does not give two
/// different contents one value.
pub proof fn law_fingerprint_tells_content(a: Option<JsonV>, b: Option<JsonV>)
    requires
        a matches Some(d) ==> sound(d),
        b matches Some(d) ==> sound(d),
        blake3_digest(json_text(projection(a))) == blake3_digest(json_text(projection(b)))
            ==> json_text(projection(a)) == json_text(projection(b)),
    ensures
        fingerprint_of(a) == fingerprint_of(b) <==> {
            &&& panel_contents(a).to_multiset() == panel_contents(b).to_multiset()
            &&& variable_contents(a).to_multiset() == variable_contents(b).to_multiset()
        },
{
    reveal_strlit("panels");
    reveal_strlit("variables");
    lemma_contents_sound(a);
    lemma_contents_sound(b);
    let x = projection_pairs(a);
    let y = projection_pairs(b);
    lemma_object_injective(x, y);
    lemma_text_sorted_canonical(panel_contents(a), panel_contents(b));
    lemma_text_sorted_canonical(variable_contents(a), variable_contents(b));
    law_printing_is_injective(projection(a), projection(b));
    law_hex_text_is_injective(
        blake3_digest(json_text(projection(a))),
        blake3_digest(json_text(projection(b))),
    );
    assert(x[0].1 == text_sorted(panel_contents(a)) && x[1].1 == text_sorted(variable_contents(a)));
    assert(y[0].1 == text_sorted(panel_contents(b)) && y[1].1 == text_sorted(variable_contents(b)));
}

// ---------------------------------------------------------------------------
// In terms of what dashboards hold
// ---------------------------------------------------------------------------

/// The text of a member, empty where there is none.
pub open spec fn text_or_none(j: JsonV, key: Seq<char>) -> Seq<char> {
    match text_member(Some(j), key) {
        Some(s) => s,
        None => Seq::empty(),
    }
}

/// What tells a target apart: its reference, its SQL and its expression.
pub open spec fn target_key(t: JsonV) -> (Seq<char>, Seq<char>, Seq<char>) {
    (text_or_none(t, "refId"@), text_or_none(t, "rawSql"@), text_or_none(t, "expr"@))
}

/// What tells a panel apart: its id, type, title and datasource, and its targets
/// in whatever order.
pub open spec fn panel_key(p: JsonV) -> (
    Option<i64>,
    Seq<char>,
    Seq<char>,
    JsonV,
    Multiset<(Seq<char>, Seq<char>, Seq<char>)>,
) {
    (
        i64_of_json(member(Some(p), "id"@)),
        text_or_none(p, "type"@),
        text_or_none(p, "title"@),
        match member(Some(p), "datasource"@) {
            Some(d) => d,
            None => JsonV::Null,
        },
        items_of_json(member(Some(p), "targets"@)).map_values(
            |t: JsonV| target_key(t),
        ).to_multiset(),
    )
}

/// What tells a variable apart: its name and its type.
pub open spec fn variable_key(v: JsonV) -> (Seq<char>, Seq<char>) {
    (text_or_none(v, "name"@), text_or_none(v, "type"@))
}

/// What tells the panels of a dashboard apart, without its rows.
pub open spec fn panel_keys(dash: Option<JsonV>) -> Seq<
    (
        Option<i64>,
        Seq<char>,
        Seq<char>,
        JsonV,
        Multiset<(Seq<char>, Seq<char>, Seq<char>)>,
    ),
> {
    items_of_json(member(dash, "panels"@)).filter(
        |p: JsonV| text_member(Some(p), "type"@) != Some("row"@),
    ).map_values(|p: JsonV| panel_key(p))
}

/// What tells the variables of a dashboard apart.
pub open spec fn variable_keys(dash: Option<JsonV>) -> Seq<(Seq<char>, Seq<char>)> {
    items_of_json(member(member(dash, "templating"@), "list"@)).map_values(
        |v: JsonV| variable_key(v),
    )
}

/// Two functions that tell the same things apart tell the same lists apart.
proof fn lemma_same_kernel<A, B, C>(
    xs: Seq<A>,
    ys: Seq<A>,
    f: spec_fn(A) -> B,
    g: spec_fn(A) -> C,
)
    requires
        forall|x: A, y: A| #[trigger] f(x) == #[trigger] f(y) ==> g(x) == g(y),
        xs.map_values(f).to_multiset() == ys.map_values(f).to_multiset(),
    ensures
        xs.map_values(g).to_multiset() == ys.map_values(g).to_multiset(),
{
    let h = |b: B| g(choose|x: A| #[trigger] f(x) == b);
    lemma_map_multiset(xs.map_values(f), ys.map_values(f), h);
    assert forall|x: A| h(#[trigger] f(x)) == g(x) by {
        let y = choose|y: A| #[trigger] f(y) == f(x);
        assert(f(y) == f(x));
    }
    assert(xs.map_values(f).map_values(h) =~= xs.map_values(g));
    assert(ys.map_values(f).map_values(h) =~= ys.map_values(g));
}

proof fn lemma_text_or_none(j: JsonV, k: JsonV, key: Seq<char>)
    ensures
        text_part(j, key) == text_part(k, key) <==> text_or_none(j, key) == text_or_none(k, key),
{
    reveal_strlit("");
    assert(""@ =~= Seq::<char>::empty());
}

proof fn lemma_target_key(t: JsonV, u: JsonV)
    ensures
        target_projection(t) == target_projection(u) <==> target_key(t) == target_key(u),
{
    law_target_content(t, u);
    lemma_text_or_none(t, u, "refId"@);
    lemma_text_or_none(t, u, "rawSql"@);
    lemma_text_or_none(t, u, "expr"@);
}

proof fn lemma_variable_key(v: JsonV, w: JsonV)
    ensures
        variable_projection(v) == variable_projection(w) <==> variable_key(v) == variable_key(w),
{
    law_variable_content(v, w);
    lemma_text_or_none(v, w, "name"@);
    lemma_text_or_none(v, w, "type"@);
}

proof fn lemma_panel_key(p: JsonV, q: JsonV)
    ensures
        panel_projection(p) == panel_projection(q) <==> panel_key(p) == panel_key(q),
{
    law_panel_content(p, q);
    lemma_text_or_none(p, q, "type"@);
    lemma_text_or_none(p, q, "title"@);
    let xs = items_of_json(member(Some(p), "targets"@));
    let ys = items_of_json(member(Some(q), "targets"@));
    let f = |t: JsonV| target_projection(t);
    let g = |t: JsonV| target_key(t);
    assert forall|t: JsonV, u: JsonV| #[trigger] f(t) == #[trigger] f(u) implies g(t) == g(u) by {
        lemma_target_key(t, u);
    }
    assert forall|t: JsonV, u: JsonV| #[trigger] g(t) == #[trigger] g(u) implies f(t) == f(u) by {
        lemma_target_key(t, u);
    }
    if target_contents(p).to_multiset() == target_contents(q).to_multiset() {
        lemma_same_kernel(xs, ys, f, g);
    }
    if xs.map_values(g).to_multiset() == ys.map_values(g).to_multiset() {
        lemma_same_kernel(xs, ys, g, f);
    }
}

proof fn lemma_kept(panels: Seq<JsonV>)
    ensures
        collected(panels, |p: JsonV| solid(p)) == panels.filter(
            |p: JsonV| text_member(Some(p), "type"@) != Some("row"@),
        ),
    decreases panels.len(),
{
    reveal(Seq::filter);
    if panels.len() > 0 {
        lemma_kept(panels.drop_last());
    }
}

/// Dashboards have the same fingerprint just where they have the same panels, but
/// for rows, and the same variables, in whatever order: panels with the same id,
/// type, title, datasource and targets, targets with the same reference, SQL and
/// expression, variables with the same name and type. This holds as far as the
/// digest does not give two different contents one value.
pub proof fn law_fingerprints_tell_dashboards_apart(a: Option<JsonV>, b: Option<JsonV>)
    requires
        a matches Some(d) ==> sound(d),
        b matches Some(d) ==> sound(d),
        blake3_digest(json_text(projection(a))) == blake3_digest(json_text(projection(b)))
            ==> json_text(projection(a)) == json_text(projection(b)),
    ensures
        fingerprint_of(a) == fingerprint_of(b) <==> {
            &&& panel_keys(a).to_multiset() == panel_keys(b).to_multiset()
            &&& variable_keys(a).to_multiset() == variable_keys(b).to_multiset()
        },
{
    law_fingerprint_tells_content(a, b);
    lemma_kept(panel_list(a));
    lemma_kept(panel_list(b));
    let f = |p: JsonV| panel_projection(p);
    let g = |p: JsonV| panel_key(p);
    assert forall|p: JsonV, q: JsonV| #[trigger] f(p) == #[trigger] f(q) implies g(p) == g(q) by {
        lemma_panel_key(p, q);
    }
    assert forall|p: JsonV, q: JsonV| #[trigger] g(p) == #[trigger] g(q) implies f(p) == f(q) by {
        lemma_panel_key(p, q);
    }
    if panel_contents(a).to_multiset() == panel_contents(b).to_multiset() {
        lemma_same_kernel(solid_panels(a), solid_panels(b), f, g);
    }
    if panel_keys(a).to_multiset() == panel_keys(b).to_multiset() {
        lemma_same_kernel(solid_panels(a), solid_panels(b), g, f);
    }
    let x = |v: JsonV| variable_projection(v);
    let y = |v: JsonV| variable_key(v);
    assert forall|v: JsonV, w: JsonV| #[trigger] x(v) == #[trigger] x(w) implies y(v) == y(w) by {
        lemma_variable_key(v, w);
    }
    assert forall|v: JsonV, w: JsonV| #[trigger] y(v) == #[trigger] y(w) implies x(v) == x(w) by {
        lemma_variable_key(v, w);
    }
    if variable_contents(a).to_multiset() == variable_contents(b).to_multiset() {
        lemma_same_kernel(templating_list(a), templating_list(b), x, y);
    }
    if variable_keys(a).to_multiset() == variable_keys(b).to_multiset() {
        lemma_same_kernel(templating_list(a), templating_list(b), y, x);
    }
}

// ---------------------------------------------------------------------------
// What is digested
// ---------------------------------------------------------------------------

proof fn lemma_object_missing(pairs: Seq<(Seq<char>, JsonV)>, key: Seq<char>)
    requires
        keys_differ(pairs),
        forall|i: int| 0 <= i < pairs.len() ==> (#[trigger] pairs[i]).0 != key,
    ensures
        lookup(object_members(pairs), key) is None,
    decreases pairs.len(),
{
    if pairs.len() > 0 {
        let init = pairs.drop_last();
        let last = pairs.last();
        assert forall|i: int, j: int| 0 <= i < j < init.len() implies (#[trigger] init[i]).0 != (
        #[trigger] init[j]).0 by {
            assert(pairs[i].0 != pairs[j].0);
        }
        assert forall|i: int| 0 <= i < init.len() implies (#[trigger] init[i]).0 != key by {
            assert(pairs[i].0 != key);
        }
        lemma_object_missing(init, key);
        lemma_object_lookup(init, 0);
        assert(pairs[pairs.len() - 1].0 != key);
        law_with_member_reads_back(object_members(init), last.0, last.1, key);
    }
}

/// `out` holds the items of a list, by their printed form.
pub open spec fn stands_by_text(out: Seq<JsonV>, xs: Seq<JsonV>) -> bool {
    &&& out.to_multiset() == xs.to_multiset()
    &&& forall|i: int, j: int|
        0 <= i < j < out.len() ==> text_le(
            json_text(#[trigger] out[i]),
            json_text(#[trigger] out[j]),
        )
}

proof fn lemma_stands_by_text(xs: Seq<JsonV>)
    ensures
        text_sorted(xs) matches JsonV::Array(out) && stands_by_text(out, xs),
{
    let leq = by_text();
    assert(total_preorder(leq)) by {
        assert forall|a: JsonV, b: JsonV| #[trigger] leq(a, b) || leq(b, a) by {
            lemma_text_le_total(json_text(a), json_text(b));
        }
        assert forall|a: JsonV, b: JsonV, c: JsonV| #[trigger] leq(a, b) && #[trigger] leq(
            b,
            c,
        ) implies leq(a, c) by {
            lemma_text_le_transitive(json_text(a), json_text(b), json_text(c));
        }
    }
    lemma_ordered_multiset(xs, leq);
    lemma_ordered_ascending(xs, leq);
    let out = ordered(xs, leq);
    assert forall|i: int, j: int| 0 <= i < j < out.len() implies text_le(
        json_text(#[trigger] out[i]),
        json_text(#[trigger] out[j]),
    ) by {
        assert(leq(out[i], out[j]));
    }
}

/// What is digested of a target is its reference, its SQL and its expression.
pub proof fn law_targets_are_digested(t: JsonV, key: Seq<char>)
    ensures
        member(Some(target_projection(t)), key) == (if key == "refId"@ || key == "rawSql"@ || key
            == "expr"@ {
            Some(JsonV::Text(text_or_none(t, key)))
        } else {
            None
        }),
{
    reveal_strlit("refId");
    reveal_strlit("rawSql");
    reveal_strlit("expr");
    reveal_strlit("");
    assert(""@ =~= Seq::<char>::empty());
    assert("refId"@.len() == 5 && "rawSql"@.len() == 6 && "expr"@.len() == 4);
    let pairs = seq![
        ("refId"@, text_part(t, "refId"@)),
        ("rawSql"@, text_part(t, "rawSql"@)),
        ("expr"@, text_part(t, "expr"@)),
    ];
    lemma_object_lookup(pairs, 0);
    lemma_object_lookup(pairs, 1);
    lemma_object_lookup(pairs, 2);
    if key != "refId"@ && key != "rawSql"@ && key != "expr"@ {
        lemma_object_missing(pairs, key);
    }
}

/// What is digested of a variable is its name and its type.
pub proof fn law_variables_are_digested(v: JsonV, key: Seq<char>)
    ensures
        member(Some(variable_projection(v)), key) == (if key == "name"@ || key == "type"@ {
            Some(JsonV::Text(text_or_none(v, key)))
        } else {
            None
        }),
{
    reveal_strlit("name");
    reveal_strlit("type");
    reveal_strlit("");
    assert(""@ =~= Seq::<char>::empty());
    assert("name"@[0] != "type"@[0]);
    let pairs = seq![("name"@, text_part(v, "name"@)), ("type"@, text_part(v, "type"@))];
    lemma_object_lookup(pairs, 0);
    lemma_object_lookup(pairs, 1);
    if key != "name"@ && key != "type"@ {
        lemma_object_missing(pairs, key);
    }
}

/// What is digested of a panel is its id, its type, its title, its datasource, and
/// its targets by their printed form.
pub proof fn law_panels_are_digested(p: JsonV, key: Seq<char>)
    ensures
        member(Some(panel_projection(p)), "id"@) == Some(
            match i64_of_json(member(Some(p), "id"@)) {
                Some(i) => JsonV::Int(i as int),
                None => JsonV::Null,
            },
        ),
        member(Some(panel_projection(p)), "type"@) == Some(JsonV::Text(text_or_none(p, "type"@))),
        member(Some(panel_projection(p)), "title"@) == Some(JsonV::Text(text_or_none(p, "title"@))),
        member(Some(panel_projection(p)), "datasource"@) == Some(
            match member(Some(p), "datasource"@) {
                Some(d) => d,
                None => JsonV::Null,
            },
        ),
        member(Some(panel_projection(p)), "targets"@) matches Some(JsonV::Array(out))
            && stands_by_text(
            out,
            items_of_json(member(Some(p), "targets"@)).map_values(
                |t: JsonV| target_projection(t),
            ),
        ),
        key != "id"@ && key != "type"@ && key != "title"@ && key != "datasource"@ && key
            != "targets"@ ==> member(Some(panel_projection(p)), key) is None,
{
    reveal_strlit("id");
    reveal_strlit("type");
    reveal_strlit("title");
    reveal_strlit("datasource");
    reveal_strlit("targets");
    reveal_strlit("");
    assert(""@ =~= Seq::<char>::empty());
    assert("id"@.len() == 2 && "type"@.len() == 4 && "title"@.len() == 5);
    assert("datasource"@.len() == 10 && "targets"@.len() == 7);
    let pairs = panel_pairs(p);
    lemma_object_lookup(pairs, 0);
    lemma_object_lookup(pairs, 1);
    lemma_object_lookup(pairs, 2);
    lemma_object_lookup(pairs, 3);
    lemma_object_lookup(pairs, 4);
    lemma_stands_by_text(target_contents(p));
    if key != "id"@ && key != "type"@ && key != "title"@ && key != "datasource"@ && key
        != "targets"@ {
        lemma_object_missing(pairs, key);
    }
}

/// What is digested of a dashboard is its panels, but for rows, and its variables,
/// by their printed form; the fingerprint is the digest of that, in hexadecimal.
pub proof fn law_dashboards_are_digested(dash: Option<JsonV>, key: Seq<char>)
    ensures
        member(Some(projection(dash)), "panels"@) matches Some(JsonV::Array(out))
            && stands_by_text(
            out,
            items_of_json(member(dash, "panels"@)).filter(
                |p: JsonV| text_member(Some(p), "type"@) != Some("row"@),
            ).map_values(|p: JsonV| panel_projection(p)),
        ),
        member(Some(projection(dash)), "variables"@) matches Some(JsonV::Array(out))
            && stands_by_text(
            out,
            items_of_json(member(member(dash, "templating"@), "list"@)).map_values(
                |v: JsonV| variable_projection(v),
            ),
        ),
        key != "panels"@ && key != "variables"@ ==> member(Some(projection(dash)), key) is None,
        fingerprint_of(dash) == hex_text(blake3_digest(json_text(projection(dash)))),
{
    reveal_strlit("panels");
    reveal_strlit("variables");
    assert("panels"@.len() == 6 && "variables"@.len() == 9);
    let pairs = projection_pairs(dash);
    lemma_object_lookup(pairs, 0);
    lemma_object_lookup(pairs, 1);
    lemma_kept(panel_list(dash));
    lemma_stands_by_text(panel_contents(dash));
    lemma_stands_by_text(variable_contents(dash));
    if key != "panels"@ && key != "variables"@ {
        lemma_object_missing(pairs, key);
    }
}

} // verus!
