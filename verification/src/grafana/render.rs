//! Deterministic Markdown rendering of the [`RenderModel`].
//!
//! Pure: same model and options in, same bytes out. Secret redaction is applied
//! here, as the report leaves the artifact boundary.

use crate::collect::{
    collected, first_some, flattened, lemma_collected_step, lemma_first_some_step,
    lemma_flattened_step,
};
use crate::grafana::model::{DashboardV, DashboardView, DsViewV, PanelV, PanelView, RenderModel, RenderV};
use crate::grafana::options::{mode_name, Mode, ReportOptions, ReportOptionsV};
use crate::order::{
    counts, distinct_texts, sort_dedup, sort_texts, sorted_texts, tally, tally_texts,
};
use crate::redact::{key_is_secret, redacted_value, Redactor};
use crate::secrets::{redacted, MASK};
use crate::text::{
    chars_of, concat, decimal, decimal_usize, integer, integer_i64, join, join_texts,
    lemma_concat_take, same,
};
use crate::time::{time_text, DAY_FORMAT};
use vstd::prelude::*;

verus! {

// ---------------------------------------------------------------------------
// Redaction gate
// ---------------------------------------------------------------------------

/// A text as it is shown: redacted, unless redaction is off.
pub open spec fn shown(on: bool, s: Seq<char>) -> Seq<char> {
    if on {
        redacted(s)
    } else {
        s
    }
}

/// The value of a variable as it is shown.
pub open spec fn shown_value(on: bool, name: Seq<char>, value: Seq<char>) -> Seq<char> {
    if on {
        redacted_value(name, value)
    } else {
        value
    }
}

/// Applies the redactor when on, and nothing when off.
pub(crate) struct Red {
    pub on: bool,
    pub redactor: Redactor,
}

impl Red {
    pub(crate) fn new(on: bool) -> (r: Red)
        ensures
            r.on == on,
    {
        Red { on, redactor: Redactor::new() }
    }

    pub(crate) fn text(&self, s: &str) -> (r: String)
        ensures
            r@ == shown(self.on, s@),
    {
        if self.on {
            self.redactor.redact_owned(s)
        } else {
            s.to_owned()
        }
    }

    /// Redact a variable value by both its name and the shape of its value.
    fn var(&self, name: &str, value: &str) -> (r: String)
        ensures
            r@ == shown_value(self.on, name@, value@),
    {
        if !self.on {
            value.to_owned()
        } else if key_is_secret(name) {
            MASK.to_owned()
        } else {
            self.redactor.redact_owned(value)
        }
    }
}

// ---------------------------------------------------------------------------
// Table cells
// ---------------------------------------------------------------------------

/// A character inside a table cell.
pub open spec fn cell_char(c: char) -> Seq<char> {
    if c == '\\' {
        seq!['\\', '\\']
    } else if c == '|' {
        seq!['\\', '|']
    } else if c == '\n' || c == '\r' {
        seq![' ']
    } else {
        seq![c]
    }
}

/// A text inside a table cell: on one line, with pipes and backslashes escaped.
pub open spec fn cell(s: Seq<char>) -> Seq<char>
    decreases s.len(),
{
    if s.len() == 0 {
        Seq::empty()
    } else {
        cell(s.drop_last()) + cell_char(s.last())
    }
}

pub(crate) fn escape_cell(s: &str) -> (r: String)
    ensures
        r@ == cell(s@),
{
    let v = chars_of(s);
    let mut out = String::new();
    for i in 0..v.len()
        invariant
            out@ == cell(v@.take(i as int)),
    {
        let ghost before = out@;
        assert(v@.take(i + 1).drop_last() =~= v@.take(i as int));
        let c = v[i];
        if c == '\\' {
            out.push('\\');
            out.push('\\');
        } else if c == '|' {
            out.push('\\');
            out.push('|');
        } else if c == '\n' || c == '\r' {
            out.push(' ');
        } else {
            out.push(c);
        }
        assert(out@ =~= before + cell_char(c));
    }
    assert(v@.take(v@.len() as int) =~= v@);
    out
}

/// A cell stays on its line, and no pipe in it ends it.
pub proof fn law_cells_stay_whole(s: Seq<char>)
    ensures
        forall|k: int|
            0 <= k < cell(s).len() ==> #[trigger] cell(s)[k] != '\n' && cell(s)[k] != '\r',
        forall|k: int|
            0 <= k < cell(s).len() && #[trigger] cell(s)[k] == '|' ==> k > 0 && cell(s)[k - 1]
                == '\\',
    decreases s.len(),
{
    if s.len() > 0 {
        law_cells_stay_whole(s.drop_last());
        let init = cell(s.drop_last());
        let c = cell_char(s.last());
        assert forall|k: int| 0 <= k < cell(s).len() implies #[trigger] cell(s)[k] != '\n'
            && cell(s)[k] != '\r' && (cell(s)[k] == '|' ==> k > 0 && cell(s)[k - 1] == '\\') by {
            if k < init.len() {
                assert(cell(s)[k] == init[k]);
                if k > 0 {
                    assert(cell(s)[k - 1] == init[k - 1]);
                }
            } else {
                assert(cell(s)[k] == c[k - init.len()]);
                if k > init.len() {
                    assert(cell(s)[k - 1] == c[k - 1 - init.len()]);
                }
            }
        }
    }
}

// ---------------------------------------------------------------------------
// Header and overview
// ---------------------------------------------------------------------------

/// Whether the report holds data, and of which window.
pub open spec fn data_text(opts: ReportOptionsV) -> Seq<char> {
    if opts.data {
        "on ("@ + opts.window + ")"@
    } else {
        "off"@
    }
}

pub open spec fn redacted_text(on: bool) -> Seq<char> {
    if on {
        "redacted"@
    } else {
        "not redacted"@
    }
}

/// The metadata header.
pub open spec fn header_text(m: RenderV, opts: ReportOptionsV) -> Seq<char> {
    "# Grafana Report — "@ + m.instance.host + "\ngenerated "@ + time_text(
        m.generated.0,
        m.generated.1,
        DAY_FORMAT@,
    ) + " · mode: "@ + mode_name(opts.mode) + " · data: "@ + data_text(opts) + " · "@
        + redacted_text(opts.redact) + "\nscope: "@ + m.scope + "  ("@ + decimal(
        m.on_disk_total as nat,
    ) + " on disk of "@ + decimal(m.inventory_total as nat) + " in instance inventory)\n"@
}

pub(crate) fn header(model: &RenderModel, opts: &ReportOptions) -> (r: String)
    ensures
        r@ == header_text(model.deep_view(), opts.deep_view()),
{
    let mut out = "# Grafana Report — ".to_owned();
    out.append(model.instance.host.as_str());
    out.append("\ngenerated ");
    out.append(model.generated.format(DAY_FORMAT).as_str());
    out.append(" · mode: ");
    out.append(opts.mode.name());
    out.append(" · data: ");
    let data = if opts.data {
        let mut d = "on (".to_owned();
        d.append(opts.window.as_str());
        d.append(")");
        d
    } else {
        "off".to_owned()
    };
    out.append(data.as_str());
    out.append(" · ");
    out.append(
        if opts.redact {
            "redacted"
        } else {
            "not redacted"
        },
    );
    out.append("\nscope: ");
    out.append(model.scope.as_str());
    out.append("  (");
    out.append(decimal_usize(model.on_disk_total).as_str());
    out.append(" on disk of ");
    out.append(decimal_usize(model.inventory_total).as_str());
    out.append(" in instance inventory)\n");
    out
}

/// A datasource on the overview line.
pub open spec fn ds_text(d: DsViewV) -> Seq<char> {
    d.name + " ("@ + d.ds_type + (if d.is_default {
        ", default"@
    } else {
        ""@
    }) + ")"@
}

/// The datasources of the instance on one line.
pub open spec fn datasource_line_text(m: RenderV) -> Seq<char> {
    if m.instance.datasources.len() == 0 {
        "none recorded"@
    } else {
        join(
            sorted_texts(m.instance.datasources.map_values(|d: DsViewV| ds_text(d))),
            " · "@,
        )
    }
}

fn datasource_line(model: &RenderModel) -> (r: String)
    ensures
        r@ == datasource_line_text(model.deep_view()),
{
    let ds = &model.instance.datasources;
    assert(ds.deep_view().len() == ds@.len());
    if ds.len() == 0 {
        return "none recorded".to_owned();
    }
    let mut texts: Vec<String> = Vec::new();
    for i in 0..ds.len()
        invariant
            texts@.len() == i,
            forall|k: int| 0 <= k < i ==> (#[trigger] texts@[k])@ == ds_text(ds@[k].deep_view()),
    {
        let d = &ds[i];
        let mut s = d.name.clone();
        s.append(" (");
        s.append(d.ds_type.as_str());
        s.append(
            if d.is_default {
                ", default"
            } else {
                ""
            },
        );
        s.append(")");
        texts.push(s);
    }
    assert(texts.deep_view() =~= ds.deep_view().map_values(|d: DsViewV| ds_text(d)));
    let sorted = sort_texts(texts);
    join_texts(&sorted, " · ")
}

/// What is known of the renderer plugin.
pub open spec fn renderer_text(available: Option<bool>) -> Seq<char> {
    match available {
        Some(true) => "installed"@,
        Some(false) =>
            "not installed  (visual/screenshot mode unavailable; chrome fallback only)"@,
        None => "unknown"@,
    }
}

/// A text, or `unknown`.
pub open spec fn or_unknown(s: Option<Seq<char>>) -> Seq<char> {
    match s {
        Some(t) => t,
        None => "unknown"@,
    }
}

/// The overview section.
pub open spec fn overview_text(m: RenderV) -> Seq<char> {
    "\n## 1. Overview\n- URL:          https://"@ + m.instance.host + "\n- Version:      "@
        + or_unknown(m.instance.version) + "  ("@ + or_unknown(m.instance.edition)
        + ")\n- Datasources:  "@ + datasource_line_text(m) + "\n- Dashboards:   "@ + decimal(
        m.instance.dashboards_inventory as nat,
    ) + " inventory / "@ + decimal(m.instance.dashboards_on_disk as nat)
        + " scraped       Folders: "@ + decimal(m.instance.folders_count)
        + "\n- Renderer plugin: "@ + renderer_text(m.instance.renderer_available) + "\n"@
}

fn text_or_unknown(s: &Option<String>) -> (r: &str)
    ensures
        r@ == or_unknown(s.deep_view()),
{
    match s {
        Some(t) => t.as_str(),
        None => "unknown",
    }
}

fn overview(model: &RenderModel) -> (r: String)
    ensures
        r@ == overview_text(model.deep_view()),
{
    let inst = &model.instance;
    let mut out = "\n## 1. Overview\n- URL:          https://".to_owned();
    out.append(inst.host.as_str());
    out.append("\n- Version:      ");
    out.append(text_or_unknown(&inst.version));
    out.append("  (");
    out.append(text_or_unknown(&inst.edition));
    out.append(")\n- Datasources:  ");
    out.append(datasource_line(model).as_str());
    out.append("\n- Dashboards:   ");
    out.append(decimal_usize(inst.dashboards_inventory).as_str());
    out.append(" inventory / ");
    out.append(decimal_usize(inst.dashboards_on_disk).as_str());
    out.append(" scraped       Folders: ");
    out.append(decimal_usize(inst.folders_count).as_str());
    out.append("\n- Renderer plugin: ");
    out.append(
        match inst.renderer_available {
            Some(true) => "installed",
            Some(false) =>
                "not installed  (visual/screenshot mode unavailable; chrome fallback only)",
            None => "unknown",
        },
    );
    out.append("\n");
    out
}


// ---------------------------------------------------------------------------
// Structure
// ---------------------------------------------------------------------------

/// One line of a list of counts.
pub open spec fn count_line(e: (Seq<char>, nat)) -> Seq<char> {
    "- "@ + e.0 + ": "@ + decimal(e.1) + "\n"@
}

/// A list of counts, or what stands for an empty one.
pub open spec fn count_lines(t: Seq<(Seq<char>, nat)>, none: Seq<char>) -> Seq<char> {
    if t.len() == 0 {
        none
    } else {
        concat(t.map_values(|e: (Seq<char>, nat)| count_line(e)))
    }
}

fn render_counts(t: &Vec<(String, usize)>, none: &str) -> (r: String)
    ensures
        r@ == count_lines(counts(t@), none@),
{
    if t.len() == 0 {
        return none.to_owned();
    }
    let ghost lines = counts(t@).map_values(|e: (Seq<char>, nat)| count_line(e));
    let mut out = String::new();
    for i in 0..t.len()
        invariant
            lines == counts(t@).map_values(|e: (Seq<char>, nat)| count_line(e)),
            out@ == concat(lines.take(i as int)),
    {
        proof {
            lemma_concat_take(lines, i as int);
        }
        let mut line = "- ".to_owned();
        line.append(t[i].0.as_str());
        line.append(": ");
        line.append(decimal_usize(t[i].1).as_str());
        line.append("\n");
        assert(line@ == lines[i as int]);
        out.append(line.as_str());
    }
    assert(lines.take(lines.len() as int) =~= lines);
    out
}

/// The folder under which a dashboard is listed.
pub open spec fn folder_key(d: DashboardV) -> Seq<char> {
    match d.folder {
        Some(f) => f,
        None => "(no folder)"@,
    }
}

/// How many dashboards each folder has.
pub open spec fn folder_tree_text(m: RenderV) -> Seq<char> {
    "\n### Folder tree\n"@ + count_lines(
        tally(m.dashboards.map_values(|d: DashboardV| folder_key(d))),
        "- (none on disk)\n"@,
    )
}

fn folder_tree(model: &RenderModel) -> (r: String)
    ensures
        r@ == folder_tree_text(model.deep_view()),
{
    let mut keys: Vec<String> = Vec::new();
    for i in 0..model.dashboards.len()
        invariant
            keys@.len() == i,
            forall|k: int|
                0 <= k < i ==> (#[trigger] keys@[k])@ == folder_key(
                    model.dashboards@[k].deep_view(),
                ),
    {
        let key = match &model.dashboards[i].folder {
            Some(f) => f.clone(),
            None => "(no folder)".to_owned(),
        };
        keys.push(key);
    }
    assert(keys.deep_view() =~= model.deep_view().dashboards.map_values(
        |d: DashboardV| folder_key(d),
    ));
    let mut out = "\n### Folder tree\n".to_owned();
    let t = tally_texts(keys);
    out.append(render_counts(&t, "- (none on disk)\n").as_str());
    out
}

/// One navigation entry.
pub open spec fn link_line(l: Seq<char>) -> Seq<char> {
    "- "@ + l + "\n"@
}

/// The title and the entries of a dashboard that navigates.
pub open spec fn navigation_of(d: DashboardV) -> Option<(Seq<char>, Seq<Seq<char>>)> {
    if d.is_navigation {
        Some((d.title, d.nav_links))
    } else {
        None
    }
}

/// The entries of the first dashboard that navigates.
pub open spec fn navigation_text(m: RenderV) -> Seq<char> {
    match first_some(m.dashboards, |d: DashboardV| navigation_of(d)) {
        Some(nav) => "\n### 0. Navigation ("@ + nav.0 + ")\n"@ + (if nav.1.len() == 0 {
            "- (no dashlist/links found)\n"@
        } else {
            concat(nav.1.map_values(|l: Seq<char>| link_line(l)))
        }),
        None => ""@,
    }
}

fn render_links(links: &Vec<String>) -> (r: String)
    ensures
        r@ == (if links.deep_view().len() == 0 {
            "- (no dashlist/links found)\n"@
        } else {
            concat(links.deep_view().map_values(|l: Seq<char>| link_line(l)))
        }),
{
    assert(links.deep_view().len() == links@.len());
    if links.len() == 0 {
        return "- (no dashlist/links found)\n".to_owned();
    }
    let ghost lines = links.deep_view().map_values(|l: Seq<char>| link_line(l));
    let mut out = String::new();
    for i in 0..links.len()
        invariant
            lines == links.deep_view().map_values(|l: Seq<char>| link_line(l)),
            out@ == concat(lines.take(i as int)),
    {
        proof {
            lemma_concat_take(lines, i as int);
        }
        let mut line = "- ".to_owned();
        line.append(links[i].as_str());
        line.append("\n");
        assert(line@ == lines[i as int]);
        out.append(line.as_str());
    }
    assert(lines.take(lines.len() as int) =~= lines);
    out
}

fn navigation(model: &RenderModel) -> (r: String)
    ensures
        r@ == navigation_text(model.deep_view()),
{
    let ghost all = model.deep_view().dashboards;
    let ghost f = |d: DashboardV| navigation_of(d);
    assert(all.skip(0) =~= all);
    for i in 0..model.dashboards.len()
        invariant
            all == model.dashboards.deep_view(),
            all == model.deep_view().dashboards,
            f == (|d: DashboardV| navigation_of(d)),
            first_some(all, f) == first_some(all.skip(i as int), f),
    {
        proof {
            lemma_first_some_step(all, f, i as int);
        }
        let d = &model.dashboards[i];
        assert(all[i as int] == d.deep_view());
        if d.is_navigation {
            let mut out = "\n### 0. Navigation (".to_owned();
            out.append(d.title.as_str());
            out.append(")\n");
            out.append(render_links(&d.nav_links).as_str());
            return out;
        }
    }
    assert(all.skip(all.len() as int) =~= Seq::<DashboardV>::empty());
    "".to_owned()
}

/// The value of a pair, if its key is the one asked for.
pub open spec fn value_if(p: (Seq<char>, Seq<char>), key: Seq<char>) -> Option<Seq<char>> {
    if p.0 == key {
        Some(p.1)
    } else {
        None
    }
}

/// The values that stand under a key.
pub open spec fn values_under(pairs: Seq<(Seq<char>, Seq<char>)>, key: Seq<char>) -> Seq<
    Seq<char>,
> {
    collected(pairs, |p: (Seq<char>, Seq<char>)| value_if(p, key))
}

/// The distinct keys of pairs, in order.
pub open spec fn keys_of(pairs: Seq<(Seq<char>, Seq<char>)>) -> Seq<Seq<char>> {
    distinct_texts(pairs.map_values(|p: (Seq<char>, Seq<char>)| p.0))
}

fn find_values(pairs: &Vec<(String, String)>, key: &str) -> (r: Vec<String>)
    ensures
        r.deep_view() == values_under(pairs.deep_view(), key@),
{
    let ghost all = pairs.deep_view();
    let ghost f = |p: (Seq<char>, Seq<char>)| value_if(p, key@);
    let mut out: Vec<String> = Vec::new();
    for i in 0..pairs.len()
        invariant
            all == pairs.deep_view(),
            f == (|p: (Seq<char>, Seq<char>)| value_if(p, key@)),
            out.deep_view() == collected(all.take(i as int), f),
    {
        proof {
            lemma_collected_step(all, f, i as int);
        }
        let ghost before = out.deep_view();
        assert(all[i as int] == pairs@[i as int].deep_view());
        if same(pairs[i].0.as_str(), key) {
            out.push(pairs[i].1.clone());
            assert(out.deep_view() =~= before.push(all[i as int].1));
        }
        assert(out.deep_view() =~= collected(all.take(i + 1), f));
    }
    assert(all.take(all.len() as int) =~= all);
    out
}

fn find_keys(pairs: &Vec<(String, String)>) -> (r: Vec<String>)
    ensures
        r.deep_view() == keys_of(pairs.deep_view()),
{
    let mut keys: Vec<String> = Vec::new();
    for i in 0..pairs.len()
        invariant
            keys@.len() == i,
            forall|k: int| 0 <= k < i ==> (#[trigger] keys@[k]) == pairs@[k].0,
    {
        keys.push(pairs[i].0.clone());
    }
    assert(keys.deep_view() =~= pairs.deep_view().map_values(
        |p: (Seq<char>, Seq<char>)| p.0,
    ));
    sort_dedup(keys)
}

/// A dashboard in the tag index.
pub open spec fn index_label(d: DashboardV) -> Seq<char> {
    d.title + " ("@ + d.uid + ")"@
}

/// The tags of a dashboard, each with the dashboard.
pub open spec fn tagged(d: DashboardV) -> Seq<(Seq<char>, Seq<char>)> {
    d.tags.map_values(|t: Seq<char>| (t, index_label(d)))
}

/// One line of the tag index.
pub open spec fn tag_line(pairs: Seq<(Seq<char>, Seq<char>)>, tag: Seq<char>) -> Seq<char> {
    "- "@ + tag + ": "@ + join(sorted_texts(values_under(pairs, tag)), ", "@) + "\n"@
}

/// The dashboards under each tag.
pub open spec fn tag_index_text(m: RenderV) -> Seq<char> {
    let pairs = flattened(m.dashboards, |d: DashboardV| tagged(d));
    let keys = keys_of(pairs);
    "\n### Tag index\n"@ + (if keys.len() == 0 {
        "- (no tags)\n"@
    } else {
        concat(keys.map_values(|t: Seq<char>| tag_line(pairs, t)))
    })
}

fn tag_pairs(d: &DashboardView, pairs: &mut Vec<(String, String)>)
    ensures
        final(pairs).deep_view() == old(pairs).deep_view() + tagged(d.deep_view()),
{
    let ghost before = pairs.deep_view();
    let ghost goal = tagged(d.deep_view());
    assert(before + goal.take(0) =~= before);
    for i in 0..d.tags.len()
        invariant
            goal == tagged(d.deep_view()),
            pairs.deep_view() == before + goal.take(i as int),
    {
        let ghost now = pairs.deep_view();
        let mut label = d.title.clone();
        label.append(" (");
        label.append(d.uid.as_str());
        label.append(")");
        let pair = (d.tags[i].clone(), label);
        assert(pair.deep_view() == goal[i as int]);
        pairs.push(pair);
        assert(pairs.deep_view() =~= now.push(goal[i as int]));
        assert(goal.take(i + 1) =~= goal.take(i as int).push(goal[i as int]));
    }
    assert(goal.take(goal.len() as int) =~= goal);
}

fn tag_index(model: &RenderModel) -> (r: String)
    ensures
        r@ == tag_index_text(model.deep_view()),
{
    let ghost all = model.deep_view().dashboards;
    let ghost f = |d: DashboardV| tagged(d);
    let mut pairs: Vec<(String, String)> = Vec::new();
    assert(pairs.deep_view() =~= flattened(all.take(0), f));
    for i in 0..model.dashboards.len()
        invariant
            all == model.dashboards.deep_view(),
            f == (|d: DashboardV| tagged(d)),
            pairs.deep_view() == flattened(all.take(i as int), f),
    {
        proof {
            lemma_flattened_step(all, f, i as int);
        }
        assert(all[i as int] == model.dashboards@[i as int].deep_view());
        tag_pairs(&model.dashboards[i], &mut pairs);
    }
    assert(all.take(all.len() as int) =~= all);
    let ghost ps = pairs.deep_view();
    let keys = find_keys(&pairs);
    let mut out = "\n### Tag index\n".to_owned();
    assert(keys.deep_view().len() == keys@.len());
    if keys.len() == 0 {
        out.append("- (no tags)\n");
        return out;
    }
    let ghost lines = keys.deep_view().map_values(|t: Seq<char>| tag_line(ps, t));
    let mut body = String::new();
    for i in 0..keys.len()
        invariant
            ps == pairs.deep_view(),
            lines == keys.deep_view().map_values(|t: Seq<char>| tag_line(ps, t)),
            body@ == concat(lines.take(i as int)),
    {
        proof {
            lemma_concat_take(lines, i as int);
        }
        let labels = sort_texts(find_values(&pairs, keys[i].as_str()));
        let mut line = "- ".to_owned();
        line.append(keys[i].as_str());
        line.append(": ");
        line.append(join_texts(&labels, ", ").as_str());
        line.append("\n");
        assert(line@ == lines[i as int]);
        body.append(line.as_str());
    }
    assert(lines.take(lines.len() as int) =~= lines);
    out.append(body.as_str());
    out
}

/// The type under which a panel is counted.
pub open spec fn type_key(p: PanelV) -> Seq<char> {
    if p.ptype.len() == 0 {
        "(unknown)"@
    } else {
        p.ptype
    }
}

/// The types of a dashboard's panels.
pub open spec fn type_keys(d: DashboardV) -> Seq<Seq<char>> {
    d.panels.map_values(|p: PanelV| type_key(p))
}

/// How many panels each type has.
pub open spec fn panel_types_text(m: RenderV) -> Seq<char> {
    "\n### Panel-type distribution\n"@ + count_lines(
        tally(flattened(m.dashboards, |d: DashboardV| type_keys(d))),
        "- (no panels)\n"@,
    )
}

fn panel_types(d: &DashboardView, keys: &mut Vec<String>)
    ensures
        final(keys).deep_view() == old(keys).deep_view() + type_keys(d.deep_view()),
{
    let ghost before = keys.deep_view();
    let ghost goal = type_keys(d.deep_view());
    assert(before + goal.take(0) =~= before);
    for i in 0..d.panels.len()
        invariant
            goal == type_keys(d.deep_view()),
            keys.deep_view() == before + goal.take(i as int),
    {
        let ghost now = keys.deep_view();
        let p = &d.panels[i];
        assert(d.deep_view().panels[i as int] == p.deep_view());
        let key = if chars_of(p.ptype.as_str()).len() == 0 {
            "(unknown)".to_owned()
        } else {
            p.ptype.clone()
        };
        assert(key@ == goal[i as int]);
        keys.push(key);
        assert(keys.deep_view() =~= now.push(goal[i as int]));
        assert(goal.take(i + 1) =~= goal.take(i as int).push(goal[i as int]));
    }
    assert(goal.take(goal.len() as int) =~= goal);
}

fn panel_type_distribution(model: &RenderModel) -> (r: String)
    ensures
        r@ == panel_types_text(model.deep_view()),
{
    let ghost all = model.deep_view().dashboards;
    let ghost f = |d: DashboardV| type_keys(d);
    let mut keys: Vec<String> = Vec::new();
    assert(keys.deep_view() =~= flattened(all.take(0), f));
    for i in 0..model.dashboards.len()
        invariant
            all == model.dashboards.deep_view(),
            f == (|d: DashboardV| type_keys(d)),
            keys.deep_view() == flattened(all.take(i as int), f),
    {
        proof {
            lemma_flattened_step(all, f, i as int);
        }
        assert(all[i as int] == model.dashboards@[i as int].deep_view());
        panel_types(&model.dashboards[i], &mut keys);
    }
    assert(all.take(all.len() as int) =~= all);
    let mut out = "\n### Panel-type distribution\n".to_owned();
    let t = tally_texts(keys);
    out.append(render_counts(&t, "- (no panels)\n").as_str());
    out
}

/// The datasources of a dashboard's panels, each with the dashboard's title.
pub open spec fn uses(d: DashboardV) -> Seq<(Seq<char>, Seq<char>)> {
    d.panels.map_values(|p: PanelV| (p.datasource, d.title))
}

/// One line of the datasource usage.
pub open spec fn usage_line(pairs: Seq<(Seq<char>, Seq<char>)>, ds: Seq<char>) -> Seq<char> {
    "- "@ + ds + ": "@ + decimal(values_under(pairs, ds).len()) + " panel(s) across "@ + decimal(
        distinct_texts(values_under(pairs, ds)).len(),
    ) + " dashboard(s)\n"@
}

/// How many panels and dashboards use each datasource.
pub open spec fn datasource_usage_text(m: RenderV) -> Seq<char> {
    let pairs = flattened(m.dashboards, |d: DashboardV| uses(d));
    let keys = keys_of(pairs);
    "\n### Datasource usage\n"@ + (if keys.len() == 0 {
        "- (none)\n"@
    } else {
        concat(keys.map_values(|k: Seq<char>| usage_line(pairs, k)))
    })
}

fn use_pairs(d: &DashboardView, pairs: &mut Vec<(String, String)>)
    ensures
        final(pairs).deep_view() == old(pairs).deep_view() + uses(d.deep_view()),
{
    let ghost before = pairs.deep_view();
    let ghost goal = uses(d.deep_view());
    assert(before + goal.take(0) =~= before);
    for i in 0..d.panels.len()
        invariant
            goal == uses(d.deep_view()),
            pairs.deep_view() == before + goal.take(i as int),
    {
        let ghost now = pairs.deep_view();
        assert(d.deep_view().panels[i as int] == d.panels@[i as int].deep_view());
        let pair = (d.panels[i].datasource.clone(), d.title.clone());
        assert(pair.deep_view() == goal[i as int]);
        pairs.push(pair);
        assert(pairs.deep_view() =~= now.push(goal[i as int]));
        assert(goal.take(i + 1) =~= goal.take(i as int).push(goal[i as int]));
    }
    assert(goal.take(goal.len() as int) =~= goal);
}

fn datasource_usage(model: &RenderModel) -> (r: String)
    ensures
        r@ == datasource_usage_text(model.deep_view()),
{
    let ghost all = model.deep_view().dashboards;
    let ghost f = |d: DashboardV| uses(d);
    let mut pairs: Vec<(String, String)> = Vec::new();
    assert(pairs.deep_view() =~= flattened(all.take(0), f));
    for i in 0..model.dashboards.len()
        invariant
            all == model.dashboards.deep_view(),
            f == (|d: DashboardV| uses(d)),
            pairs.deep_view() == flattened(all.take(i as int), f),
    {
        proof {
            lemma_flattened_step(all, f, i as int);
        }
        assert(all[i as int] == model.dashboards@[i as int].deep_view());
        use_pairs(&model.dashboards[i], &mut pairs);
    }
    assert(all.take(all.len() as int) =~= all);
    let ghost ps = pairs.deep_view();
    let keys = find_keys(&pairs);
    let mut out = "\n### Datasource usage\n".to_owned();
    assert(keys.deep_view().len() == keys@.len());
    if keys.len() == 0 {
        out.append("- (none)\n");
        return out;
    }
    let ghost lines = keys.deep_view().map_values(|k: Seq<char>| usage_line(ps, k));
    let mut body = String::new();
    for i in 0..keys.len()
        invariant
            ps == pairs.deep_view(),
            lines == keys.deep_view().map_values(|k: Seq<char>| usage_line(ps, k)),
            body@ == concat(lines.take(i as int)),
    {
        proof {
            lemma_concat_take(lines, i as int);
        }
        let titles = find_values(&pairs, keys[i].as_str());
        let panels: usize = titles.len();
        assert(titles.deep_view().len() == panels);
        let dashes = sort_dedup(titles);
        assert(dashes.deep_view().len() == dashes@.len());
        let mut line = "- ".to_owned();
        line.append(keys[i].as_str());
        line.append(": ");
        line.append(decimal_usize(panels).as_str());
        line.append(" panel(s) across ");
        line.append(decimal_usize(dashes.len()).as_str());
        line.append(" dashboard(s)\n");
        assert(line@ == lines[i as int]);
        body.append(line.as_str());
    }
    assert(lines.take(lines.len() as int) =~= lines);
    out.append(body.as_str());
    out
}

/// The structure section.
pub open spec fn structure_text(m: RenderV) -> Seq<char> {
    "\n## 2. Structure / Navigation\n"@ + folder_tree_text(m) + navigation_text(m)
        + tag_index_text(m) + panel_types_text(m) + datasource_usage_text(m)
}

fn structure(model: &RenderModel) -> (r: String)
    ensures
        r@ == structure_text(model.deep_view()),
{
    let mut out = "\n## 2. Structure / Navigation\n".to_owned();
    out.append(folder_tree(model).as_str());
    out.append(navigation(model).as_str());
    out.append(tag_index(model).as_str());
    out.append(panel_type_distribution(model).as_str());
    out.append(datasource_usage(model).as_str());
    out
}


// ---------------------------------------------------------------------------
// Pages
// ---------------------------------------------------------------------------

/// A variable as it is shown.
pub open spec fn variable_text(on: bool, v: (Seq<char>, Seq<char>)) -> Seq<char> {
    v.0 + "="@ + shown_value(on, v.0, v.1)
}

/// The variables of a dashboard on one line.
pub open spec fn variables_line_text(on: bool, d: DashboardV) -> Seq<char> {
    if d.variables.len() == 0 {
        "- Variables: (none)\n"@
    } else {
        "- Variables: "@ + join(
            d.variables.map_values(|v: (Seq<char>, Seq<char>)| variable_text(on, v)),
            ", "@,
        ) + "\n"@
    }
}

fn variables_line(d: &DashboardView, red: &Red) -> (r: String)
    ensures
        r@ == variables_line_text(red.on, d.deep_view()),
{
    assert(d.variables.deep_view().len() == d.variables@.len());
    if d.variables.len() == 0 {
        return "- Variables: (none)\n".to_owned();
    }
    let mut texts: Vec<String> = Vec::new();
    let ghost on = red.on;
    for i in 0..d.variables.len()
        invariant
            on == red.on,
            texts@.len() == i,
            forall|k: int|
                0 <= k < i ==> (#[trigger] texts@[k])@ == variable_text(
                    on,
                    d.variables@[k].deep_view(),
                ),
    {
        let v = &d.variables[i];
        let mut s = v.0.clone();
        s.append("=");
        s.append(red.var(v.0.as_str(), v.1.as_str()).as_str());
        texts.push(s);
    }
    assert(texts.deep_view() =~= d.deep_view().variables.map_values(
        |v: (Seq<char>, Seq<char>)| variable_text(on, v),
    ));
    let mut out = "- Variables: ".to_owned();
    out.append(join_texts(&texts, ", ").as_str());
    out.append("\n");
    out
}

/// The value of a panel as it is shown: only with data, and only where there is
/// one.
pub open spec fn panel_value_text(opts: ReportOptionsV, p: PanelV) -> Seq<char> {
    match p.value {
        Some(v) => if opts.data {
            shown(opts.redact, v)
        } else {
            "—"@
        },
        None => "—"@,
    }
}

/// A row of the panels table.
pub open spec fn panel_row(opts: ReportOptionsV, p: PanelV) -> Seq<char> {
    "  | "@ + cell(p.title) + " | "@ + integer(p.id as int) + " | "@ + cell(p.ptype) + " | "@
        + cell(p.datasource) + " | "@ + cell(panel_value_text(opts, p)) + " |\n"@
}

/// The panels table of a page.
pub open spec fn panels_table_text(opts: ReportOptionsV, d: DashboardV) -> Seq<char> {
    "- Panels (sorted by panel id):\n\n  | panel | id | type | datasource | value |\n  |-------|----|------|-----------|-------|\n"@
        + concat(d.panels.map_values(|p: PanelV| panel_row(opts, p)))
}

fn panels_table(d: &DashboardView, opts: &ReportOptions, red: &Red) -> (r: String)
    requires
        red.on == opts.redact,
    ensures
        r@ == panels_table_text(opts.deep_view(), d.deep_view()),
{
    let ghost o = opts.deep_view();
    let ghost lines = d.deep_view().panels.map_values(|p: PanelV| panel_row(o, p));
    let mut rows = String::new();
    for i in 0..d.panels.len()
        invariant
            red.on == opts.redact,
            o == opts.deep_view(),
            lines == d.deep_view().panels.map_values(|p: PanelV| panel_row(o, p)),
            rows@ == concat(lines.take(i as int)),
    {
        proof {
            lemma_concat_take(lines, i as int);
        }
        let p = &d.panels[i];
        assert(d.deep_view().panels[i as int] == p.deep_view());
        let value = match &p.value {
            Some(v) => if opts.data {
                red.text(v.as_str())
            } else {
                "—".to_owned()
            },
            None => "—".to_owned(),
        };
        let mut row = "  | ".to_owned();
        row.append(escape_cell(p.title.as_str()).as_str());
        row.append(" | ");
        row.append(integer_i64(p.id).as_str());
        row.append(" | ");
        row.append(escape_cell(p.ptype.as_str()).as_str());
        row.append(" | ");
        row.append(escape_cell(p.datasource.as_str()).as_str());
        row.append(" | ");
        row.append(escape_cell(value.as_str()).as_str());
        row.append(" |\n");
        assert(row@ == lines[i as int]);
        rows.append(row.as_str());
    }
    assert(lines.take(lines.len() as int) =~= lines);
    let mut out =
        "- Panels (sorted by panel id):\n\n  | panel | id | type | datasource | value |\n  |-------|----|------|-----------|-------|\n".to_owned();
    out.append(rows.as_str());
    out
}

/// A block of SQL under a caption.
pub open spec fn sql_block(on: bool, caption: Seq<char>, sql: Seq<char>) -> Seq<char> {
    caption + shown(on, sql) + "\n```\n"@
}

/// Several blocks of SQL under the same caption.
pub open spec fn sql_blocks(on: bool, caption: Seq<char>, list: Seq<Seq<char>>) -> Seq<char> {
    concat(list.map_values(|s: Seq<char>| sql_block(on, caption, s)))
}

fn render_sql(red: &Red, caption: &str, list: &Vec<String>) -> (r: String)
    ensures
        r@ == sql_blocks(red.on, caption@, list.deep_view()),
{
    let ghost on = red.on;
    let ghost blocks = list.deep_view().map_values(|s: Seq<char>| sql_block(on, caption@, s));
    let mut out = String::new();
    for i in 0..list.len()
        invariant
            on == red.on,
            blocks == list.deep_view().map_values(|s: Seq<char>| sql_block(on, caption@, s)),
            out@ == concat(blocks.take(i as int)),
    {
        proof {
            lemma_concat_take(blocks, i as int);
        }
        let mut block = caption.to_owned();
        block.append(red.text(list[i].as_str()).as_str());
        block.append("\n```\n");
        assert(block@ == blocks[i as int]);
        out.append(block.as_str());
    }
    assert(blocks.take(blocks.len() as int) =~= blocks);
    out
}

/// The executed SQL and the sample rows of a panel, where the response has them.
pub open spec fn executed_text(on: bool, p: PanelV) -> Seq<char> {
    sql_blocks(
        on,
        "\nexecuted SQL (where the datasource exposes it):\n```sql\n"@,
        p.executed_sql,
    ) + (match p.sample_rows {
        Some(rows) => sql_block(on, "\nsample returned rows:\n```json\n"@, rows),
        None => ""@,
    })
}

fn executed_and_sample(p: &PanelView, red: &Red) -> (r: String)
    ensures
        r@ == executed_text(red.on, p.deep_view()),
{
    let mut out = render_sql(
        red,
        "\nexecuted SQL (where the datasource exposes it):\n```sql\n",
        &p.executed_sql,
    );
    let sample = match &p.sample_rows {
        Some(rows) => {
            let mut s = "\nsample returned rows:\n```json\n".to_owned();
            s.append(red.text(rows.as_str()).as_str());
            s.append("\n```\n");
            s
        },
        None => "".to_owned(),
    };
    out.append(sample.as_str());
    out
}

/// The details of a panel, where it has any.
pub open spec fn panel_detail(opts: ReportOptionsV, p: PanelV) -> Seq<char> {
    if p.template_sql.len() == 0 && p.executed_sql.len() == 0 && p.sample_rows is None {
        ""@
    } else {
        "\n#### "@ + p.title + " (panel "@ + integer(p.id as int) + ")\n"@ + sql_blocks(
            opts.redact,
            "\ntemplate SQL:\n```sql\n"@,
            p.template_sql,
        ) + (if opts.data {
            executed_text(opts.redact, p)
        } else {
            ""@
        })
    }
}

fn one_panel_detail(p: &PanelView, opts: &ReportOptions, red: &Red) -> (r: String)
    requires
        red.on == opts.redact,
    ensures
        r@ == panel_detail(opts.deep_view(), p.deep_view()),
{
    assert(p.template_sql.deep_view().len() == p.template_sql@.len());
    assert(p.executed_sql.deep_view().len() == p.executed_sql@.len());
    if p.template_sql.len() == 0 && p.executed_sql.len() == 0 && p.sample_rows.is_none() {
        return "".to_owned();
    }
    let mut out = "\n#### ".to_owned();
    out.append(p.title.as_str());
    out.append(" (panel ");
    out.append(integer_i64(p.id).as_str());
    out.append(")\n");
    out.append(render_sql(red, "\ntemplate SQL:\n```sql\n", &p.template_sql).as_str());
    let rest = if opts.data {
        executed_and_sample(p, red)
    } else {
        "".to_owned()
    };
    out.append(rest.as_str());
    out
}

/// The details of the panels of a page.
pub open spec fn panel_details_text(opts: ReportOptionsV, d: DashboardV) -> Seq<char> {
    concat(d.panels.map_values(|p: PanelV| panel_detail(opts, p)))
}

fn panel_details(d: &DashboardView, opts: &ReportOptions, red: &Red) -> (r: String)
    requires
        red.on == opts.redact,
    ensures
        r@ == panel_details_text(opts.deep_view(), d.deep_view()),
{
    let ghost o = opts.deep_view();
    let ghost blocks = d.deep_view().panels.map_values(|p: PanelV| panel_detail(o, p));
    let mut out = String::new();
    for i in 0..d.panels.len()
        invariant
            red.on == opts.redact,
            o == opts.deep_view(),
            blocks == d.deep_view().panels.map_values(|p: PanelV| panel_detail(o, p)),
            out@ == concat(blocks.take(i as int)),
    {
        proof {
            lemma_concat_take(blocks, i as int);
        }
        assert(d.deep_view().panels[i as int] == d.panels@[i as int].deep_view());
        let block = one_panel_detail(&d.panels[i], opts, red);
        assert(block@ == blocks[i as int]);
        out.append(block.as_str());
    }
    assert(blocks.take(blocks.len() as int) =~= blocks);
    out
}

/// The page of a dashboard.
pub open spec fn page_text(opts: ReportOptionsV, d: DashboardV) -> Seq<char> {
    "\n### "@ + d.title + " — uid "@ + d.uid + " · folder: "@ + folder_key(d) + "\n- "@ + decimal(
        d.panels.len(),
    ) + " panels · "@ + decimal(d.variables.len()) + " variables · datasource: "@
        + d.primary_datasource + "\n"@ + variables_line_text(opts.redact, d) + panels_table_text(
        opts,
        d,
    ) + (if opts.mode == Mode::Full {
        panel_details_text(opts, d)
    } else {
        ""@
    })
}

fn page(d: &DashboardView, opts: &ReportOptions, red: &Red) -> (r: String)
    requires
        red.on == opts.redact,
    ensures
        r@ == page_text(opts.deep_view(), d.deep_view()),
{
    let mut out = "\n### ".to_owned();
    out.append(d.title.as_str());
    out.append(" — uid ");
    out.append(d.uid.as_str());
    out.append(" · folder: ");
    let folder = match &d.folder {
        Some(f) => f.clone(),
        None => "(no folder)".to_owned(),
    };
    out.append(folder.as_str());
    out.append("\n- ");
    out.append(decimal_usize(d.panel_count()).as_str());
    out.append(" panels · ");
    out.append(decimal_usize(d.variable_count()).as_str());
    out.append(" variables · datasource: ");
    out.append(d.primary_datasource.as_str());
    out.append("\n");
    out.append(variables_line(d, red).as_str());
    out.append(panels_table(d, opts, red).as_str());
    let details = if opts.mode == Mode::Full {
        panel_details(d, opts, red)
    } else {
        "".to_owned()
    };
    out.append(details.as_str());
    out
}

/// The pages section.
pub open spec fn pages_text(m: RenderV, opts: ReportOptionsV) -> Seq<char> {
    "\n## 3. Pages\n"@ + (if m.dashboards.len() == 0 {
        "\n_(no dashboards selected / on disk)_\n"@
    } else {
        concat(m.dashboards.map_values(|d: DashboardV| page_text(opts, d)))
    })
}

fn pages(model: &RenderModel, opts: &ReportOptions, red: &Red) -> (r: String)
    requires
        red.on == opts.redact,
    ensures
        r@ == pages_text(model.deep_view(), opts.deep_view()),
{
    let mut out = "\n## 3. Pages\n".to_owned();
    assert(model.dashboards.deep_view().len() == model.dashboards@.len());
    if model.dashboards.len() == 0 {
        out.append("\n_(no dashboards selected / on disk)_\n");
        return out;
    }
    let ghost o = opts.deep_view();
    let ghost blocks = model.deep_view().dashboards.map_values(|d: DashboardV| page_text(o, d));
    let mut body = String::new();
    for i in 0..model.dashboards.len()
        invariant
            red.on == opts.redact,
            o == opts.deep_view(),
            blocks == model.deep_view().dashboards.map_values(|d: DashboardV| page_text(o, d)),
            body@ == concat(blocks.take(i as int)),
    {
        proof {
            lemma_concat_take(blocks, i as int);
        }
        assert(model.deep_view().dashboards[i as int] == model.dashboards@[i as int].deep_view());
        let block = page(&model.dashboards[i], opts, red);
        assert(block@ == blocks[i as int]);
        body.append(block.as_str());
    }
    assert(blocks.take(blocks.len() as int) =~= blocks);
    out.append(body.as_str());
    out
}

/// The whole report.
pub open spec fn report_text(m: RenderV, opts: ReportOptionsV) -> Seq<char> {
    header_text(m, opts) + overview_text(m) + structure_text(m) + pages_text(m, opts)
}

/// Render the model to Markdown under `opts`.
pub fn render(model: &RenderModel, opts: &ReportOptions) -> (r: String)
    ensures
        r@ == report_text(model.deep_view(), opts.deep_view()),
{
    let red = Red::new(opts.redact);
    let mut out = header(model, opts);
    out.append(overview(model).as_str());
    out.append(structure(model).as_str());
    out.append(pages(model, opts, &red).as_str());
    out
}

} // verus!
