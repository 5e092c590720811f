//! The Grafana report.

use ncrawler::artifact::{Artifact, BuildCtx, Item, ItemKind};
use ncrawler::error::{BuildError, StoreError};
use ncrawler::grafana::model::{primary_ds, Facts, RenderModel};
use ncrawler::grafana::options::{
    Mode, ReportOptions, ReportScope, DEFAULT_WINDOW, REPORT_FILENAME,
};
use ncrawler::grafana::render::render;
use ncrawler::grafana::report::{
    build_report, proceed, selected_dashboard, sidecar_malformed, sidecar_unreadable,
    GrafanaReportBuilder,
};
use ncrawler::grafana::sql::{
    clip_text, executed_sql, representative_value, resolve_ds_name, sample_rows, template_sql,
    DsEntry, SAMPLE_MAX_BYTES,
};
use ncrawler::json::{Json, JsonMap, Num};
use ncrawler::sidecar::InstanceSidecar;
use ncrawler::time::Timestamp;

fn convert(v: serde_json::Value) -> Json {
    match v {
        serde_json::Value::Null => Json::Null,
        serde_json::Value::Bool(b) => Json::Bool(b),
        serde_json::Value::Number(n) => Json::Number(Num::from_number(n)),
        serde_json::Value::String(s) => Json::Text(s),
        serde_json::Value::Array(xs) => Json::Array(xs.into_iter().map(convert).collect()),
        serde_json::Value::Object(m) => {
            let mut map = JsonMap::new();
            for (k, v) in m {
                map.insert(k, convert(v));
            }
            Json::Object(map)
        }
    }
}

fn json(text: &str) -> Json {
    convert(serde_json::from_str(text).unwrap())
}

fn fetched_at() -> Timestamp {
    // 2026-05-29T06:00:00Z
    Timestamp::new(1_780_034_400, 0).unwrap()
}

fn sidecar() -> InstanceSidecar {
    let mut s = InstanceSidecar::new("graf.test", fetched_at());
    s.search = json("[]");
    s.datasources = json(
        r#"[ { "name": "PG", "type": "postgres", "uid": "pg1", "isDefault": true },
             { "name": "Rubix", "type": "rubix", "uid": "rx1" } ]"#,
    );
    s.instance = json(r#"{ "version": "7.5.17", "edition": "OSS", "rendererAvailable": false }"#);
    s.folders = json("[{}, {}]");
    s
}

fn dashboard(target: &str, meta: &str, items: Vec<Item>) -> Artifact {
    let mut a = Artifact::new("grafana", target, fetched_at());
    a.meta = json(meta);
    a.items = items;
    a
}

fn item(id: &str, data: &str) -> Item {
    Item {
        id: id.into(),
        kind: ItemKind::Panel,
        title: None,
        text: String::new(),
        data: Some(json(data)),
        tags: vec![],
    }
}

/// A panel over a SQL datasource, one over another, a secret variable.
fn site() -> Artifact {
    dashboard(
        "site",
        r#"{ "dashboard": { "meta": { "folderTitle": "Sites" }, "dashboard": {
            "uid": "site-a", "title": "Site A", "tags": ["power"],
            "templating": { "list": [
                { "name": "token", "current": { "value": "supersecretvalue" } },
                { "name": "area", "current": { "value": ["x", "y"] } }
            ] },
            "panels": [
                { "id": 2, "title": "Live|raw", "type": "stat", "datasource": "Rubix", "targets": [] },
                { "id": 1, "title": "Energy", "type": "graph", "datasource": { "uid": "pg1" },
                  "targets": [ { "rawSql": " SELECT kwh FROM meters WHERE k='deadbeefdeadbeefdeadbeefdeadbeef' " },
                               { "rawSql": "hidden", "hide": true } ] },
                { "id": 3, "type": "row" }
            ] } } }"#,
        vec![
            item(
                "panel-1",
                r#"{ "results": { "A": { "meta": { "executedQueryString": "SELECT kwh FROM meters" },
                    "frames": [ { "schema": { "fields": [ { "name": "t" }, {} ] },
                                  "data": { "values": [[1, 2], [5.5, null]] } } ] } } }"#,
            ),
            item(
                "panel-2",
                r#"{ "results": { "A": { "frames": [ { "data": { "values": [["on"]] } } ] } } }"#,
            ),
        ],
    )
}

fn nav() -> Artifact {
    dashboard(
        "nav",
        r#"{ "dashboard": { "meta": {}, "dashboard": { "title": "0. Navigation",
            "panels": [ { "id": 1, "type": "dashlist", "title": "All" }, { "id": 2, "type": "text" } ],
            "links": [ { "title": "Home" }, { "title": "All (dashlist)" } ] } } }"#,
        vec![],
    )
}

fn options(mode: Mode, data: bool, redact: bool) -> ReportOptions {
    ReportOptions {
        mode,
        data,
        window: "now-30d..now".to_owned(),
        redact,
    }
}

fn report(dashboards: Vec<Artifact>, opts: &ReportOptions) -> String {
    let n: usize = dashboards.len();
    build_report(&sidecar(), &vec![], &dashboards, "--all", 3, n, opts).markdown
}

#[test]
fn an_overview_reads_as_expected() {
    let expected = "# Grafana Report \u{2014} graf.test\n\
        generated 2026-05-29 \u{b7} mode: overview \u{b7} data: off \u{b7} redacted\n\
        scope: --all  (2 on disk of 3 in instance inventory)\n\
        \n## 1. Overview\n\
        - URL:          https://graf.test\n\
        - Version:      7.5.17  (OSS)\n\
        - Datasources:  PG (postgres, default) \u{b7} Rubix (rubix)\n\
        - Dashboards:   3 inventory / 2 scraped       Folders: 2\n\
        - Renderer plugin: not installed  (visual/screenshot mode unavailable; chrome fallback only)\n\
        \n## 2. Structure / Navigation\n\
        \n### Folder tree\n- (no folder): 1\n- Sites: 1\n\
        \n### 0. Navigation (0. Navigation)\n- (untitled) (text)\n- All (dashlist)\n- Home\n\
        \n### Tag index\n- power: Site A (site-a)\n\
        \n### Panel-type distribution\n- dashlist: 1\n- graph: 1\n- stat: 1\n- text: 1\n\
        \n### Datasource usage\n\
        - PG: 3 panel(s) across 2 dashboard(s)\n- Rubix: 1 panel(s) across 1 dashboard(s)\n\
        \n## 3. Pages\n\
        \n### 0. Navigation \u{2014} uid nav \u{b7} folder: (no folder)\n\
        - 2 panels \u{b7} 0 variables \u{b7} datasource: PG\n- Variables: (none)\n\
        - Panels (sorted by panel id):\n\n  | panel | id | type | datasource | value |\n  \
        |-------|----|------|-----------|-------|\n  \
        | All | 1 | dashlist | PG | \u{2014} |\n  |  | 2 | text | PG | \u{2014} |\n\
        \n### Site A \u{2014} uid site-a \u{b7} folder: Sites\n\
        - 2 panels \u{b7} 2 variables \u{b7} datasource: PG\n\
        - Variables: area=x,y, token=***REDACTED***\n\
        - Panels (sorted by panel id):\n\n  | panel | id | type | datasource | value |\n  \
        |-------|----|------|-----------|-------|\n  \
        | Energy | 1 | graph | PG | \u{2014} |\n  | Live\\|raw | 2 | stat | Rubix | \u{2014} |\n";
    assert_eq!(
        report(vec![site(), nav()], &options(Mode::Overview, false, true)),
        expected
    );
}

#[test]
fn a_full_report_with_data_shows_sql_and_rows() {
    let md = report(vec![site()], &options(Mode::Full, true, true));
    assert!(md.contains("mode: full \u{b7} data: on (now-30d..now) \u{b7} redacted\n"));
    assert!(md.contains("  | Energy | 1 | graph | PG | 5.5 |\n"));
    assert!(md.contains("  | Live\\|raw | 2 | stat | Rubix | on |\n"));
    let details = "\n#### Energy (panel 1)\n\
        \ntemplate SQL:\n```sql\n SELECT kwh FROM meters WHERE k='***REDACTED***' \n```\n\
        \nexecuted SQL (where the datasource exposes it):\n```sql\nSELECT kwh FROM meters\n```\n\
        \nsample returned rows:\n```json\n[\n  {\n    \"col1\": 5.5,\n    \"t\": 1\n  },\n  {\n    \
        \"col1\": null,\n    \"t\": 2\n  }\n]\n```\n\
        \n#### Live|raw (panel 2)\n\
        \nsample returned rows:\n```json\n[\n  {\n    \"col0\": \"on\"\n  }\n]\n```\n";
    assert!(md.ends_with(details), "{md}");
}

#[test]
fn executed_sql_is_never_made_up() {
    let md = report(vec![site()], &options(Mode::Full, true, true));
    // One block of executed SQL, and it belongs to the SQL panel.
    assert_eq!(md.matches("executed SQL").count(), 1);
    assert!(md.contains("FROM meters"));
    assert!(!md.contains("deadbeefdeadbeefdeadbeefdeadbeef"));
    assert!(!md.contains("supersecretvalue"));
}

#[test]
fn without_data_nothing_of_the_response_is_shown() {
    let md = report(vec![site()], &options(Mode::Full, false, true));
    assert!(md.contains("template SQL"));
    assert!(!md.contains("executed SQL") && !md.contains("sample returned rows"));
    assert!(!md.contains("5.5"));
}

#[test]
fn without_redaction_everything_is_shown() {
    let md = report(vec![site()], &options(Mode::Full, false, false));
    assert!(md.contains("\u{b7} not redacted\n"));
    assert!(md.contains("deadbeefdeadbeefdeadbeefdeadbeef"));
    assert!(md.contains("token=supersecretvalue"));
}

#[test]
fn an_empty_instance_says_so() {
    let s = InstanceSidecar::new("h", fetched_at());
    let md = build_report(
        &s,
        &vec![],
        &vec![],
        "none",
        0,
        0,
        &ReportOptions::default(),
    )
    .markdown;
    for line in [
        "- Version:      unknown  (unknown)\n",
        "- Datasources:  none recorded\n",
        "- Renderer plugin: unknown\n",
        "- (none on disk)\n",
        "- (no tags)\n",
        "- (no panels)\n",
        "- (none)\n",
        "\n_(no dashboards selected / on disk)_\n",
    ] {
        assert!(md.contains(line), "{line}");
    }
    assert!(!md.contains("### 0. Navigation"));
}

#[test]
fn the_builder_reads_its_options() {
    let dashboards = vec![site(), nav()];
    let ctx = BuildCtx {
        artifact_dir: "sidecar".into(),
        dashboard_dirs: vec!["a".into(), "b".into()],
        options: json(
            r#"{ "mode": "full", "data": false, "window": "now-6h", "redact": true,
                 "scope": "--all", "inventory_total": 3, "on_disk_total": 2 }"#,
        ),
    };
    let built = GrafanaReportBuilder::new().build(&ctx, &sidecar(), &dashboards);
    let opts = ReportOptions {
        mode: Mode::Full,
        data: false,
        window: "now-6h".to_owned(),
        redact: true,
    };
    let direct = build_report(
        &sidecar(),
        &ctx.dashboard_dirs,
        &dashboards,
        "--all",
        3,
        2,
        &opts,
    );
    assert_eq!(built.markdown, direct.markdown);
    assert_eq!(built.output.files, vec![REPORT_FILENAME]);
    assert_eq!(
        built.output.summary,
        "rendered 2 dashboard(s) to REPORT.md (mode Full, data false, redact true)"
    );
    assert_eq!(GrafanaReportBuilder::default().name(), "report-grafana");
}

#[test]
fn options_have_defaults() {
    let opts = ReportOptions::from_options(&json(r#"{ "data": "yes", "mode": 1 }"#));
    assert_eq!(opts.mode, Mode::Overview);
    assert!(!opts.data && opts.redact);
    assert_eq!(opts.window, DEFAULT_WINDOW);
    let scope = ReportScope::from_options(&json("{}"), 4);
    assert_eq!(scope.scope, "(scope unknown)");
    assert_eq!((scope.inventory_total, scope.on_disk_total), (0, 4));
    let scope = ReportScope::from_options(
        &json(r#"{ "scope": "s", "inventory_total": 9, "on_disk_total": -1 }"#),
        4,
    );
    assert_eq!(
        (scope.scope.as_str(), scope.inventory_total, scope.on_disk_total),
        ("s", 9, 4)
    );
}

#[test]
fn modes_are_parsed_by_name() {
    for mode in [Mode::Overview, Mode::Full] {
        assert_eq!(Mode::parse(mode.name()), mode);
    }
    assert_eq!(Mode::parse("audit"), Mode::Overview);
    assert_eq!(Mode::parse("other"), Mode::Overview);
}

#[test]
fn cells_stay_on_one_line() {
    let a = dashboard(
        "u",
        r#"{ "dashboard": { "dashboard": { "panels": [
            { "id": 1, "title": "a|b\\c\nd\re", "type": "t" } ] } } }"#,
        vec![],
    );
    let md = report(vec![a], &options(Mode::Overview, false, true));
    assert!(md.contains("  | a\\|b\\\\c d e | 1 | t | PG | \u{2014} |\n"));
}

#[test]
fn pages_are_sorted_by_folder_title_and_uid() {
    let page = |uid: &str, title: &str, folder: &str| {
        dashboard(
            uid,
            &format!(
                r#"{{ "dashboard": {{ "meta": {{ "folderTitle": "{folder}" }},
                     "dashboard": {{ "title": "{title}" }} }} }}"#
            ),
            vec![],
        )
    };
    let s = sidecar();
    let facts = Facts {
        host: "h",
        generated: fetched_at(),
        search: &s.search,
        datasources: &s.datasources,
        instance: &s.instance,
        folders: &s.folders,
    };
    let dashboards = vec![
        page("4", "A", "Z"),
        page("3", "B", "Y"),
        page("2", "A", "Y"),
        page("1", "A", "Y"),
        page("5", "Z", ""),
    ];
    let model = RenderModel::assemble(&facts, &dashboards, "s".into(), 5, 5);
    let uids: Vec<&str> = model.dashboards.iter().map(|d| d.uid.as_str()).collect();
    assert_eq!(uids, vec!["5", "1", "2", "3", "4"]);
    assert_eq!(model.dashboards[0].panel_count(), 0);
    assert_eq!(model.dashboards[0].variable_count(), 0);
    assert_eq!(model.dashboards[0].primary_datasource, "\u{2014}");
    assert!(render(&model, &ReportOptions::default()).contains("## 3. Pages"));
}

#[test]
fn folders_are_counted_in_the_inventory_without_a_list() {
    let mut s = sidecar();
    s.folders = Json::Null;
    s.search = json(
        r#"[ { "folderTitle": "A" }, { "folderTitle": "B" }, { "folderTitle": "A" },
             { "folderTitle": "" }, {} ]"#,
    );
    let md = build_report(
        &s,
        &vec![],
        &vec![],
        "s",
        0,
        0,
        &ReportOptions::default(),
    )
    .markdown;
    assert!(md.contains("Folders: 2\n"));
}

#[test]
fn template_sql_is_verbatim_and_of_shown_targets_only() {
    let panel = json(
        r#"{ "targets": [ { "rawSql": "  SELECT $site\n" }, { "rawSql": "  " }, { "rawSql": "b", "hide": true },
             { "rawSql": "c", "hide": false }, { "expr": "d" } ] }"#,
    );
    assert_eq!(template_sql(&panel), vec!["  SELECT $site\n", "c"]);
    assert!(template_sql(&json("{}")).is_empty());
}

#[test]
fn executed_sql_is_found_in_both_places() {
    let data = json(
        r#"{ "results": {
            "B": { "frames": [ {}, { "schema": { "meta": { "executedQueryString": "two" } } } ] },
            "A": { "meta": { "executedQueryString": "one" } },
            "C": {} } }"#,
    );
    assert_eq!(executed_sql(&data), vec!["one", "two"]);
}

#[test]
fn samples_are_clipped() {
    let rows: Vec<String> = (0..25).map(|i| i.to_string()).collect();
    let data = json(&format!(
        r#"{{ "results": {{ "A": {{ "frames": [ {{ "data": {{ "values": [[{}]] }} }} ] }} }} }}"#,
        rows.join(",")
    ));
    let sample: serde_json::Value = serde_json::from_str(&sample_rows(&data).unwrap()).unwrap();
    assert_eq!(sample.as_array().unwrap().len(), 10);
    assert_eq!(representative_value(&data).as_deref(), Some("24"));
    assert_eq!(sample_rows(&json("{}")), None);
    assert_eq!(representative_value(&json("{}")), None);
}

#[test]
fn long_text_is_clipped_between_characters() {
    let short = "x".repeat(SAMPLE_MAX_BYTES);
    assert_eq!(clip_text(&short), short);
    let long = format!("{}\u{e9}", "x".repeat(SAMPLE_MAX_BYTES - 1));
    assert_eq!(
        clip_text(&long),
        format!(
            "{}\n\u{2026} (clipped to 4096 bytes)",
            "x".repeat(SAMPLE_MAX_BYTES - 1)
        )
    );
}

#[test]
fn a_representative_value_is_the_last_that_is_there() {
    let data = json(
        r#"{ "results": { "B": { "frames": [ { "data": { "values": [[1]] } } ] },
            "A": { "frames": [ {}, { "data": { "values": null } },
                               { "data": { "values": [[9], ["a", {"k": 1}, null]] } } ] } } }"#,
    );
    assert_eq!(representative_value(&data).as_deref(), Some("{\"k\":1}"));
}

#[test]
fn datasources_are_named() {
    let ds = DsEntry::parse_list(&sidecar().datasources);
    let name = |text: &str| resolve_ds_name(Some(&json(text)), &ds);
    assert_eq!(resolve_ds_name(None, &ds), "PG");
    assert_eq!(name("null"), "PG");
    assert_eq!(name("\"default\""), "PG");
    assert_eq!(name("\"rx1\""), "Rubix");
    assert_eq!(name("\"$var\""), "$var");
    assert_eq!(name("{\"uid\":\"rx1\",\"type\":\"postgres\"}"), "Rubix");
    assert_eq!(name("{\"uid\":\"stale\",\"type\":\"rubix\"}"), "stale");
    assert_eq!(name("{\"uid\":\"$ds\"}"), "$ds");
    assert_eq!(name("{\"type\":\"rubix\"}"), "Rubix");
    assert_eq!(name("{\"type\":\"loki\"}"), "loki");
    assert_eq!(name("{}"), "PG");
    assert_eq!(name("[1]"), "[1]");
    assert_eq!(resolve_ds_name(None, &vec![]), "default");
}

#[test]
fn the_steps_of_a_build_report_their_failures() {
    assert!(proceed(false).is_ok());
    assert!(matches!(proceed(true), Err(BuildError::Cancelled)));
    assert!(selected_dashboard(Ok(site())).is_ok());
    assert!(matches!(
        selected_dashboard(Err(StoreError::Io("disk".into()))),
        Err(BuildError::Io(s)) if s == "io error: disk"
    ));
    assert_eq!(
        sidecar_unreadable("p", "gone").message(),
        "io error: reading instance sidecar p: gone"
    );
    assert_eq!(
        sidecar_malformed("p", "eof").message(),
        "io error: parsing p: eof"
    );
}

fn assembled(dashboards: &Vec<Artifact>) -> RenderModel {
    let s = sidecar();
    let facts = Facts {
        host: "h",
        generated: fetched_at(),
        search: &s.search,
        datasources: &s.datasources,
        instance: &s.instance,
        folders: &s.folders,
    };
    RenderModel::assemble(&facts, dashboards, "s".into(), 1, 1)
}

#[test]
fn tags_variables_and_panels_are_ordered() {
    let a = dashboard(
        "u",
        r#"{ "dashboard": { "dashboard": { "tags": ["b", "a"],
            "templating": { "list": [ { "name": "z" }, { "name": "m" } ] },
            "panels": [ { "id": 9 }, { "id": 2 } ] } } }"#,
        vec![],
    );
    let model = assembled(&vec![a]);
    let page = &model.dashboards[0];
    assert_eq!(page.tags, vec!["a", "b"]);
    let names: Vec<&str> = page.variables.iter().map(|v| v.0.as_str()).collect();
    assert_eq!(names, vec!["m", "z"]);
    let ids: Vec<i64> = page.panels.iter().map(|p| p.id).collect();
    assert_eq!(ids, vec![2, 9]);
}

#[test]
fn the_primary_datasource_is_the_most_common_then_the_first() {
    let page = |panels: &str| {
        let meta = format!(r#"{{ "dashboard": {{ "dashboard": {{ "panels": [{panels}] }} }} }}"#);
        assembled(&vec![dashboard("u", &meta, vec![])]).dashboards[0]
            .primary_datasource
            .clone()
    };
    let one = r#"{ "id": 1, "datasource": "Rubix" }"#;
    let two = r#"{ "id": 2, "datasource": "Rubix" }"#;
    let three = r#"{ "id": 3, "datasource": "PG" }"#;
    assert_eq!(page(&format!("{one},{two},{three}")), "Rubix");
    assert_eq!(page(&format!("{three},{two},{one}")), "Rubix");
    assert_eq!(page(&format!("{one},{three}")), "PG");
    assert_eq!(page(&format!("{three},{one}")), "PG");
}

#[test]
fn the_model_does_not_depend_on_the_order_of_dashboards() {
    let given = vec![site(), nav()];
    let turned = vec![nav(), site()];
    assert_eq!(
        format!("{:?}", assembled(&given)),
        format!("{:?}", assembled(&turned))
    );
    let opts = options(Mode::Full, true, true);
    assert_eq!(report(given, &opts), report(turned, &opts));
}

#[test]
fn no_panels_have_no_primary_datasource() {
    assert_eq!(primary_ds(&vec![]), "\u{2014}");
    let model = assembled(&vec![site()]);
    assert_eq!(
        primary_ds(&model.dashboards[0].panels),
        model.dashboards[0].primary_datasource
    );
}
