//! The audit of a Grafana instance.
//!
//! Each class of check is exercised on both its present and its absent path,
//! through `build_report` in audit mode.

use ncrawler::artifact::{Artifact, Item, ItemKind};
use ncrawler::grafana::audit::{
    pair_sources, resolve_ds_ref, response_row_count, result_errors, run_audit, sort_findings,
    DsRef, Finding, Severity,
};
use ncrawler::grafana::fingerprint::fingerprint;
use ncrawler::grafana::options::{Mode, ReportOptions};
use ncrawler::grafana::report::{build_report, render_findings};
use ncrawler::grafana::sql::DsEntry;
use ncrawler::json::{Json, JsonMap, Num};
use ncrawler::sidecar::InstanceSidecar;
use ncrawler::time::Timestamp;

fn convert(v: serde_json::Value) -> Json {
    match v {
        serde_json::Value::Null => Json::Null,
        serde_json::Value::Bool(b) => Json::Bool(b),
        serde_json::Value::Number(n) => Json::Number(Num::from_number(n)),
        serde_json::Value::String(s) => Json::Text(s),
        serde_json::Value::Array(xs) => Json::Array(xs.into_iter().map(convert).collect()),
        serde_json::Value::Object(m) => {
            let mut map = JsonMap::new();
            for (k, v) in m {
                map.insert(k, convert(v));
            }
            Json::Object(map)
        }
    }
}

fn json(text: &str) -> Json {
    convert(serde_json::from_str(text).unwrap())
}

fn object(members: Vec<(&str, Json)>) -> Json {
    let mut map = JsonMap::new();
    for (key, value) in members {
        map.insert(key.to_string(), value);
    }
    Json::Object(map)
}

fn fetched_at() -> Timestamp {
    // 2026-05-29T06:00:00Z
    Timestamp::new(1_780_034_400, 0).unwrap()
}

/// Default datasource set: a SQL datasource (referenced by the happy-path
/// fixtures) and an InfluxDB that nothing references (unused).
fn datasources() -> Json {
    json(
        r#"[
        { "name": "PostgreSQL", "type": "postgres", "uid": "pg1", "isDefault": true },
        { "name": "InfluxDB", "type": "influxdb", "uid": "inf1", "isDefault": false }
    ]"#,
    )
}

fn sidecar(datasources: Json) -> InstanceSidecar {
    let mut s = InstanceSidecar::new("audit.test", fetched_at());
    s.search = json("[]");
    s.datasources = datasources;
    s.instance = json(r#"{ "version": "7.5.17", "edition": "OSS", "rendererAvailable": false }"#);
    s.folders = json("[]");
    s
}

/// An item as it stands in an artifact.
fn item(id: &str, title: &str, data: &str) -> Item {
    Item {
        id: id.into(),
        kind: ItemKind::Panel,
        title: Some(title.into()),
        text: String::new(),
        data: Some(json(data)),
        tags: vec![],
    }
}

/// A per-dashboard artifact from a dashboard JSON object, with panel response
/// items and a folder title.
fn artifact(uid: &str, dashboard: Json, items: Vec<Item>) -> Artifact {
    let folder = match dashboard.get("__folder") {
        Some(f) => f.as_str().unwrap_or("").to_string(),
        None => String::new(),
    };
    let mut a = Artifact::new("grafana", uid, fetched_at());
    a.items = items;
    a.meta = object(vec![
        (
            "dashboard",
            object(vec![
                ("meta", object(vec![("folderTitle", Json::Text(folder))])),
                ("dashboard", dashboard),
            ]),
        ),
        ("annotations", Json::Array(vec![])),
    ]);
    a
}

/// Run the audit and return the rendered report.
fn run(sidecar: InstanceSidecar, dashboards: Vec<(&str, Artifact)>) -> String {
    let n: usize = dashboards.len();
    let mut dirs = Vec::new();
    let mut artifacts = Vec::new();
    for (uid, a) in dashboards {
        dirs.push(format!("tmp/{uid}"));
        artifacts.push(a);
    }
    let opts = ReportOptions {
        mode: Mode::Audit,
        data: false,
        window: "now-6h".to_owned(),
        redact: true,
    };
    build_report(&sidecar, &dirs, &artifacts, "--all", n, n, &opts).markdown
}

/// A clean dashboard that references the SQL datasource, sits in a folder, is
/// tagged, and whose query returned rows.
fn clean_dashboard() -> Json {
    json(
        r#"{
        "uid": "clean", "title": "Clean", "tags": ["ok"], "__folder": "Sites",
        "templating": { "list": [] },
        "panels": [
            { "id": 1, "title": "P1", "type": "table", "datasource": { "type": "postgres", "uid": "pg1" },
              "targets": [ { "refId": "A", "rawSql": "SELECT 1" } ] }
        ]
    }"#,
    )
}

fn clean_items() -> Vec<Item> {
    vec![item(
        "panel-1",
        "P1",
        r#"{ "results": { "A": { "frames": [ { "schema": { "fields": [{"name":"n"}] }, "data": { "values": [[1, 2]] } } ] } } }"#,
    )]
}

fn clean() -> (&'static str, Artifact) {
    (
        "clean",
        artifact("clean", clean_dashboard(), clean_items()),
    )
}

#[test]
fn dead_datasource_reference() {
    let bad = json(
        r#"{
        "uid": "dead", "title": "Dead DS", "tags": ["t"], "__folder": "Sites",
        "templating": { "list": [] },
        "panels": [
            { "id": 1, "title": "Ghost", "type": "graph", "datasource": { "uid": "ghost-uid" },
              "targets": [] }
        ]
    }"#,
    );
    let md = run(
        sidecar(datasources()),
        vec![clean(), ("dead", artifact("dead", bad, vec![]))],
    );
    // Present: the ghost reference is flagged on the dead dashboard.
    assert!(
        md.contains("dead-datasource"),
        "missing dead-datasource:\n{md}"
    );
    assert!(md.contains("ghost-uid"));
    // Absent: the clean dashboard's valid postgres ref is not flagged.
    assert!(!md.contains("PostgreSQL` not present"));
}

#[test]
fn broken_query_error_frame() {
    let dash = json(
        r#"{
        "uid": "broken", "title": "Broken", "tags": ["t"], "__folder": "Sites",
        "templating": { "list": [] },
        "panels": [
            { "id": 7, "title": "Bad SQL", "type": "table", "datasource": { "type": "postgres" },
              "targets": [ { "refId": "A", "rawSql": "SELECT * FROM metric_table" } ] }
        ]
    }"#,
    );
    let items = vec![item(
        "panel-7",
        "Bad SQL",
        r#"{ "results": { "A": { "error": "relation \"metric_table\" does not exist", "status": 500 } } }"#,
    )];
    let md = run(
        sidecar(datasources()),
        vec![("broken", artifact("broken", dash, items)), clean()],
    );
    assert!(md.contains("broken-query"), "missing broken-query:\n{md}");
    assert!(md.contains("metric_table"));
    // Absent: clean dashboard produced no broken-query row for its panel.
    assert_eq!(md.matches("broken-query").count(), 1);
}

#[test]
fn empty_panel_zero_rows() {
    let dash = json(
        r#"{
        "uid": "empty", "title": "Empty", "tags": ["t"], "__folder": "Sites",
        "templating": { "list": [] },
        "panels": [
            { "id": 2, "title": "Nothing", "type": "table", "datasource": { "type": "postgres" },
              "targets": [ { "refId": "A", "rawSql": "SELECT 1 WHERE false" } ] }
        ]
    }"#,
    );
    let items = vec![item(
        "panel-2",
        "Nothing",
        r#"{ "results": { "A": { "frames": [ { "schema": { "fields": [{"name":"n"}] }, "data": { "values": [[]] } } ] } } }"#,
    )];
    let md = run(
        sidecar(datasources()),
        vec![("empty", artifact("empty", dash, items)), clean()],
    );
    assert!(md.contains("empty-panel"), "missing empty-panel:\n{md}");
    assert!(md.contains("0 rows"));
    // Absent: clean dashboard returned rows, so exactly one empty-panel.
    assert_eq!(md.matches("empty-panel").count(), 1);
}

#[test]
fn duplicate_dashboards_match_on_fingerprint_not_title() {
    // Two identical-content dashboards with different titles: duplicates.
    let body = |uid: &str, title: &str| {
        json(&format!(
            r#"{{
            "uid": "{uid}", "title": "{title}", "tags": ["t"], "__folder": "Sites",
            "templating": {{ "list": [ {{ "name": "v", "type": "query" }} ] }},
            "panels": [
                {{ "id": 1, "title": "Same", "type": "graph", "datasource": {{ "type": "postgres" }},
                  "targets": [ {{ "refId": "A", "rawSql": "SELECT kwh FROM meters" }} ] }}
            ]
        }}"#
        ))
    };
    // Two same-title dashboards with different content: no duplicates.
    let same_title = |uid: &str, sql: &str| {
        json(&format!(
            r#"{{
            "uid": "{uid}", "title": "Twin Title", "tags": ["t"], "__folder": "Sites",
            "templating": {{ "list": [] }},
            "panels": [
                {{ "id": 1, "title": "X", "type": "graph", "datasource": {{ "type": "postgres" }},
                  "targets": [ {{ "refId": "A", "rawSql": "{sql}" }} ] }}
            ]
        }}"#
        ))
    };
    let md = run(
        sidecar(datasources()),
        vec![
            ("dupA", artifact("dupA", body("dupA", "Alpha"), vec![])),
            ("dupB", artifact("dupB", body("dupB", "Bravo"), vec![])),
            (
                "twin1",
                artifact("twin1", same_title("twin1", "SELECT a"), vec![]),
            ),
            (
                "twin2",
                artifact("twin2", same_title("twin2", "SELECT b"), vec![]),
            ),
        ],
    );
    // Present: dupA and dupB share a fingerprint despite different titles.
    assert!(
        md.contains("duplicate-dashboard"),
        "missing duplicate:\n{md}"
    );
    assert!(md.contains("duplicate of `dupA`"));
    // Absent: identical titles with different SQL are not flagged.
    assert!(
        !md.contains("twin1"),
        "twin dashboards must not be flagged:\n{md}"
    );
    assert!(!md.contains("twin2"));
}

#[test]
fn orphan_no_folder_untagged() {
    let orphan = json(
        r#"{
        "uid": "orphan", "title": "Orphan", "tags": [],
        "templating": { "list": [] },
        "panels": [ { "id": 1, "title": "P", "type": "graph", "datasource": { "type": "postgres" }, "targets": [] } ]
    }"#,
    );
    let md = run(
        sidecar(datasources()),
        vec![("orphan", artifact("orphan", orphan, vec![])), clean()],
    );
    assert!(md.contains("orphan"), "missing orphan:\n{md}");
    assert!(md.contains("in no folder and untagged"));
    // Absent: the clean dashboard has a folder and a tag, so only one orphan row.
    assert_eq!(md.matches("| orphan |").count(), 1);
}

#[test]
fn unused_datasource() {
    let md = run(sidecar(datasources()), vec![clean()]);
    // Present: InfluxDB is configured but referenced by no panel.
    assert!(md.contains("unused-datasource"), "missing unused:\n{md}");
    assert!(md.contains("InfluxDB"));
    // Absent: PostgreSQL is referenced by the clean panel, so not unused.
    assert!(!md.contains("`PostgreSQL` (postgres) is configured but referenced by no"));
}

#[test]
fn blank_and_constant_variables() {
    let dash = json(
        r#"{
        "uid": "vars", "title": "Vars", "tags": ["t"], "__folder": "Sites",
        "templating": { "list": [
            { "name": "empty_const", "type": "constant", "current": { "value": "" }, "query": "" },
            { "name": "hardcoded", "type": "constant", "current": { "value": "WH-A" }, "query": "WH-A" },
            { "name": "normal", "type": "query" }
        ] },
        "panels": [ { "id": 1, "title": "P", "type": "graph", "datasource": { "type": "postgres" }, "targets": [] } ]
    }"#,
    );
    let md = run(
        sidecar(datasources()),
        vec![("vars", artifact("vars", dash, vec![]))],
    );
    // Present: an empty constant is a blank variable, a hardcoded one a constant.
    assert!(
        md.contains("blank-variable"),
        "missing blank-variable:\n{md}"
    );
    assert!(md.contains("empty_const"));
    assert!(md.contains("constant-variable"));
    assert!(md.contains("hardcoded"));
    // Absent: the plain query variable produces neither finding.
    assert!(!md.contains("`normal`"));
}

fn mixed() -> Json {
    json(
        r#"{
        "uid": "mix", "title": "Mixed", "tags": [],
        "templating": { "list": [ { "name": "c", "type": "constant", "current": { "value": "" }, "query": "" } ] },
        "panels": [
            { "id": 1, "title": "Ghost", "type": "graph", "datasource": { "uid": "ghost" }, "targets": [] }
        ]
    }"#,
    )
}

#[test]
fn findings_grouped_by_severity_deterministic() {
    // A dashboard that triggers error, warn and info at once.
    let md = run(
        sidecar(datasources()),
        vec![("mix", artifact("mix", mixed(), vec![]))],
    );
    let err = md.find("### error").expect("error group");
    let warn = md.find("### warn").expect("warn group");
    let info = md.find("### info").expect("info group");
    assert!(
        err < warn && warn < info,
        "severity groups out of order:\n{md}"
    );

    // A second identical run yields identical output.
    let md2 = run(
        sidecar(datasources()),
        vec![("mix", artifact("mix", mixed(), vec![]))],
    );
    assert_eq!(md, md2);
}

#[test]
fn an_audit_report_reads_as_expected() {
    let md = run(
        sidecar(datasources()),
        vec![("mix", artifact("mix", mixed(), vec![]))],
    );
    let head = "| class | dashboard | panel | message | source |\n\
                |-------|-----------|-------|---------|--------|\n";
    let expected = format!(
        "# Grafana Report \u{2014} audit.test\n\
         generated 2026-05-29 \u{b7} mode: audit \u{b7} data: off \u{b7} redacted\n\
         scope: --all  (1 on disk of 1 in instance inventory)\n\
         \n## Findings\n\
         \n### error\n\n{head}\
         | dead-datasource | Mixed (mix) | Ghost (1) | panel references datasource `ghost` not \
         present in the instance | tmp/mix/artifact.json |\n\
         \n### warn\n\n{head}\
         | blank-variable | Mixed (mix) | \u{2014} | constant variable `c` is left empty | \
         tmp/mix/artifact.json |\n\
         | unused-datasource | \u{2014} | \u{2014} | datasource `InfluxDB` (influxdb) is configured \
         but referenced by no scraped panel | \u{2014} |\n\
         | unused-datasource | \u{2014} | \u{2014} | datasource `PostgreSQL` (postgres) is \
         configured but referenced by no scraped panel | \u{2014} |\n\
         \n### info\n\n{head}\
         | orphan | Mixed (mix) | \u{2014} | orphan dashboard: in no folder and untagged | \
         tmp/mix/artifact.json |\n"
    );
    assert_eq!(md, expected);
}

#[test]
fn no_findings_are_said_to_be_none() {
    assert_eq!(
        render_findings(&vec![], true),
        "\n## Findings\n\n_(no findings)_\n"
    );
}

fn entries() -> Vec<DsEntry> {
    DsEntry::parse_list(&datasources())
}

fn resolved(ds_ref: Option<&str>) -> String {
    let value = ds_ref.map(json);
    match resolve_ds_ref(value.as_ref(), &entries()) {
        DsRef::Known(name) => format!("known {name}"),
        DsRef::Variable => "variable".to_string(),
        DsRef::Dead(reference) => format!("dead {reference}"),
    }
}

#[test]
fn references_are_known_variable_or_dead() {
    assert_eq!(resolved(None), "known PostgreSQL");
    assert_eq!(resolved(Some("null")), "known PostgreSQL");
    assert_eq!(resolved(Some("\"default\"")), "known PostgreSQL");
    assert_eq!(resolved(Some("\"-- Grafana --\"")), "known PostgreSQL");
    assert_eq!(resolved(Some("\"$ds\"")), "variable");
    assert_eq!(resolved(Some("\"InfluxDB\"")), "known InfluxDB");
    assert_eq!(resolved(Some("\"inf1\"")), "known InfluxDB");
    assert_eq!(resolved(Some("\"x\"")), "dead x");
    assert_eq!(resolved(Some("{\"uid\":\"${ds}\"}")), "variable");
    assert_eq!(
        resolved(Some("{\"uid\":\"stale\",\"type\":\"postgres\"}")),
        "dead stale"
    );
    assert_eq!(resolved(Some("{\"type\":\"influxdb\"}")), "known InfluxDB");
    assert_eq!(resolved(Some("{\"type\":\"loki\"}")), "dead loki");
    assert_eq!(resolved(Some("{}")), "dead (unspecified)");
    assert_eq!(resolved(Some("7")), "dead 7");
    let none = resolve_ds_ref(None, &vec![]);
    assert!(matches!(none, DsRef::Dead(s) if s == "(default, none configured)"));
}

#[test]
fn errors_are_read_by_reference_id() {
    let data = json(
        r#"{ "results": {
            "B": { "status": 404 },
            "A": { "error": "boom", "status": 500 },
            "C": { "error": "", "status": 399 },
            "D": { "error": "" , "status": 400 }
        } }"#,
    );
    let pairs = |xs: &[(&str, &str)]| -> Vec<(String, String)> {
        xs.iter()
            .map(|(a, b)| (a.to_string(), b.to_string()))
            .collect()
    };
    assert_eq!(
        result_errors(&data),
        pairs(&[("A", "boom"), ("B", "status 404"), ("D", "status 400")])
    );
    assert!(result_errors(&json("{}")).is_empty());
}

#[test]
fn rows_are_counted_over_frames() {
    let data = json(
        r#"{ "results": { "A": { "frames": [
            { "data": { "values": [[1], [1, 2, 3]] } }, {}, { "data": { "values": [7] } }
        ] }, "B": { "frames": [ { "data": { "values": [[1, 2]] } } ] } } }"#,
    );
    assert_eq!(response_row_count(&data), Some(5));
    assert_eq!(response_row_count(&json(r#"{"results":{"A":{}}}"#)), None);
    assert_eq!(response_row_count(&json("{}")), None);
    assert_eq!(
        response_row_count(&json(r#"{"results":{"A":{"frames":[{}]}}}"#)),
        Some(0)
    );
}

fn finding(severity: Severity, class: &'static str, uid: &str, panel: Option<i64>) -> Finding {
    Finding {
        severity,
        class,
        source_artifact: String::new(),
        dashboard_uid: uid.into(),
        dashboard_title: String::new(),
        panel_id: panel,
        panel_title: None,
        message: String::new(),
    }
}

#[test]
fn findings_are_sorted_by_severity_first() {
    let sorted = sort_findings(vec![
        finding(Severity::Info, "a", "a", None),
        finding(Severity::Error, "b", "b", Some(2)),
        finding(Severity::Error, "b", "b", None),
        finding(Severity::Error, "b", "a", Some(9)),
        finding(Severity::Warn, "z", "z", None),
        finding(Severity::Error, "a", "z", None),
    ]);
    let got: Vec<(&str, &str, &str, Option<i64>)> = sorted
        .iter()
        .map(|f| {
            (
                f.severity.label(),
                f.class,
                f.dashboard_uid.as_str(),
                f.panel_id,
            )
        })
        .collect();
    assert_eq!(
        got,
        vec![
            ("error", "a", "z", None),
            ("error", "b", "a", Some(9)),
            ("error", "b", "b", None),
            ("error", "b", "b", Some(2)),
            ("warn", "z", "z", None),
            ("info", "a", "a", None),
        ]
    );
}

#[test]
fn duplicates_name_the_lowest_uid() {
    let dash = |uid: &str| json(&format!(r#"{{ "uid": "{uid}", "tags": ["t"], "panels": [] }}"#));
    let artifacts = vec![
        artifact("b", dash("b"), vec![]),
        artifact("a", dash("a"), vec![]),
    ];
    let sources = pair_sources(&vec!["x".to_string()], &artifacts);
    assert_eq!(sources[0].path, "x/artifact.json");
    assert_eq!(sources[1].path, "artifact.json");
    let short = fingerprint(Some(&dash("a")))[..16].to_string();
    let found: Vec<(Severity, String, String)> = run_audit(&vec![], &sources)
        .into_iter()
        .filter(|f| f.class == "duplicate-dashboard")
        .map(|f| (f.severity, f.dashboard_uid, f.message))
        .collect();
    // A warning on the others, and a note on the first.
    assert_eq!(
        found,
        vec![
            (
                Severity::Warn,
                "b".to_string(),
                format!("duplicate of `a` (fingerprint {short})")
            ),
            (
                Severity::Info,
                "a".to_string(),
                format!(
                    "duplicate set (fingerprint {short}): 2 dashboards share this panel/query set"
                )
            ),
        ]
    );
}

#[test]
fn a_fingerprint_is_the_digest_of_the_projection() {
    let dash = json(
        r#"{ "title": "T", "templating": { "list": [ { "name": "v", "type": "query" } ] },
        "panels": [
            { "id": 1, "type": "graph", "title": "P", "datasource": "pg",
              "targets": [ { "refId": "B" }, { "refId": "A", "rawSql": "S", "expr": "E" } ] },
            { "type": "row", "id": 9 }
        ] }"#,
    );
    let projection = concat_text(&[
        r#"{"panels":[{"datasource":"pg","id":1,"targets":["#,
        r#"{"expr":"","rawSql":"","refId":"B"},{"expr":"E","rawSql":"S","refId":"A"}],"#,
        r#""title":"P","type":"graph"}],"variables":[{"name":"v","type":"query"}]}"#,
    ]);
    assert_eq!(
        fingerprint(Some(&dash)),
        blake3::hash(projection.as_bytes()).to_hex().to_string()
    );
    assert_eq!(
        fingerprint(None),
        blake3::hash(b"{\"panels\":[],\"variables\":[]}")
            .to_hex()
            .to_string()
    );
}

fn concat_text(parts: &[&str]) -> String {
    parts.iter().map(|p| p.to_string()).collect()
}

#[test]
fn a_fingerprint_ignores_order() {
    let a = json(
        r#"{ "panels": [ { "id": 1, "targets": [ { "refId": "A" }, { "refId": "B" } ] }, { "id": 2 } ],
             "templating": { "list": [ { "name": "x" }, { "name": "y" } ] } }"#,
    );
    let b = json(
        r#"{ "panels": [ { "id": 2 }, { "id": 1, "targets": [ { "refId": "B" }, { "refId": "A" } ] } ],
             "templating": { "list": [ { "name": "y" }, { "name": "x" } ] }, "title": "other" }"#,
    );
    assert_eq!(fingerprint(Some(&a)), fingerprint(Some(&b)));
    let c = json(r#"{ "panels": [ { "id": 3 } ] }"#);
    assert_ne!(fingerprint(Some(&a)), fingerprint(Some(&c)));
}

#[test]
fn a_fingerprint_tells_contents_apart() {
    let dash = |panel: &str, variable: &str| {
        let text = format!(
            r#"{{ "panels": [ {panel} ], "templating": {{ "list": [ {variable} ] }} }}"#
        );
        fingerprint(Some(&json(&text)))
    };
    let panel = r#"{ "id": 1, "type": "t", "title": "p", "datasource": "d", "targets": [ { "refId": "A" } ] }"#;
    let variable = r#"{ "name": "v", "type": "q" }"#;
    let whole = dash(panel, variable);
    for (from, to) in [
        ("\"id\": 1", "\"id\": 2"),
        ("\"type\": \"t\"", "\"type\": \"u\""),
        ("\"title\": \"p\"", "\"title\": \"q\""),
        ("\"datasource\": \"d\"", "\"datasource\": 0.5"),
        ("\"refId\": \"A\"", "\"rawSql\": \"A\""),
        ("\"refId\": \"A\"", "\"expr\": \"A\""),
        ("{ \"refId\": \"A\" }", "{ \"refId\": \"A\" }, { \"refId\": \"A\" }"),
    ] {
        let other = panel.replace(from, to);
        assert_ne!(other, panel, "{from}");
        assert_ne!(dash(&other, variable), whole, "{to}");
    }
    for other in [r#"{ "name": "w", "type": "q" }"#, r#"{ "name": "v", "type": "r" }"#, ""] {
        assert_ne!(dash(panel, other), whole, "{other}");
    }
    // What else a panel or a variable holds does not show.
    let more = panel.replace("\"id\": 1", "\"id\": 1, \"gridPos\": { \"x\": 3 }");
    assert_eq!(dash(&more, r#"{ "name": "v", "type": "q", "hide": 2 }"#), whole);
}

#[test]
fn the_first_of_duplicates_with_one_uid_is_noted() {
    let dash = || json(r#"{ "uid": "a", "tags": ["t"], "panels": [] }"#);
    let artifacts = vec![
        artifact("a", dash(), vec![]),
        artifact("a", dash(), vec![]),
    ];
    let sources = pair_sources(&vec!["x".to_string(), "y".to_string()], &artifacts);
    let found: Vec<(Severity, bool)> = run_audit(&vec![], &sources)
        .into_iter()
        .filter(|f| f.class == "duplicate-dashboard")
        .map(|f| (f.severity, f.message.starts_with("duplicate of `a` ")))
        .collect();
    assert_eq!(found, vec![(Severity::Warn, true), (Severity::Info, false)]);
}

#[test]
fn severities_are_ordered() {
    assert!(Severity::Error < Severity::Warn && Severity::Warn < Severity::Info);
    let one = finding(Severity::Warn, "c", "u", None);
    assert_eq!(one.clone(), one);
    assert_ne!(one, finding(Severity::Info, "c", "u", None));
}
