//! Layout of the on-disk store.

use ncrawler::artifact::{Artifact, Asset, Item, ItemKind, ARTIFACT_SCHEMA_VERSION};
use ncrawler::error::StoreError;
use ncrawler::json::{Json, JsonMap, Num};
use ncrawler::sidecar::{FactsOrigin, InstanceSidecar, INSTANCE_SCHEMA_VERSION};
use ncrawler::store::{
    artifact_file, dir_name, parse_dir_name, read_artifact, safe, ArtifactStore, FactsStep,
    FileRead, RootEntry, RootRead,
};
use ncrawler::time::Timestamp;

fn ts(year: i32, month: u32, day: u32, hour: u32, minute: u32, second: u32) -> Timestamp {
    let t = chrono::NaiveDate::from_ymd_opt(year, month, day)
        .unwrap()
        .and_hms_opt(hour, minute, second)
        .unwrap()
        .and_utc();
    Timestamp::new(t.timestamp(), t.timestamp_subsec_nanos()).unwrap()
}

fn now() -> Timestamp {
    let t = chrono::Utc::now();
    Timestamp::new(t.timestamp(), t.timestamp_subsec_nanos()).unwrap()
}

fn object(members: Vec<(&str, Json)>) -> Json {
    let mut map = JsonMap::new();
    for (key, value) in members {
        map.insert(key.to_string(), value);
    }
    Json::Object(map)
}

fn sample() -> Artifact {
    let mut a = Artifact::new("grafana", "abc123", ts(2026, 5, 29, 14, 22, 1));
    a.items.push(Item {
        id: "panel-2".into(),
        kind: ItemKind::Panel,
        title: Some("CPU".into()),
        text: "cpu graph".into(),
        data: Some(object(vec![("v", Json::Number(Num::Unsigned(1)))])),
        tags: vec!["cpu".into()],
    });
    a.assets.push(Asset {
        path: "assets/panel-2.png".into(),
        mime: "image/png".into(),
        label: "CPU".into(),
        item_id: Some("panel-2".into()),
    });
    a
}

/// The last segment of a path.
fn last_segment(path: &str) -> String {
    path.rsplit('/').next().unwrap().to_string()
}

#[test]
fn dir_name_is_the_index() {
    let t = ts(2026, 5, 29, 14, 22, 1);
    assert_eq!(
        dir_name(t, "grafana", "abc123"),
        "2026-05-29T14-22-01Z__grafana__abc123"
    );
}

#[test]
fn safe_sanitises_targets() {
    assert_eq!(safe("https://x.io/d/uid?a=1"), "https---x.io-d-uid-a-1");
    assert_eq!(safe(""), "-");
}

#[test]
fn safe_keeps_a_safe_segment() {
    for s in ["a.b_c-9", "https://x.io", "\u{e9}", "..", ""] {
        let once = safe(s);
        assert!(!once.is_empty() && !once.contains('/'));
        assert_eq!(safe(&once), once);
    }
}

/// The directories of a root.
fn dirs(names: &[String]) -> RootRead {
    RootRead::Entries(
        names
            .iter()
            .map(|name| RootEntry { name: name.clone(), is_dir: true })
            .collect(),
    )
}

fn texts(items: &[String]) -> Json {
    Json::Array(items.iter().map(|s| Json::Text(s.clone())).collect())
}

fn opt(text: &Option<String>) -> Json {
    match text {
        Some(s) => Json::Text(s.clone()),
        None => Json::Null,
    }
}

/// An artifact as JSON text.
fn encode(a: &Artifact) -> String {
    let items = a.items.iter().map(|it| {
        object(vec![
            ("id", Json::Text(it.id.clone())),
            ("kind", Json::Text(it.kind.name().to_string())),
            ("title", opt(&it.title)),
            ("text", Json::Text(it.text.clone())),
            ("data", it.data.clone().unwrap_or(Json::Null)),
            ("tags", texts(&it.tags)),
        ])
    });
    let assets = a.assets.iter().map(|asset| {
        object(vec![
            ("path", Json::Text(asset.path.clone())),
            ("mime", Json::Text(asset.mime.clone())),
            ("label", Json::Text(asset.label.clone())),
            ("item_id", opt(&asset.item_id)),
        ])
    });
    object(vec![
        ("schema_version", Json::Number(Num::Unsigned(a.schema_version as u64))),
        ("source", Json::Text(a.source.clone())),
        ("target", Json::Text(a.target.clone())),
        ("secs", Json::Number(Num::Signed(a.fetched_at.secs()))),
        ("meta", a.meta.clone()),
        ("items", Json::Array(items.collect())),
        ("assets", Json::Array(assets.collect())),
    ])
    .to_text()
}

fn convert(v: &serde_json::Value) -> Json {
    match v {
        serde_json::Value::Null => Json::Null,
        serde_json::Value::Bool(b) => Json::Bool(*b),
        serde_json::Value::Number(n) => Json::Number(Num::from_number(n.clone())),
        serde_json::Value::String(s) => Json::Text(s.clone()),
        serde_json::Value::Array(xs) => Json::Array(xs.iter().map(convert).collect()),
        serde_json::Value::Object(m) => {
            let mut map = JsonMap::new();
            for (k, v) in m {
                map.insert(k.clone(), convert(v));
            }
            Json::Object(map)
        }
    }
}

/// The artifact that a JSON text tells.
fn decode(text: &str) -> Artifact {
    let v: serde_json::Value = serde_json::from_str(text).unwrap();
    let own = |v: &serde_json::Value| v.as_str().unwrap().to_string();
    let own_opt = |v: &serde_json::Value| v.as_str().map(str::to_string);
    let fetched_at = Timestamp::new(v["secs"].as_i64().unwrap(), 0).unwrap();
    let mut a = Artifact::new(&own(&v["source"]), &own(&v["target"]), fetched_at);
    a.schema_version = v["schema_version"].as_u64().unwrap() as u32;
    a.meta = convert(&v["meta"]);
    for it in v["items"].as_array().unwrap() {
        a.items.push(Item {
            id: own(&it["id"]),
            kind: match it["kind"].as_str().unwrap() {
                "Panel" => ItemKind::Panel,
                other => panic!("{other}"),
            },
            title: own_opt(&it["title"]),
            text: own(&it["text"]),
            data: Some(convert(&it["data"])),
            tags: it["tags"].as_array().unwrap().iter().map(own).collect(),
        });
    }
    for asset in v["assets"].as_array().unwrap() {
        a.assets.push(Asset {
            path: own(&asset["path"]),
            mime: own(&asset["mime"]),
            label: own(&asset["label"]),
            item_id: own_opt(&asset["item_id"]),
        });
    }
    a
}

/// Where a relative link leads to from where it stands.
fn follow(link: &str, target: &str) -> String {
    let mut parts: Vec<&str> = link.split('/').collect();
    parts.pop();
    for part in target.split('/') {
        match part {
            ".." => {
                parts.pop();
            }
            part => parts.push(part),
        }
    }
    parts.join("/")
}

/// Reads the file of an artifact directory among `files`.
fn open(files: &[(String, String)], dir: &str) -> FileRead<Artifact> {
    let path = artifact_file(dir);
    match files.iter().find(|f| f.0 == path) {
        Some(f) => FileRead::Parsed(decode(&f.1)),
        None => FileRead::Missing,
    }
}

#[test]
fn write_read_round_trip() {
    let store = ArtifactStore::new("artifacts");
    let a = sample();
    let plan = store.write(&a);
    let files = vec![(plan.file.clone(), encode(&a))];

    let back = store.read(&plan.dir, open(&files, &plan.dir)).unwrap();
    assert_eq!(back.source, "grafana");
    assert_eq!(back.items.len(), 1);
    assert_eq!(back.assets[0].item_id.as_deref(), Some("panel-2"));
    assert_eq!(plan.assets_dir, Some(format!("{}/assets", plan.dir)));
    assert_eq!(encode(&back), encode(&a));

    // The latest link leads to the same artifact.
    let latest = follow(&plan.link, &plan.link_target);
    assert_eq!(latest, plan.dir);
    assert!(store.read(&latest, open(&files, &latest)).is_ok());

    // Another directory holds none.
    assert!(matches!(
        store.read("artifacts/other", open(&files, "artifacts/other")),
        Err(StoreError::NotAnArtifact(_))
    ));
}

#[test]
fn latest_symlink_points_at_newest() {
    let store = ArtifactStore::new("artifacts");
    let mut older = sample();
    older.fetched_at = ts(2026, 5, 29, 10, 0, 0);
    let older_plan = store.write(&older);
    let mut newer = sample();
    newer.fetched_at = ts(2026, 5, 29, 14, 0, 0);
    let newer_plan = store.write(&newer);
    let files = vec![
        (older_plan.file.clone(), encode(&older)),
        (newer_plan.file.clone(), encode(&newer)),
    ];

    let link = store.latest_link("grafana", "abc123");
    assert_eq!(newer_plan.link, link);
    let resolved = follow(&link, &newer_plan.link_target);
    assert_eq!(resolved, newer_plan.dir);
    let latest = store.read(&resolved, open(&files, &resolved)).unwrap();
    assert_eq!(latest.target, "abc123");
    assert_eq!(latest.fetched_at, newer.fetched_at);

    // The earlier one stays in its own directory, and both are listed.
    let earlier = store
        .read(&older_plan.dir, open(&files, &older_plan.dir))
        .unwrap();
    assert_eq!(earlier.fetched_at, older.fetched_at);
    let names = vec![last_segment(&older_plan.dir), last_segment(&newer_plan.dir)];
    assert_eq!(store.list(dirs(&names), None, None).unwrap().len(), 2);
}

#[test]
fn list_filters_by_source_and_since() {
    let store = ArtifactStore::new("artifacts");

    let mut g = sample();
    g.fetched_at = now();
    let mut old = sample();
    old.source = "spider".into();
    old.target = "x".into();
    old.fetched_at = ts(2000, 1, 1, 0, 0, 0);
    let names = vec![
        last_segment(&store.write(&old).dir),
        last_segment(&store.write(&g).dir),
        "latest".to_string(),
        "not an artifact".to_string(),
    ];

    let all = store.list(dirs(&names), None, None).unwrap();
    assert_eq!(all.len(), 2);
    // newest first
    assert_eq!(all[0].source, "grafana");

    let just_grafana = store.list(dirs(&names), Some("grafana"), None).unwrap();
    assert_eq!(just_grafana.len(), 1);

    let cutoff = now().earlier_by(3600);
    let recent = store.list(dirs(&names), None, cutoff).unwrap();
    assert_eq!(recent.len(), 1);
    assert_eq!(recent[0].source, "grafana");
}

#[test]
fn list_on_empty_store_is_empty() {
    let store = ArtifactStore::new("does-not-exist");
    assert!(store.list(RootRead::Missing, None, None).unwrap().is_empty());
}

#[test]
fn only_directories_are_listed() {
    let store = ArtifactStore::new("root");
    let entry = |name: &str, is_dir: bool| RootEntry { name: name.to_string(), is_dir };
    let found = RootRead::Entries(vec![
        entry("2026-05-29T14-22-01Z__grafana__abc", false),
        entry("2026-05-29T14-22-02Z__grafana__abc", true),
    ]);
    let listed = store.list(found, None, None).unwrap();
    assert_eq!(listed.len(), 1);
    assert_eq!(listed[0].dir, "root/2026-05-29T14-22-02Z__grafana__abc");
    assert!(matches!(
        store.list(RootRead::Failed("denied".into()), None, None),
        Err(StoreError::Io(e)) if e == "denied"
    ));
}

#[test]
fn rejects_unknown_major_schema() {
    let store = ArtifactStore::new("artifacts");
    let mut a = sample();
    let adir = store.write(&a).dir;
    a.schema_version = 999;

    match store.read(&adir, FileRead::Parsed(a)) {
        Err(StoreError::UnsupportedSchema { found, .. }) => assert_eq!(found, 999),
        other => panic!("expected UnsupportedSchema, got {}", other.is_ok()),
    }
}

#[test]
fn a_listing_reads_its_directory_names_back() {
    let t = ts(2026, 5, 29, 14, 22, 1);
    let name = dir_name(t, "grafana", "https://x.io/d?a=1");
    let e = parse_dir_name(&name, "root/dir").unwrap();
    assert_eq!(e.dir, "root/dir");
    assert_eq!(e.fetched_at, t);
    assert_eq!(e.source, "grafana");
    assert_eq!(e.target, "https---x.io-d-a-1");
    // A target may hold the separator itself.
    let e = parse_dir_name("2026-05-29T14-22-01Z__grafana__a__b", "d").unwrap();
    assert_eq!(e.target, "a__b");
}

#[test]
fn what_is_written_is_listed() {
    let store = ArtifactStore::new("root");
    let a = sample();
    let plan = store.write(&a);
    let names = vec![last_segment(&plan.dir), "stray".to_string()];
    let listed = store
        .list(dirs(&names), Some("grafana"), Some(a.fetched_at))
        .unwrap();
    assert_eq!(listed.len(), 1);
    assert_eq!(listed[0].dir, plan.dir);
    assert_eq!(listed[0].fetched_at, a.fetched_at);
    assert_eq!(
        (listed[0].source.as_str(), listed[0].target.as_str()),
        ("grafana", "abc123")
    );
    // A second later is too late.
    let later = Timestamp::new(a.fetched_at.secs() + 1, 0);
    assert!(store.list(dirs(&names), None, later).unwrap().is_empty());
}

#[test]
fn other_directory_names_are_no_entries() {
    for name in [
        "latest",
        "",
        "2026-05-29T14-22-01Z__grafana",
        "2026-05-29__grafana__abc",
        "2026-13-29T14-22-01Z__grafana__abc",
    ] {
        assert!(parse_dir_name(name, "d").is_none(), "{name}");
    }
}

#[test]
fn a_write_is_laid_out() {
    let store = ArtifactStore::new("root");
    assert_eq!(store.root(), "root");
    let plan = store.write(&sample());
    assert_eq!(plan.dir, "root/2026-05-29T14-22-01Z__grafana__abc123");
    assert_eq!(
        plan.assets_dir.as_deref(),
        Some("root/2026-05-29T14-22-01Z__grafana__abc123/assets")
    );
    assert_eq!(
        plan.file,
        "root/2026-05-29T14-22-01Z__grafana__abc123/artifact.json"
    );
    assert_eq!(plan.link, store.latest_link("grafana", "abc123"));
    // The link leads to the new directory, from where the link is.
    let up: usize = plan.link.matches('/').count() - 1;
    assert_eq!(
        plan.link_target,
        format!("{}2026-05-29T14-22-01Z__grafana__abc123", "../".repeat(up))
    );
}

#[test]
fn a_sidecar_is_laid_out() {
    let store = ArtifactStore::new("root");
    let sidecar = InstanceSidecar::new("graf.io", ts(2026, 5, 29, 14, 22, 1));
    let plan = store.write_instance("grafana", &sidecar);
    assert!(plan.dir.starts_with("root/"));
    assert!(plan.file.ends_with("/instance.json"));
    assert_eq!(plan.link, store.instance_latest_link("grafana", "graf.io"));
    assert_eq!(
        store.instance_file("grafana", "graf.io"),
        format!("{}/instance.json", plan.link)
    );
}

#[test]
fn a_written_sidecar_is_read_back() {
    let store = ArtifactStore::new("root");
    let mut older = InstanceSidecar::new("graf.io", ts(2026, 5, 29, 10, 0, 0));
    older.search = Json::Text("old".into());
    let mut newer = InstanceSidecar::new("graf.io", ts(2026, 5, 29, 14, 0, 0));
    newer.search = Json::Text("new".into());
    let first = store.write_instance("grafana", &older);
    let second = store.write_instance("grafana", &newer);
    assert!(first.dir != second.dir && first.link == second.link);

    // The link leads to the directory of the sidecar that was written last.
    assert_eq!(follow(&second.link, &second.link_target), second.dir);
    let file = store.instance_file("grafana", "graf.io");
    assert_eq!(file, format!("{}/instance.json", second.link));
    assert_eq!(
        file.replace(&second.link, &follow(&second.link, &second.link_target)),
        second.file
    );
    let files = [(first.file.clone(), older), (second.file.clone(), newer)];
    let opened = |path: &str| match files.iter().find(|f| f.0 == path) {
        Some(f) => FileRead::Parsed(f.1.clone()),
        None => FileRead::Missing,
    };
    let latest = store.read_instance_sidecar(opened(&second.file)).unwrap().unwrap();
    assert_eq!(latest.search.as_str(), Some("new"));
    let earlier = store.read_instance_sidecar(opened(&first.file)).unwrap().unwrap();
    assert_eq!(earlier.search.as_str(), Some("old"));
}

#[test]
fn reading_reports_each_failure() {
    let store = ArtifactStore::new("root");
    assert!(matches!(
        store.read("d", FileRead::Missing),
        Err(StoreError::NotAnArtifact(d)) if d == "d"
    ));
    assert!(matches!(
        read_artifact("d", FileRead::Failed("denied".into())),
        Err(StoreError::Io(e)) if e == "denied"
    ));
    assert!(matches!(
        read_artifact("d", FileRead::Malformed("eof".into())),
        Err(StoreError::Json(e)) if e == "eof"
    ));
    assert_eq!(
        read_artifact("d", FileRead::Parsed(sample())).unwrap().schema_version,
        ARTIFACT_SCHEMA_VERSION
    );
}

#[test]
fn reading_a_sidecar_reports_each_failure() {
    let store = ArtifactStore::new("root");
    assert!(store.read_instance_sidecar(FileRead::Missing).unwrap().is_none());
    assert!(matches!(
        store.read_instance_sidecar(FileRead::Failed("denied".into())),
        Err(StoreError::Io(_))
    ));
    assert!(matches!(
        store.read_instance_sidecar(FileRead::Malformed("eof".into())),
        Err(StoreError::Json(_))
    ));
    let mut sidecar = InstanceSidecar::new("h", ts(2026, 5, 29, 14, 22, 1));
    sidecar.schema_version = INSTANCE_SCHEMA_VERSION + 1;
    assert!(matches!(
        store.read_instance_sidecar(FileRead::Parsed(sidecar)),
        Err(StoreError::UnsupportedInstanceSchema { found: 2, supported: 1 })
    ));
}

#[test]
fn facts_come_from_the_sidecar_first() {
    let store = ArtifactStore::new("root");
    let mut sidecar = InstanceSidecar::new("h", ts(2026, 5, 29, 14, 22, 1));
    sidecar.search = Json::Text("inventory".into());
    match store.read_instance_facts("grafana", "h", "uid", Ok(Some(sidecar))) {
        FactsStep::Done(Ok(facts)) => {
            assert_eq!(facts.host, "h");
            assert_eq!(facts.search.as_str(), Some("inventory"));
            assert!(matches!(
                facts.origin,
                FactsOrigin::Sidecar(p) if p == store.instance_file("grafana", "h")
            ));
        }
        _ => panic!("expected facts"),
    }
    assert!(matches!(
        store.read_instance_facts("grafana", "h", "uid", Err(StoreError::Io("x".into()))),
        FactsStep::Done(Err(StoreError::Io(_)))
    ));
}

#[test]
fn facts_fall_back_to_a_legacy_artifact() {
    let store = ArtifactStore::new("root");
    match store.read_instance_facts("grafana", "h", "uid", Ok(None)) {
        FactsStep::ReadLegacy(dir) => assert_eq!(dir, store.latest_link("grafana", "uid")),
        _ => panic!("expected a legacy read"),
    }
    // No legacy artifact, or one without an inventory: no facts.
    assert!(matches!(
        store.read_legacy_facts(
            "grafana",
            "h",
            "uid",
            Err(StoreError::NotAnArtifact("d".into()))
        ),
        Err(StoreError::InstanceFactsUnavailable { host, uid }) if host == "h" && uid == "uid"
    ));
    let mut a = sample();
    assert!(matches!(
        store.read_legacy_facts("grafana", "h", "uid", Ok(a)),
        Err(StoreError::InstanceFactsUnavailable { .. })
    ));
    a = sample();
    a.meta = object(vec![
        ("search", Json::Array(vec![Json::Text("row".into())])),
        ("datasources", Json::Array(vec![])),
    ]);
    let facts = store.read_legacy_facts("grafana", "h", "uid", Ok(a)).unwrap();
    assert_eq!(facts.search.as_array().unwrap().len(), 1);
    assert!(matches!(facts.origin, FactsOrigin::LegacyMeta(_)));
}

#[test]
fn store_errors_have_messages() {
    let cases = [
        (StoreError::Io("disk".into()), "io error: disk"),
        (StoreError::Json("eof".into()), "json error: eof"),
        (
            StoreError::UnsupportedSchema { found: 999, supported: 1 },
            "unsupported artifact schema version 999; this build supports up to 1",
        ),
        (
            StoreError::UnsupportedInstanceSchema { found: 20, supported: 1 },
            "unsupported instance sidecar schema version 20; this build supports up to 1",
        ),
        (
            StoreError::InstanceFactsUnavailable { host: "h".into(), uid: "u".into() },
            "no instance facts for host `h`: no sidecar and no legacy artifact for uid `u`",
        ),
        (
            StoreError::NotAnArtifact("dir".into()),
            "not an artifact directory (missing artifact.json): dir",
        ),
        (
            StoreError::BadDirName("x".into()),
            "malformed artifact directory name: x",
        ),
        (
            StoreError::BadSince("12w".into()),
            "invalid --since duration: 12w",
        ),
    ];
    for (error, message) in cases {
        assert_eq!(error.message(), message);
    }
}
