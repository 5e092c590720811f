//! The Markdown report.

use ncrawler::artifact::{Artifact, Asset, Item, ItemKind};
use ncrawler::error::BuildError;
use ncrawler::json::{Json, JsonMap, Num};
use ncrawler::report_md::{redacts, render, MarkdownBuilder, REPORT_FILENAME};
use ncrawler::time::Timestamp;

fn midnight() -> Timestamp {
    // 2026-05-29T00:00:00Z
    Timestamp::new(1_780_012_800, 0).unwrap()
}

/// Two assets with the same label must still attach to the correct item via
/// `item_id`.
#[test]
fn assets_match_by_item_id_not_label() {
    let item = |id: &str| Item {
        id: id.to_owned(),
        kind: ItemKind::Panel,
        title: Some(id.to_owned()),
        text: id.to_owned(),
        data: None,
        tags: vec![],
    };
    let asset = |item_id: &str, path: &str| Asset {
        path: path.into(),
        mime: "image/png".to_owned(),
        // Identical label on purpose.
        label: "screenshot".to_owned(),
        item_id: Some(item_id.to_owned()),
    };
    let mut artifact = Artifact::new("grafana", "abc", midnight());
    artifact.items = vec![item("panel-1"), item("panel-2")];
    artifact.assets = vec![
        asset("panel-2", "assets/p2.png"),
        asset("panel-1", "assets/p1.png"),
    ];

    let md = render(&artifact);
    let p1_section = md.split("## panel-1").nth(1).unwrap();
    let p1_body = p1_section.split("## panel-2").next().unwrap();
    assert!(p1_body.contains("assets/p1.png"), "panel-1 -> p1.png");
    assert!(
        !p1_body.contains("assets/p2.png"),
        "panel-1 must not get p2"
    );

    let p2_body = md.split("## panel-2").nth(1).unwrap();
    assert!(p2_body.contains("assets/p2.png"), "panel-2 -> p2.png");
}

fn sample() -> Artifact {
    let mut data = JsonMap::new();
    data.insert("z".to_owned(), Json::Null);
    data.insert("a".to_owned(), Json::Number(Num::Unsigned(97)));
    let mut artifact = Artifact::new("grafana", "abc", midnight());
    artifact.items = vec![
        Item {
            id: "panel-1".to_owned(),
            kind: ItemKind::Panel,
            title: Some("CPU".to_owned()),
            text: "unused".to_owned(),
            data: Some(Json::Object(data)),
            tags: vec!["cpu".to_owned(), "hot".to_owned()],
        },
        Item {
            id: "panel-2".to_owned(),
            kind: ItemKind::Page,
            title: None,
            text: String::new(),
            data: None,
            tags: vec![],
        },
    ];
    artifact.assets = vec![
        Asset {
            path: "assets/p.png".to_owned(),
            mime: "image/png".to_owned(),
            label: "shot".to_owned(),
            item_id: Some("panel-1".to_owned()),
        },
        Asset {
            path: "assets/all.png".to_owned(),
            mime: "image/png".to_owned(),
            label: "panel-2".to_owned(),
            item_id: None,
        },
    ];
    artifact
}

#[test]
fn a_report_reads_as_expected() {
    let expected = "# grafana \u{2014} abc\n\n_fetched_at: 2026-05-29T00:00:00Z_\n\n\
        ## CPU\n\n- id: `panel-1`\n- tags: `cpu`, `hot`\n\n\
        ```json\n{\n  \"a\": 97,\n  \"z\": null\n}\n```\n\n![shot](assets/p.png)\n\n\
        ## panel-2\n\n- id: `panel-2`\n";
    assert_eq!(render(&sample()), expected);
}

#[test]
fn a_build_reports_its_file() {
    let builder = MarkdownBuilder::new();
    assert_eq!(builder.name(), "report-md");
    let (markdown, output) = builder.build(&sample(), &Json::Null, false).unwrap();
    assert_eq!(markdown, render(&sample()));
    assert_eq!(output.files, vec![REPORT_FILENAME.to_owned()]);
    assert_eq!(output.summary, "rendered 2 item(s) to report.md");
}

#[test]
fn a_cancelled_build_renders_nothing() {
    let built = MarkdownBuilder::default().build(&sample(), &Json::Null, true);
    assert!(matches!(built, Err(BuildError::Cancelled)));
}

const KEY: &str = "deadbeefdeadbeefdeadbeefdeadbeef";

fn leaky() -> Artifact {
    let mut artifact = sample();
    artifact.items[0].title = Some(KEY.to_owned());
    artifact
}

#[test]
fn a_build_masks_secrets() {
    let (markdown, _) = MarkdownBuilder::new()
        .build(&leaky(), &Json::Null, false)
        .unwrap();
    assert!(markdown.contains("## ***REDACTED***\n"), "{markdown}");
    assert!(!markdown.contains(KEY));
}

#[test]
fn masking_can_be_turned_off() {
    let option = |value: Json| {
        let mut options = JsonMap::new();
        options.insert("redact".to_owned(), value);
        Json::Object(options)
    };
    let off = option(Json::Bool(false));
    assert!(!redacts(&off));
    let (markdown, _) = MarkdownBuilder::new().build(&leaky(), &off, false).unwrap();
    assert_eq!(markdown, render(&leaky()));
    assert!(markdown.contains(&format!("## {KEY}\n")));
    for on in [Json::Null, option(Json::Bool(true)), option(Json::Text("no".to_owned()))] {
        assert!(redacts(&on));
    }
}
