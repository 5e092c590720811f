//! What the command line decides and prints.

use ncrawler::artifact::{Artifact, BuildOutput, Item, ItemKind};
use ncrawler::cli::{
    build_options, built, entry_line, flag_value, listing, scrape_line, select_builder, show,
    BuilderKind,
};
use ncrawler::error::{BuildError, ScrapeError};
use ncrawler::store::ListEntry;
use ncrawler::time::Timestamp;

fn args(items: &[&str]) -> Vec<String> {
    items.iter().map(|s| s.to_string()).collect()
}

#[test]
fn a_flag_is_followed_by_its_value() {
    let rest = args(&["--x", "--model", "opus", "--model", "haiku"]);
    assert_eq!(flag_value(&rest, "--model").as_deref(), Some("opus"));
    assert_eq!(flag_value(&rest, "--x").as_deref(), Some("--model"));
    assert_eq!(flag_value(&rest, "haiku"), None);
    assert_eq!(flag_value(&rest, "--y"), None);
    assert_eq!(flag_value(&vec![], "--model"), None);
}

#[test]
fn build_options_name_the_model() {
    let options = build_options(&args(&["--model", "opus"]));
    assert_eq!(options.get("model").unwrap().as_str(), Some("opus"));
    assert_eq!(options.to_text(), "{\"model\":\"opus\"}");
    assert_eq!(build_options(&args(&["--model"])).to_text(), "{}");
}

#[test]
fn build_options_turn_masking_off() {
    let options = build_options(&args(&["--no-redact", "--model", "opus"]));
    assert_eq!(options.to_text(), "{\"model\":\"opus\",\"redact\":false}");
    assert_eq!(
        build_options(&args(&["--no-redact"])).to_text(),
        "{\"redact\":false}"
    );
}

#[test]
fn builders_are_found_by_name() {
    assert_eq!(select_builder("report-md"), Ok(BuilderKind::ReportMd));
    assert_eq!(select_builder("report-ai"), Ok(BuilderKind::ReportAi));
    assert_eq!(
        select_builder("vector"),
        Err("build: unknown builder `vector` (expected report-md | report-ai)".to_string())
    );
}

#[test]
fn scraping_is_announced() {
    assert_eq!(
        scrape_line("grafana", "./artifacts"),
        "scrape: source `grafana` is not yet implemented (out: ./artifacts)"
    );
}

fn entry(source: &str) -> ListEntry {
    ListEntry {
        dir: "d".into(),
        fetched_at: Timestamp::new(1_780_064_521, 5).unwrap(),
        source: source.into(),
        target: "abc".into(),
    }
}

#[test]
fn a_listing_is_padded() {
    assert_eq!(
        entry_line(&entry("grafana")),
        "2026-05-29T14:22:01Z  grafana     abc"
    );
    assert_eq!(
        entry_line(&entry("a-long-source")),
        "2026-05-29T14:22:01Z  a-long-source  abc"
    );
    // Padding counts characters.
    assert_eq!(
        entry_line(&entry("\u{e9}")),
        format!("2026-05-29T14:22:01Z  {:<10}  abc", "\u{e9}")
    );
    assert_eq!(listing(&vec![]), "no artifacts found\n");
    assert_eq!(
        listing(&vec![entry("grafana"), entry("x")]),
        "2026-05-29T14:22:01Z  grafana     abc\n2026-05-29T14:22:01Z  x           abc\n"
    );
}

#[test]
fn an_artifact_is_shown_line_by_line() {
    let mut a = Artifact::new("grafana", "abc", Timestamp::new(1_780_064_521, 0).unwrap());
    let item = |id: &str, kind: ItemKind, title: Option<&str>| Item {
        id: id.into(),
        kind,
        title: title.map(Into::into),
        text: String::new(),
        data: None,
        tags: vec![],
    };
    a.items = vec![
        item("p1", ItemKind::Panel, Some("CPU")),
        item("r1", ItemKind::ApiResponse, None),
    ];
    assert_eq!(
        show(&a),
        "source:        grafana\n\
         target:        abc\n\
         fetched_at:    2026-05-29T14:22:01+00:00\n\
         schema:        v1\n\
         items:         2\n\
         assets:        0\n  - [Panel] p1 CPU\n  - [ApiResponse] r1 \n"
    );
}

#[test]
fn item_kinds_have_their_names() {
    for kind in [
        ItemKind::Panel,
        ItemKind::Page,
        ItemKind::ApiResponse,
        ItemKind::Annotation,
        ItemKind::Alert,
        ItemKind::Log,
    ] {
        assert_eq!(kind.name(), format!("{kind:?}"));
    }
}

#[test]
fn a_build_names_its_files() {
    let output = BuildOutput {
        files: args(&["a.md", "b.jsonl"]),
        summary: "done".into(),
    };
    assert_eq!(built(&output), "done\n  wrote a.md\n  wrote b.jsonl\n");
}

#[test]
fn errors_have_messages() {
    let build = [
        (BuildError::Io("x".into()), "io error: x"),
        (
            BuildError::MissingSkill("x".into()),
            "no skill resolved for this artifact: x",
        ),
        (BuildError::Ai("x".into()), "ai runner error: x"),
        (BuildError::Cancelled, "build cancelled"),
        (BuildError::Other("x".into()), "x"),
    ];
    for (error, message) in build {
        assert_eq!(error.message(), message);
    }
    let scrape = [
        (ScrapeError::Network("x".into()), "network error: x"),
        (ScrapeError::Auth("x".into()), "authentication failed: x"),
        (ScrapeError::NotFound("x".into()), "target not found: x"),
        (
            ScrapeError::RendererPluginMissing,
            "grafana renderer plugin missing; install grafana-image-renderer or pass \
             --visual-fallback chrome",
        ),
        (
            ScrapeError::SsrfBlocked("x".into()),
            "host blocked by SSRF allow-list: x",
        ),
        (
            ScrapeError::ModeUnsupported("x".into()),
            "scrape mode unsupported: x",
        ),
        (ScrapeError::Cancelled, "scrape cancelled"),
        (ScrapeError::Other("x".into()), "x"),
    ];
    for (error, message) in scrape {
        assert_eq!(error.message(), message);
    }
}
