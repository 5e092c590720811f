//! The AI report pipeline.

use ncrawler::ai::{
    artifact_tags, assistant_text, build_input, build_output, event_log, finish_pipeline,
    model_override, selected_skill, selection_failed, selector_input, start_pipeline, ResolvedSkill,
    RunOutcome, Transcript, EVENT_LOG_FILENAME, REPORT_AI_FILENAME,
};
use ncrawler::artifact::{Artifact, BuildOutput, Item, ItemKind};
use ncrawler::error::BuildError;
use ncrawler::json::{Json, JsonMap, Num};
use ncrawler::report_md::render;
use ncrawler::time::Timestamp;

fn grafana_artifact() -> Artifact {
    let mut data = JsonMap::new();
    data.insert("value".into(), Json::Number(Num::Unsigned(97)));
    let mut a = Artifact::new("grafana", "abc123", Timestamp::new(0, 0).unwrap());
    a.items.push(Item {
        id: "panel-2".into(),
        kind: ItemKind::Panel,
        title: Some("CPU".into()),
        text: "cpu".into(),
        data: Some(Json::Object(data)),
        tags: vec!["cpu".into(), "saturation".into()],
    });
    a
}

/// An event of a scripted run: its text, if it is a text event, and its printed
/// form.
struct Event {
    content: Option<String>,
    line: String,
}

fn text_event(content: &str) -> Event {
    let value = serde_json::Value::String(content.to_string());
    Event {
        content: Some(content.to_string()),
        line: value.to_string(),
    }
}

fn other_event(name: &str) -> Event {
    Event {
        content: None,
        line: serde_json::Value::String(name.to_string()).to_string(),
    }
}

/// What a scripted build leaves: the report, the log, what the build reports,
/// and the system prompt that the runner saw.
struct Built {
    report: String,
    log: String,
    output: BuildOutput,
    seen_system_prompt: String,
}

/// A build with a runner that emits `events` and returns their text.
fn build(
    artifact: &Artifact,
    events: &[Event],
    skill: Option<ResolvedSkill>,
    cancelled: bool,
) -> Result<Built, BuildError> {
    let (prompt, tags) = start_pipeline(artifact, cancelled)?;
    let model = model_override(&Json::Null, &None);
    let input = build_input(prompt, &artifact.source, &tags, &skill, model)?;
    let mut transcript = Transcript::new();
    let mut text = String::new();
    for e in events {
        if let Some(c) = &e.content {
            text.push_str(c);
        }
        transcript.record(e.content.as_deref(), Some(e.line.clone()));
    }
    let outcome = RunOutcome::Ended { text, error: None };
    let (files, out) = finish_pipeline(skill.unwrap(), outcome, transcript)?;
    Ok(Built {
        report: files.report,
        log: files.log,
        output: build_output(out),
        seen_system_prompt: input.system_prompt,
    })
}

fn triage(system_prompt: &str) -> ResolvedSkill {
    ResolvedSkill {
        skill_id: "ncrawler.skills.grafana-triage".into(),
        system_prompt: system_prompt.into(),
        content_hash: "0".repeat(64),
    }
}

#[test]
fn a_run_keeps_its_input_out_of_its_files() {
    let artifact = grafana_artifact();

    // A scripted stream: connect, two text chunks, done. The system prompt
    // carries a (fake) secret marker that must not land in the events or logs.
    let secret_marker = "SUPER_SECRET_TOKEN_should_not_leak";
    let events = [
        other_event("connected"),
        text_event("status: "),
        text_event("degraded"),
        other_event("done"),
    ];
    let skill = triage(&format!("triage. {secret_marker}"));
    let built = build(&artifact, &events, Some(skill), false).expect("build");

    assert_eq!(built.output.files.len(), 2);
    assert_eq!(built.report, "status: degraded");

    let lines: Vec<&str> = built.log.lines().collect();
    assert_eq!(lines.len(), 4, "one JSON object per streamed event");
    for l in &lines {
        let _: serde_json::Value = serde_json::from_str(l).expect("event roundtrips");
    }

    assert!(
        !built.log.contains(secret_marker),
        "secret leaked into event log"
    );
    assert!(
        !built.report.contains(secret_marker),
        "secret leaked into report"
    );
    // ...and it really was handed to the runner.
    assert_eq!(
        built.seen_system_prompt,
        format!("triage. {secret_marker}")
    );
}

#[test]
fn missing_skill_is_an_error() {
    let err = build(&grafana_artifact(), &[], None, false).err();
    assert!(matches!(err, Some(BuildError::MissingSkill(_))), "no skill -> error");
}

#[test]
fn cancellation_short_circuits_before_run() {
    let events = [text_event("should not run")];
    let err = build(&grafana_artifact(), &events, Some(triage("x")), true).err();
    assert!(matches!(err, Some(BuildError::Cancelled)), "cancelled");
}

#[test]
fn the_missing_skill_names_source_and_tags() {
    let tags = vec!["cpu".to_string(), "a\"b".to_string()];
    let none = build_input("p".into(), "grafana", &tags, &None, None).err();
    assert!(matches!(
        none,
        Some(BuildError::MissingSkill(s))
            if s == "no skill matched source `grafana` with tags [\"cpu\", \"a\\\"b\"]"
    ));
    let none = build_input("p".into(), "grafana", &vec![], &None, None).err();
    assert!(matches!(
        none,
        Some(BuildError::MissingSkill(s)) if s == "no skill matched source `grafana` with tags []"
    ));
}

#[test]
fn the_prompt_is_the_markdown_report() {
    let artifact = grafana_artifact();
    let (prompt, tags) = start_pipeline(&artifact, false).ok().unwrap();
    assert_eq!(prompt, render(&artifact));
    assert_eq!(tags, vec!["cpu", "saturation"]);
    let input = build_input(
        prompt.clone(),
        "grafana",
        &tags,
        &Some(triage("body")),
        Some("m".into()),
    )
    .ok()
    .unwrap();
    assert_eq!(input.prompt, prompt);
    assert_eq!(input.system_prompt, "body");
    assert_eq!(input.model.as_deref(), Some("m"));
}

#[test]
fn tags_are_sorted_and_distinct() {
    let mut artifact = grafana_artifact();
    artifact.items.push(Item {
        id: "panel-3".into(),
        kind: ItemKind::Log,
        title: None,
        text: String::new(),
        data: None,
        tags: vec!["mem".into(), "cpu".into(), "a".into(), "cpu".into()],
    });
    assert_eq!(
        artifact_tags(&artifact),
        vec!["a", "cpu", "mem", "saturation"]
    );
}

#[test]
fn a_skill_is_selected_by_source_and_tags() {
    let tags = vec!["cpu".to_string(), "mem".to_string()];
    assert_eq!(
        selector_input("grafana", &tags),
        vec![
            ("source".to_string(), "grafana".to_string()),
            ("tags".to_string(), "cpu mem".to_string())
        ]
    );
}

#[test]
fn a_failed_selection_is_reported() {
    assert_eq!(
        selection_failed("gone").message(),
        "skill selection failed: gone"
    );
}

#[test]
fn a_selection_must_be_loaded() {
    assert!(matches!(selected_skill(None, None), Ok(None)));
    assert!(matches!(
        selected_skill(Some(("id".into(), "hash".into())), Some("body".into())),
        Ok(Some(s)) if s == ResolvedSkill {
            skill_id: "id".into(),
            system_prompt: "body".into(),
            content_hash: "hash".into(),
        }
    ));
    assert!(matches!(
        selected_skill(Some(("id".into(), "hash".into())), None),
        Err(BuildError::MissingSkill(s)) if s == "selector chose `id` but it is not loaded"
    ));
}

#[test]
fn the_runner_text_comes_before_the_streamed_text() {
    let ended = |text: &str, error: Option<&str>| RunOutcome::Ended {
        text: text.into(),
        error: error.map(Into::into),
    };
    assert_eq!(
        assistant_text(ended("whole", None), "streamed".into()).ok().unwrap(),
        "whole"
    );
    assert_eq!(
        assistant_text(ended("", None), "streamed".into()).ok().unwrap(),
        "streamed"
    );
    assert!(matches!(
        assistant_text(ended("whole", Some("limit")), "streamed".into()),
        Err(BuildError::Ai(e)) if e == "limit"
    ));
    assert!(matches!(
        assistant_text(RunOutcome::Failed("spawn".into()), "streamed".into()),
        Err(BuildError::Ai(e)) if e == "spawn"
    ));
}

#[test]
fn an_event_without_a_printed_form_is_not_logged() {
    let mut t = Transcript::new();
    t.record(Some("a"), None);
    t.record(None, Some("{}".into()));
    t.record(Some("b"), Some("[]".into()));
    assert_eq!(t.text, "ab");
    assert_eq!(event_log(&t.lines), "{}\n[]\n");
    assert_eq!(event_log(&vec![]), "");
}

#[test]
fn a_run_reports_its_files() {
    let outcome = RunOutcome::Ended {
        text: "t".into(),
        error: None,
    };
    let (files, out) = finish_pipeline(triage("x"), outcome, Transcript::new())
        .ok()
        .unwrap();
    assert_eq!((files.report.as_str(), files.log.as_str()), ("t", ""));
    assert_eq!(out.files, vec![REPORT_AI_FILENAME, EVENT_LOG_FILENAME]);
    assert_eq!(
        build_output(out).summary,
        "ai report via skill `ncrawler.skills.grafana-triage` -> build-report-ai.md"
    );
}

#[test]
fn the_options_override_the_model() {
    let mut map = JsonMap::new();
    map.insert("model".into(), Json::Text("opus".into()));
    let options = Json::Object(map);
    let default = Some("default".to_string());
    assert_eq!(model_override(&options, &default).as_deref(), Some("opus"));
    assert_eq!(
        model_override(&Json::Null, &default).as_deref(),
        Some("default")
    );
    assert_eq!(model_override(&Json::Bool(true), &None), None);
}
