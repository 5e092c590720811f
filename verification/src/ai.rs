//! The decisions of the AI report builder.
//!
//! 1. The artifact is rendered to Markdown: the user prompt.
//! 2. A skill is resolved; its body is the system prompt. Without a skill the
//!    build fails.
//! 3. The runner streams events: each is logged, and their text is collected.
//! 4. The assistant text and the event log are written next to the artifact.
//!
//! Resolving and running happen outside; what they yield comes in as values.

use crate::artifact::{Artifact, ArtifactV, BuildOutput, ItemV};
use crate::collect::{
    flattened, lemma_flattened_from, lemma_flattened_has, lemma_flattened_step,
};
use crate::error::BuildError;
use crate::json::{get_text, text_member, Json};
use crate::order::{ascending, distinct_texts, law_distinct_texts, sort_dedup, text_order};
use crate::report_md::{render, report_text};
use crate::text::{chars_of, copy_option, copy_texts, join, join_texts};
use vstd::prelude::*;

verus! {

/// Assistant text output, written next to the artifact.
pub const REPORT_AI_FILENAME: &'static str = "build-report-ai.md";

/// Streamed event log, one JSON object per line.
pub const EVENT_LOG_FILENAME: &'static str = "build-report-ai.jsonl";

/// A resolved skill.
#[derive(Debug, Clone, PartialEq, Eq)]
pub struct ResolvedSkill {
    /// The id that was selected.
    pub skill_id: String,
    /// The skill body, used verbatim as the system prompt.
    pub system_prompt: String,
    /// Content hash of the bundle at selection time.
    pub content_hash: String,
}

/// What the runner is given.
pub struct RunInput {
    pub prompt: String,
    pub system_prompt: String,
    pub model: Option<String>,
}

// ---------------------------------------------------------------------------
// Selecting a skill
// ---------------------------------------------------------------------------

/// The distinct tags of the items of an artifact, sorted.
pub open spec fn tags_of_artifact(a: ArtifactV) -> Seq<Seq<char>> {
    distinct_texts(flattened(a.items, |it: ItemV| it.tags))
}

/// The tags of an artifact are the tags of its items, in ascending order, each
/// once.
pub proof fn law_tags_are_sorted_and_distinct(a: ArtifactV)
    ensures
        ascending(tags_of_artifact(a), text_order()),
        tags_of_artifact(a).no_duplicates(),
        forall|t: Seq<char>| #[trigger]
            tags_of_artifact(a).contains(t) <==> exists|i: int|
                0 <= i < a.items.len() && #[trigger] a.items[i].tags.contains(t),
{
    let f = |it: ItemV| it.tags;
    let all = flattened(a.items, f);
    law_distinct_texts(all);
    assert forall|t: Seq<char>| #[trigger] tags_of_artifact(a).contains(t) implies exists|i: int|
        0 <= i < a.items.len() && #[trigger] a.items[i].tags.contains(t) by {
        assert(all.contains(t));
        let i = lemma_flattened_from(a.items, f, t);
        assert(a.items[i].tags.contains(t));
    }
    assert forall|t: Seq<char>, i: int|
        0 <= i < a.items.len() && #[trigger] a.items[i].tags.contains(
            t,
        ) implies tags_of_artifact(a).contains(t) by {
        lemma_flattened_has(a.items, f, i, t);
        assert(all.contains(t));
    }
}

/// The deduplicated union of every item's tags, sorted.
pub fn artifact_tags(artifact: &Artifact) -> (r: Vec<String>)
    ensures
        r.deep_view() == tags_of_artifact(artifact.deep_view()),
{
    let ghost all = artifact.deep_view().items;
    let ghost f = |it: ItemV| it.tags;
    let mut tags: Vec<String> = Vec::new();
    assert(tags.deep_view() =~= flattened(all.take(0), f));
    for i in 0..artifact.items.len()
        invariant
            all == artifact.items.deep_view(),
            f == (|it: ItemV| it.tags),
            tags.deep_view() == flattened(all.take(i as int), f),
    {
        proof {
            lemma_flattened_step(all, f, i as int);
        }
        let item = &artifact.items[i];
        assert(all[i as int] == item.deep_view());
        let ghost before = tags.deep_view();
        let mut more = copy_texts(&item.tags);
        let ghost added = more.deep_view();
        tags.append(&mut more);
        assert(tags.deep_view() =~= before + added);
    }
    assert(all.take(all.len() as int) =~= all);
    sort_dedup(tags)
}

/// The named values that a skill is selected by: the source, and the tags with
/// spaces between them.
pub fn selector_input(source: &str, tags: &Vec<String>) -> (r: Vec<(String, String)>)
    ensures
        r.deep_view() == seq![
            ("source"@, source@),
            ("tags"@, join(tags.deep_view(), " "@)),
        ],
{
    let mut r: Vec<(String, String)> = Vec::new();
    r.push(("source".to_owned(), source.to_owned()));
    r.push(("tags".to_owned(), join_texts(tags, " ")));
    assert(r.deep_view() =~= seq![
        ("source"@, source@),
        ("tags"@, join(tags.deep_view(), " "@)),
    ]);
    r
}

/// What a failed selection is answered with.
pub fn selection_failed(e: &str) -> (r: BuildError)
    ensures
        r matches BuildError::Other(s) && s@ == "skill selection failed: "@ + e@,
{
    let mut s = "skill selection failed: ".to_owned();
    s.append(e);
    BuildError::Other(s)
}

/// The skill of a selection, which names its id and its hash, with the body that
/// the registry holds for it. A selected skill that is not loaded is an error.
pub fn selected_skill(selection: Option<(String, String)>, body: Option<String>) -> (r: Result<
    Option<ResolvedSkill>,
    BuildError,
>)
    ensures
        match (selection, body) {
            (None, _) => r == Ok::<Option<ResolvedSkill>, BuildError>(None),
            (Some((id, hash)), Some(b)) => r == Ok::<Option<ResolvedSkill>, BuildError>(
                Some(ResolvedSkill { skill_id: id, system_prompt: b, content_hash: hash }),
            ),
            (Some((id, _)), None) => r matches Err(BuildError::MissingSkill(s)) && s@
                == "selector chose `"@ + id@ + "` but it is not loaded"@,
        },
{
    match selection {
        None => Ok(None),
        Some((skill_id, content_hash)) => match body {
            Some(system_prompt) => Ok(Some(ResolvedSkill { skill_id, system_prompt, content_hash })),
            None => {
                let mut s = "selector chose `".to_owned();
                s.append(skill_id.as_str());
                s.append("` but it is not loaded");
                Err(BuildError::MissingSkill(s))
            },
        },
    }
}

/// How the `Debug` form of a text reads.
pub uninterp spec fn debug_text(s: Seq<char>) -> Seq<char>;

/// The `Debug` form of a `str`: in double quotes, with escapes.
#[verifier::external_body]
fn debug_form(s: &str) -> (r: String)
    ensures
        r@ == debug_text(s@),
{
    format!("{:?}", s)
}

/// A list of texts in its `Debug` form.
pub open spec fn debug_list(xs: Seq<Seq<char>>) -> Seq<char> {
    "["@ + join(xs.map_values(|s: Seq<char>| debug_text(s)), ", "@) + "]"@
}

fn debug_texts(xs: &Vec<String>) -> (r: String)
    ensures
        r@ == debug_list(xs.deep_view()),
{
    let mut parts: Vec<String> = Vec::new();
    for i in 0..xs.len()
        invariant
            parts@.len() == i,
            forall|k: int| 0 <= k < i ==> (#[trigger] parts@[k])@ == debug_text(xs@[k]@),
    {
        parts.push(debug_form(xs[i].as_str()));
    }
    assert(parts.deep_view() =~= xs.deep_view().map_values(|s: Seq<char>| debug_text(s)));
    let mut out = "[".to_owned();
    out.append(join_texts(&parts, ", ").as_str());
    out.append("]");
    out
}

// ---------------------------------------------------------------------------
// The run
// ---------------------------------------------------------------------------

/// The first part of a run: the prompt, and the tags to select a skill by. A
/// cancelled build ends here.
pub fn start_pipeline(artifact: &Artifact, cancelled: bool) -> (r: Result<
    (String, Vec<String>),
    BuildError,
>)
    ensures
        if cancelled {
            r matches Err(BuildError::Cancelled)
        } else {
            r matches Ok((prompt, tags)) && prompt@ == report_text(artifact.deep_view())
                && tags.deep_view() == tags_of_artifact(artifact.deep_view())
        },
{
    if cancelled {
        return Err(BuildError::Cancelled);
    }
    Ok((render(artifact), artifact_tags(artifact)))
}

/// The second part of a run: what the runner is given. Without a skill there is
/// nothing to run.
pub fn build_input(
    prompt: String,
    source: &str,
    tags: &Vec<String>,
    skill: &Option<ResolvedSkill>,
    model: Option<String>,
) -> (r: Result<RunInput, BuildError>)
    ensures
        match *skill {
            Some(s) => r == Ok::<RunInput, BuildError>(
                RunInput { prompt, system_prompt: s.system_prompt, model },
            ),
            None => r matches Err(BuildError::MissingSkill(m)) && m@
                == "no skill matched source `"@ + source@ + "` with tags "@ + debug_list(
                tags.deep_view(),
            ),
        },
{
    match skill {
        Some(s) => Ok(RunInput { prompt, system_prompt: s.system_prompt.clone(), model }),
        None => {
            let mut m = "no skill matched source `".to_owned();
            m.append(source);
            m.append("` with tags ");
            m.append(debug_texts(tags).as_str());
            Err(BuildError::MissingSkill(m))
        },
    }
}

/// What the event stream has yielded so far.
pub struct Transcript {
    /// The text of the text events, one after the other.
    pub text: String,
    /// The printed events.
    pub lines: Vec<String>,
}

impl Transcript {
    pub fn new() -> (r: Transcript)
        ensures
            r.text@ == Seq::<char>::empty(),
            r.lines@ == Seq::<String>::empty(),
    {
        Transcript { text: String::new(), lines: Vec::new() }
    }

    /// Take in an event: its text, if it is a text event, and its printed form,
    /// if it has one.
    pub fn record(&mut self, content: Option<&str>, line: Option<String>)
        ensures
            final(self).text@ == (match content {
                Some(c) => old(self).text@ + c@,
                None => old(self).text@,
            }),
            final(self).lines@ == (match line {
                Some(l) => old(self).lines@.push(l),
                None => old(self).lines@,
            }),
    {
        if let Some(c) = content {
            self.text.append(c);
        }
        if let Some(l) = line {
            self.lines.push(l);
        }
    }
}

/// What a run came to.
pub enum RunOutcome {
    /// It did not come to an end, with what the runner reported.
    Failed(String),
    /// It ended, with the text that the runner put together, and the error that
    /// it ended in, if any.
    Ended { text: String, error: Option<String> },
}

/// The assistant text of a run, or the error that the build fails with.
pub open spec fn assistant_text_of(outcome: RunOutcome, streamed: String) -> Result<
    String,
    BuildError,
> {
    match outcome {
        RunOutcome::Failed(e) => Err(BuildError::Ai(e)),
        RunOutcome::Ended { text, error: Some(e) } => Err(BuildError::Ai(e)),
        RunOutcome::Ended { text, error: None } => if text@.len() == 0 {
            Ok(streamed)
        } else {
            Ok(text)
        },
    }
}

/// The assistant text of a run: what the runner put together, else what was
/// streamed. A run that failed or ended in an error fails the build.
pub fn assistant_text(outcome: RunOutcome, streamed: String) -> (r: Result<String, BuildError>)
    ensures
        r == assistant_text_of(outcome, streamed),
{
    match outcome {
        RunOutcome::Failed(e) => Err(BuildError::Ai(e)),
        RunOutcome::Ended { text, error } => match error {
            Some(e) => Err(BuildError::Ai(e)),
            None => if chars_of(text.as_str()).len() == 0 {
                Ok(streamed)
            } else {
                Ok(text)
            },
        },
    }
}

/// The contents of the event log.
pub open spec fn event_log_text(lines: Seq<Seq<char>>) -> Seq<char> {
    let log = join(lines, "\n"@);
    if log.len() == 0 {
        log
    } else {
        log.push('\n')
    }
}

/// The event log: one event per line.
pub fn event_log(lines: &Vec<String>) -> (r: String)
    ensures
        r@ == event_log_text(lines.deep_view()),
{
    let mut log = join_texts(lines, "\n");
    if chars_of(log.as_str()).len() > 0 {
        log.push('\n');
    }
    log
}

/// The outcome of a pipeline run.
pub struct PipelineOutput {
    /// Files written, relative to the artifact directory.
    pub files: Vec<String>,
    /// The skill that drove the run.
    pub skill: ResolvedSkill,
}

/// The contents of the files that a run leaves.
pub struct PipelineFiles {
    /// The assistant text, for [`REPORT_AI_FILENAME`].
    pub report: String,
    /// The event log, for [`EVENT_LOG_FILENAME`].
    pub log: String,
}

/// The last part of a run: what is written, and what the run came to. What is
/// written comes from the runner alone: nothing of the runner's input is in it
/// but what the runner itself repeats.
pub fn finish_pipeline(skill: ResolvedSkill, outcome: RunOutcome, transcript: Transcript) -> (r:
    Result<(PipelineFiles, PipelineOutput), BuildError>)
    ensures
        match assistant_text_of(outcome, transcript.text) {
            Err(e) => r == Err::<(PipelineFiles, PipelineOutput), BuildError>(e),
            Ok(text) => r matches Ok((files, out)) && files.report == text && files.log@
                == event_log_text(transcript.lines.deep_view()) && out.files.deep_view() == seq![
                REPORT_AI_FILENAME@,
                EVENT_LOG_FILENAME@,
            ] && out.skill == skill,
        },
{
    let report = match assistant_text(outcome, transcript.text) {
        Ok(text) => text,
        Err(e) => return Err(e),
    };
    let log = event_log(&transcript.lines);
    let mut files: Vec<String> = Vec::new();
    files.push(REPORT_AI_FILENAME.to_owned());
    files.push(EVENT_LOG_FILENAME.to_owned());
    assert(files.deep_view() =~= seq![REPORT_AI_FILENAME@, EVENT_LOG_FILENAME@]);
    Ok((PipelineFiles { report, log }, PipelineOutput { files, skill }))
}

/// What the build reports.
pub fn build_output(out: PipelineOutput) -> (r: BuildOutput)
    ensures
        r.files == out.files,
        r.summary@ == "ai report via skill `"@ + out.skill.skill_id@ + "` -> "@
            + REPORT_AI_FILENAME@,
{
    let mut summary = "ai report via skill `".to_owned();
    summary.append(out.skill.skill_id.as_str());
    summary.append("` -> ");
    summary.append(REPORT_AI_FILENAME);
    BuildOutput { files: out.files, summary }
}

/// The model to run: the one that the options name, else the default.
pub fn model_override(options: &Json, default: &Option<String>) -> (r: Option<String>)
    ensures
        r.deep_view() == (match text_member(Some(options@), "model"@) {
            Some(m) => Some(m),
            None => default.deep_view(),
        }),
{
    match get_text(Some(options), "model") {
        Some(m) => Some(m),
        None => copy_option(default),
    }
}

} // verus!
