//! What the printed results guarantee, in terms of what is printed.

use crate::ai::{
    assistant_text_of, debug_list, debug_text, event_log_text, tags_of_artifact, RunOutcome,
};
use crate::artifact::{ArtifactV, AssetV, ItemKind, ItemV};
use crate::cli::{
    build_options_of, builder_of, built_text, entry_line_of, flag_value_of, item_line, listing_text,
    padded, show_text, BuilderKind,
};
use crate::collect::{collected, flattened, lemma_flattened_from, lemma_flattened_has};
use crate::error::{
    build_error_text, scrape_error_text, store_error_text, BuildError, ScrapeError, StoreError,
};
use crate::grafana::render_laws::begins_with;
use crate::json::{member, pretty_text, JsonV};
use crate::order::{law_distinct_texts, text_order};
use crate::report_md::{
    asks_redaction, embed_of, embeds_of, item_text, report_text, summary_text, tag_code,
};
use crate::secrets::redacted;
use crate::store::ListEntryV;
use crate::text::{concat, decimal, join, text_le};
use crate::text_laws::{lemma_concat_stands, lemma_stands_around, stands_in};
use crate::time::{rfc3339_seconds_text, rfc3339_text, time_text};
use vstd::prelude::*;

verus! {

// ---------------------------------------------------------------------------
// Markdown reports
// ---------------------------------------------------------------------------

/// `s` is the section of an item: its title, else its id, its id, its tags, its
/// payload, and the images that belong to it by its id.
pub open spec fn is_item_section(item: ItemV, assets: Seq<AssetV>, s: Seq<char>) -> bool {
    let heading = match item.title {
        Some(t) => t,
        None => item.id,
    };
    let tags = if item.tags.len() == 0 {
        Seq::empty()
    } else {
        "- tags: "@ + join(
            item.tags.map_values(|t: Seq<char>| seq!['`'] + t + seq!['`']),
            ", "@,
        ) + "\n"@
    };
    let data = match item.data {
        Some(d) => "\n```json\n"@ + pretty_text(d) + "\n```\n"@,
        None => Seq::empty(),
    };
    let images = assets.filter(|a: AssetV| a.item_id == Some(item.id)).map_values(
        |a: AssetV| "\n!["@ + a.label + "]("@ + a.path + ")\n"@,
    );
    s == "\n## "@ + heading + "\n\n- id: `"@ + item.id + "`\n"@ + tags + data + concat(images)
}

proof fn lemma_embeds(assets: Seq<AssetV>, id: Seq<char>)
    ensures
        embeds_of(assets, id) == assets.filter(|a: AssetV| a.item_id == Some(id)).map_values(
            |a: AssetV| "\n!["@ + a.label + "]("@ + a.path + ")\n"@,
        ),
    decreases assets.len(),
{
    reveal(Seq::filter);
    let f = |a: AssetV| embed_of(a, id);
    let p = |a: AssetV| a.item_id == Some(id);
    let g = |a: AssetV| "\n!["@ + a.label + "]("@ + a.path + ")\n"@;
    if assets.len() > 0 {
        lemma_embeds(assets.drop_last(), id);
    }
    assert(collected(assets, f) =~= assets.filter(p).map_values(g));
}

proof fn lemma_item_section(item: ItemV, assets: Seq<AssetV>)
    ensures
        is_item_section(item, assets, item_text(item, assets)),
{
    reveal_strlit("");
    reveal_strlit("`");
    assert(""@ =~= Seq::<char>::empty());
    assert("`"@ =~= seq!['`']);
    lemma_embeds(assets, item.id);
    assert(item.tags.map_values(|t: Seq<char>| tag_code(t)) =~= item.tags.map_values(
        |t: Seq<char>| seq!['`'] + t + seq!['`'],
    ));
}

/// A report is the source, the target and the time of the artifact, and behind
/// them a section for each item, in order.
pub proof fn law_reports_hold_a_section_for_each_item(a: ArtifactV)
    ensures
        exists|sections: Seq<Seq<char>>|
            report_text(a) == "# "@ + a.source + " — "@ + a.target + "\n\n_fetched_at: "@
                + rfc3339_seconds_text(a.fetched_at.0, a.fetched_at.1) + "_\n"@ + #[trigger] concat(
                sections,
            ) && sections.len() == a.items.len() && forall|i: int|
                0 <= i < sections.len() ==> is_item_section(
                    a.items[i],
                    a.assets,
                    #[trigger] sections[i],
                ),
{
    let sections = a.items.map_values(|it: ItemV| item_text(it, a.assets));
    assert forall|i: int| 0 <= i < sections.len() implies is_item_section(
        a.items[i],
        a.assets,
        #[trigger] sections[i],
    ) by {
        lemma_item_section(a.items[i], a.assets);
    }
    assert(report_text(a) == "# "@ + a.source + " — "@ + a.target + "\n\n_fetched_at: "@
        + rfc3339_seconds_text(a.fetched_at.0, a.fetched_at.1) + "_\n"@ + concat(sections));
}

/// A build hides the secrets of its report unless its options say not to, and says
/// how many items it shows.
pub proof fn law_builds_hide_secrets_unless_told_otherwise(a: ArtifactV, options: JsonV, n: nat)
    ensures
        asks_redaction(options) <==> member(Some(options), "redact"@) != Some(JsonV::Bool(false)),
        member(Some(options), "redact"@) == Some(JsonV::Bool(false))
            ==> crate::report_md::built_text(a, options) == report_text(a),
        member(Some(options), "redact"@) != Some(JsonV::Bool(false))
            ==> crate::report_md::built_text(a, options) == redacted(report_text(a)),
        summary_text(n) == "rendered "@ + decimal(n) + " item(s) to "@ + "report.md"@,
{
}

// ---------------------------------------------------------------------------
// The command line
// ---------------------------------------------------------------------------

/// The value of a flag is what stands behind the first place at which the flag
/// stands, if anything does.
pub proof fn law_flags_are_followed_by_their_values(
    before: Seq<Seq<char>>,
    flag: Seq<char>,
    after: Seq<Seq<char>>,
)
    requires
        !before.contains(flag),
    ensures
        after.len() > 0 ==> flag_value_of(before + seq![flag] + after, flag) == Some(after[0]),
        after.len() == 0 ==> flag_value_of(before + seq![flag] + after, flag) is None,
        flag_value_of(before, flag) is None,
    decreases before.len(),
{
    let s = before + seq![flag] + after;
    if before.len() == 0 {
        assert(s[0] == flag);
        if after.len() > 0 {
            assert(s[1] == after[0]);
        }
    } else {
        assert(before.contains(before[0]));
        let rest = before.drop_first();
        assert(!rest.contains(flag)) by {
            if rest.contains(flag) {
                let i = choose|i: int| 0 <= i < rest.len() && rest[i] == flag;
                assert(before[i + 1] == flag);
            }
        }
        law_flags_are_followed_by_their_values(rest, flag, after);
        assert(s[0] == before[0]);
        assert(s.drop_first() =~= rest + seq![flag] + after);
    }
}

/// The options of a build hold the model, if one is given, and that secrets are
/// not to be hidden, if so, and nothing else.
pub proof fn law_build_options_are_taken_from_flags(rest: Seq<Seq<char>>, key: Seq<char>)
    ensures
        member(Some(JsonV::Object(build_options_of(rest))), "model"@) == (match flag_value_of(
            rest,
            "--model"@,
        ) {
            Some(m) => Some(JsonV::Text(m)),
            None => None,
        }),
        member(Some(JsonV::Object(build_options_of(rest))), "redact"@) == (if rest.contains(
            "--no-redact"@,
        ) {
            Some(JsonV::Bool(false))
        } else {
            None
        }),
        key != "model"@ && key != "redact"@ ==> member(
            Some(JsonV::Object(build_options_of(rest))),
            key,
        ) is None,
{
    reveal_strlit("model");
    reveal_strlit("redact");
    assert("model"@.len() != "redact"@.len());
    reveal_with_fuel(crate::json::lookup, 3);
}

/// A builder is chosen by its name.
pub proof fn law_builders_are_chosen_by_name(name: Seq<char>)
    ensures
        builder_of(name) == Some(BuilderKind::ReportMd) <==> name == "report-md"@,
        builder_of(name) == Some(BuilderKind::ReportAi) <==> name == "report-ai"@,
        builder_of(name) is None <==> name != "report-md"@ && name != "report-ai"@,
{
    reveal_strlit("report-md");
    reveal_strlit("report-ai");
    assert("report-md"@[7] != "report-ai"@[7]);
}

/// Padding puts spaces behind a text until it is wide enough, and changes nothing
/// else.
pub proof fn law_padding_fills_up(s: Seq<char>, width: nat)
    ensures
        s.len() >= width ==> padded(s, width) == s,
        s.len() < width ==> padded(s, width).len() == width,
        padded(s, width).take(s.len() as int) == s,
        forall|i: int|
            s.len() <= i < padded(s, width).len() ==> #[trigger] padded(s, width)[i] == ' ',
    decreases width - s.len(),
{
    if s.len() < width {
        let t = s.push(' ');
        law_padding_fills_up(t, width);
        let out = padded(t, width);
        assert(out.take(s.len() as int) =~= s) by {
            assert forall|i: int| 0 <= i < s.len() implies out[i] == s[i] by {
                assert(out.take(t.len() as int)[i] == t[i]);
            }
        }
        assert(out.take(t.len() as int)[s.len() as int] == ' ');
    } else {
        assert(s.take(s.len() as int) =~= s);
    }
}

/// `line` tells of an entry: its time to the second, its source, in ten columns at
/// least, and its target.
pub open spec fn is_entry_line(e: ListEntryV, line: Seq<char>) -> bool {
    line == time_text(e.fetched_at.0, e.fetched_at.1, "%Y-%m-%dT%H:%M:%SZ"@) + "  "@ + padded(
        e.source,
        10,
    ) + "  "@ + e.target
}

/// A listing has a line for each entry, in order; without an entry it says so.
pub proof fn law_listings_have_a_line_for_each_entry(entries: Seq<ListEntryV>)
    ensures
        forall|e: ListEntryV| is_entry_line(e, #[trigger] entry_line_of(e)),
        entries.len() == 0 ==> listing_text(entries) == "no artifacts found\n"@,
        entries.len() > 0 ==> exists|lines: Seq<Seq<char>>|
            #![trigger concat(lines)]
            listing_text(entries) == concat(lines) && lines.len() == entries.len() && forall|i: int|
                0 <= i < lines.len() ==> (#[trigger] lines[i]).len() > 0 && lines[i].last() == '\n'
                    && is_entry_line(entries[i], lines[i].drop_last()),
{
    reveal_strlit("\n");
    let lines = entries.map_values(|e: ListEntryV| entry_line_of(e) + "\n"@);
    assert forall|i: int| 0 <= i < lines.len() implies (#[trigger] lines[i]).len() > 0
        && lines[i].last() == '\n' && is_entry_line(entries[i], lines[i].drop_last()) by {
        let line = entry_line_of(entries[i]);
        assert(lines[i] == line + "\n"@);
        assert(lines[i].drop_last() =~= line);
    }
    if entries.len() > 0 {
        assert(listing_text(entries) == concat(lines));
    }
}

/// What a build printed: its summary, and a line for each file it wrote.
pub proof fn law_builds_name_their_files(summary: Seq<char>, files: Seq<Seq<char>>, i: int)
    ensures
        begins_with(built_text(summary, files), summary + seq!['\n']),
        0 <= i < files.len() ==> stands_in(
            built_text(summary, files),
            "  wrote "@ + files[i] + "\n"@,
        ),
        built_text(summary, files) == summary + "\n"@ + concat(
            files.map_values(|f: Seq<char>| "  wrote "@ + f + "\n"@),
        ),
{
    reveal_strlit("\n");
    let lines = files.map_values(|f: Seq<char>| "  wrote "@ + f + "\n"@);
    let text = built_text(summary, files);
    let head = summary + seq!['\n'];
    assert("\n"@ =~= seq!['\n']);
    assert(text.take(head.len() as int) =~= head);
    if 0 <= i < files.len() {
        lemma_concat_stands(lines, i);
        let none = Seq::<char>::empty();
        lemma_stands_around(head, concat(lines), none, lines[i]);
        assert(head + concat(lines) + none =~= text);
    }
}

/// The name of what an item is.
pub open spec fn item_is(kind: ItemKind) -> Seq<char> {
    match kind {
        ItemKind::Panel => "Panel"@,
        ItemKind::Page => "Page"@,
        ItemKind::ApiResponse => "ApiResponse"@,
        ItemKind::Annotation => "Annotation"@,
        ItemKind::Alert => "Alert"@,
        ItemKind::Log => "Log"@,
    }
}

/// An artifact is shown with its source, target, time, schema and counts, and
/// behind them a line for each item, in order.
pub proof fn law_artifacts_are_shown_item_by_item(a: ArtifactV)
    ensures
        exists|lines: Seq<Seq<char>>|
            show_text(a) == "source:        "@ + a.source + "\ntarget:        "@ + a.target
                + "\nfetched_at:    "@ + rfc3339_text(a.fetched_at.0, a.fetched_at.1)
                + "\nschema:        v"@ + decimal(a.schema_version as nat) + "\nitems:         "@
                + decimal(a.items.len()) + "\nassets:        "@ + decimal(a.assets.len()) + "\n"@
                + #[trigger] concat(lines) && lines.len() == a.items.len() && forall|i: int|
                0 <= i < lines.len() ==> #[trigger] lines[i] == "  - ["@ + item_is(a.items[i].kind)
                    + "] "@ + a.items[i].id + " "@ + (match a.items[i].title {
                    Some(t) => t,
                    None => ""@,
                }) + "\n"@,
{
    let lines = a.items.map_values(|it: ItemV| item_line(it));
    assert(show_text(a) == "source:        "@ + a.source + "\ntarget:        "@ + a.target
        + "\nfetched_at:    "@ + rfc3339_text(a.fetched_at.0, a.fetched_at.1)
        + "\nschema:        v"@ + decimal(a.schema_version as nat) + "\nitems:         "@ + decimal(
        a.items.len(),
    ) + "\nassets:        "@ + decimal(a.assets.len()) + "\n"@ + concat(lines));
}

// ---------------------------------------------------------------------------
// The AI report
// ---------------------------------------------------------------------------

/// The tags of an artifact are those of its items, each once and in order.
pub proof fn law_artifact_tags_are_those_of_its_items(a: ArtifactV, tag: Seq<char>, i: int, j: int)
    ensures
        tags_of_artifact(a).contains(tag) <==> exists|k: int|
            0 <= k < a.items.len() && (#[trigger] a.items[k]).tags.contains(tag),
        0 <= i < j < tags_of_artifact(a).len() ==> text_le(
            tags_of_artifact(a)[i],
            tags_of_artifact(a)[j],
        ) && tags_of_artifact(a)[i] != tags_of_artifact(a)[j],
{
    let f = |it: ItemV| it.tags;
    let all = flattened(a.items, f);
    law_distinct_texts(all);
    if all.contains(tag) {
        let k = lemma_flattened_from(a.items, f, tag);
        assert(a.items[k].tags.contains(tag));
    }
    if exists|k: int| 0 <= k < a.items.len() && (#[trigger] a.items[k]).tags.contains(tag) {
        let k = choose|k: int| 0 <= k < a.items.len() && (#[trigger] a.items[k]).tags.contains(tag);
        lemma_flattened_has(a.items, f, k, tag);
    }
    let out = tags_of_artifact(a);
    if 0 <= i < j < out.len() {
        assert(text_order()(out[i], out[j]));
    }
}

/// A run that failed, or ended with an error, fails the build with that error; else
/// the text is the final one, or what was streamed where there is none.
pub proof fn law_runs_end_with_their_text(outcome: RunOutcome, streamed: String)
    ensures
        outcome matches RunOutcome::Failed(e) ==> assistant_text_of(outcome, streamed) == Err::<
            String,
            BuildError,
        >(BuildError::Ai(e)),
        outcome matches RunOutcome::Ended { text, error } ==> {
            &&& error is Some ==> assistant_text_of(outcome, streamed) == Err::<String, BuildError>(
                BuildError::Ai(error->0),
            )
            &&& error is None && text@.len() > 0 ==> assistant_text_of(outcome, streamed) == Ok::<
                String,
                BuildError,
            >(text)
            &&& error is None && text@.len() == 0 ==> assistant_text_of(outcome, streamed) == Ok::<
                String,
                BuildError,
            >(streamed)
        },
{
}

/// The log has the lines of the events, each with a line break behind it.
pub proof fn law_logs_have_a_line_for_each_event(lines: Seq<Seq<char>>)
    requires
        forall|i: int| 0 <= i < lines.len() ==> (#[trigger] lines[i]).len() > 0,
    ensures
        event_log_text(lines) == concat(lines.map_values(|l: Seq<char>| l + seq!['\n'])),
    decreases lines.len(),
{
    reveal_strlit("\n");
    assert("\n"@ =~= seq!['\n']);
    let f = |l: Seq<char>| l + seq!['\n'];
    if lines.len() == 0 {
        assert(event_log_text(lines) =~= concat(lines.map_values(f)));
    } else {
        let init = lines.drop_last();
        assert(lines[lines.len() - 1].len() > 0);
        assert forall|i: int| 0 <= i < init.len() implies (#[trigger] init[i]).len() > 0 by {
            assert(lines[i].len() > 0);
        }
        law_logs_have_a_line_for_each_event(init);
        assert(lines.map_values(f).drop_last() =~= init.map_values(f));
        if init.len() > 0 {
            assert(init[0].len() > 0);
            crate::text_laws::lemma_join_stands(init, "\n"@, 0);
            assert(join(init, "\n"@).len() > 0);
        }
        assert(event_log_text(lines) =~= concat(lines.map_values(f)));
    }
}

/// The log is the lines with line breaks between them, and one behind them where
/// there is anything.
pub proof fn law_logs_end_with_a_line_break(lines: Seq<Seq<char>>)
    ensures
        join(lines, "\n"@).len() == 0 ==> event_log_text(lines).len() == 0,
        join(lines, "\n"@).len() > 0 ==> event_log_text(lines) == join(lines, "\n"@) + seq!['\n'],
{
    assert(join(lines, "\n"@).push('\n') =~= join(lines, "\n"@) + seq!['\n']);
}

/// A list is told with brackets around it and commas between its texts.
pub proof fn law_lists_are_told_in_brackets(xs: Seq<Seq<char>>)
    ensures
        debug_list(xs) == "["@ + join(xs.map_values(|s: Seq<char>| debug_text(s)), ", "@) + "]"@,
{
}

// ---------------------------------------------------------------------------
// Errors
// ---------------------------------------------------------------------------

/// What went wrong with the store is told in words.
pub proof fn law_store_errors_are_told(e: StoreError)
    ensures
        store_error_text(e) == (match e {
            StoreError::Io(s) => "io error: "@ + s@,
            StoreError::Json(s) => "json error: "@ + s@,
            StoreError::UnsupportedSchema { found, supported } =>
                "unsupported artifact schema version "@ + decimal(found as nat)
                    + "; this build supports up to "@ + decimal(supported as nat),
            StoreError::UnsupportedInstanceSchema { found, supported } =>
                "unsupported instance sidecar schema version "@ + decimal(found as nat)
                    + "; this build supports up to "@ + decimal(supported as nat),
            StoreError::InstanceFactsUnavailable { host, uid } =>
                "no instance facts for host `"@ + host@
                    + "`: no sidecar and no legacy artifact for uid `"@ + uid@ + "`"@,
            StoreError::NotAnArtifact(s) =>
                "not an artifact directory (missing artifact.json): "@ + s@,
            StoreError::BadDirName(s) => "malformed artifact directory name: "@ + s@,
            StoreError::BadSince(s) => "invalid --since duration: "@ + s@,
        }),
{
}

/// What went wrong with a build is told in words.
pub proof fn law_build_errors_are_told(e: BuildError)
    ensures
        build_error_text(e) == (match e {
            BuildError::Io(s) => "io error: "@ + s@,
            BuildError::MissingSkill(s) => "no skill resolved for this artifact: "@ + s@,
            BuildError::Ai(s) => "ai runner error: "@ + s@,
            BuildError::Cancelled => "build cancelled"@,
            BuildError::Other(s) => s@,
        }),
{
}

/// What went wrong with a scrape is told in words.
pub proof fn law_scrape_errors_are_told(e: ScrapeError)
    ensures
        scrape_error_text(e) == (match e {
            ScrapeError::Network(s) => "network error: "@ + s@,
            ScrapeError::Auth(s) => "authentication failed: "@ + s@,
            ScrapeError::NotFound(s) => "target not found: "@ + s@,
            ScrapeError::RendererPluginMissing =>
                "grafana renderer plugin missing; install grafana-image-renderer or pass --visual-fallback chrome"@,
            ScrapeError::SsrfBlocked(s) => "host blocked by SSRF allow-list: "@ + s@,
            ScrapeError::ModeUnsupported(s) => "scrape mode unsupported: "@ + s@,
            ScrapeError::Cancelled => "scrape cancelled"@,
            ScrapeError::Other(s) => s@,
        }),
{
}

/// The report of an AI build and the log of its events have the names that its
/// summary and its files tell.
pub proof fn law_files_of_builds_are_named()
    ensures
        crate::ai::REPORT_AI_FILENAME@ == "build-report-ai.md"@,
        crate::ai::EVENT_LOG_FILENAME@ == "build-report-ai.jsonl"@,
        crate::report_md::REPORT_FILENAME@ == "report.md"@,
        crate::grafana::options::REPORT_FILENAME@ == "REPORT.md"@,
{
}

} // verus!
