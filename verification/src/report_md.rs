//! Deterministic Markdown report of an artifact.
//!
//! One section per item (title, tags, fenced JSON for the payload) plus image
//! embeds for the assets whose `item_id` names the item. Asset and item are
//! linked by `item_id` only, never by `label`. A build masks the secrets of the
//! report; the artifact on disk stays as it is.

use crate::artifact::{Artifact, ArtifactV, Asset, AssetV, BuildOutput, Item, ItemV};
use crate::collect::{collected, lemma_collected_from, lemma_collected_step};
use crate::error::BuildError;
use crate::json::{bool_member, get_bool, pretty_text, Json, JsonV};
use crate::masking::law_no_secret_survives;
use crate::redact::Redactor;
use crate::secrets::{is_secret, mask_from, mask_to, redacted, Secret, MASK};
use crate::text::{
    concat, decimal, decimal_usize, join, join_texts, lemma_concat_push, lemma_concat_take, same,
};
use crate::time::rfc3339_seconds_text;
use vstd::prelude::*;

verus! {

/// Filename written into the artifact directory.
pub const REPORT_FILENAME: &'static str = "report.md";

/// A tag as code.
pub open spec fn tag_code(t: Seq<char>) -> Seq<char> {
    "`"@ + t + "`"@
}

/// The line of an item's tags; nothing where it has none.
pub open spec fn tags_text(tags: Seq<Seq<char>>) -> Seq<char> {
    if tags.len() == 0 {
        ""@
    } else {
        "- tags: "@ + join(tags.map_values(|t: Seq<char>| tag_code(t)), ", "@) + "\n"@
    }
}

/// The block of an item's payload; nothing where it has none.
pub open spec fn data_text(data: Option<JsonV>) -> Seq<char> {
    match data {
        Some(d) => "\n```json\n"@ + pretty_text(d) + "\n```\n"@,
        None => ""@,
    }
}

/// The embed of an asset, if it belongs to the item `id`.
pub open spec fn embed_of(a: AssetV, id: Seq<char>) -> Option<Seq<char>> {
    if a.item_id == Some(id) {
        Some("\n!["@ + a.label + "]("@ + a.path + ")\n"@)
    } else {
        None
    }
}

/// The embeds of the assets of the item `id`, in artifact order.
pub open spec fn embeds_of(assets: Seq<AssetV>, id: Seq<char>) -> Seq<Seq<char>> {
    collected(assets, |a: AssetV| embed_of(a, id))
}

/// The heading of an item: its title, else its id.
pub open spec fn heading_of(item: ItemV) -> Seq<char> {
    match item.title {
        Some(t) => t,
        None => item.id,
    }
}

/// The section of an item.
pub open spec fn item_text(item: ItemV, assets: Seq<AssetV>) -> Seq<char> {
    "\n## "@ + heading_of(item) + "\n\n- id: `"@ + item.id + "`\n"@ + tags_text(item.tags)
        + data_text(item.data) + concat(embeds_of(assets, item.id))
}

/// The report of an artifact.
pub open spec fn report_text(a: ArtifactV) -> Seq<char> {
    "# "@ + a.source + " — "@ + a.target + "\n\n_fetched_at: "@ + rfc3339_seconds_text(
        a.fetched_at.0,
        a.fetched_at.1,
    ) + "_\n"@ + concat(a.items.map_values(|it: ItemV| item_text(it, a.assets)))
}

/// An item embeds only assets whose `item_id` names it, whatever their labels
/// are.
pub proof fn law_assets_attach_by_item_id(assets: Seq<AssetV>, id: Seq<char>, embed: Seq<char>)
    requires
        embeds_of(assets, id).contains(embed),
    ensures
        exists|i: int|
            0 <= i < assets.len() && (#[trigger] assets[i]).item_id == Some(id) && embed_of(
                assets[i],
                id,
            ) == Some(embed),
{
    let i = lemma_collected_from(assets, |a: AssetV| embed_of(a, id), embed);
    assert(assets[i].item_id == Some(id));
}

fn render_tags(tags: &Vec<String>) -> (r: String)
    ensures
        r@ == tags_text(tags.deep_view()),
{
    assert(tags.deep_view().len() == tags@.len());
    if tags.len() == 0 {
        return "".to_owned();
    }
    let mut codes: Vec<String> = Vec::new();
    for i in 0..tags.len()
        invariant
            codes@.len() == i,
            forall|k: int| 0 <= k < i ==> (#[trigger] codes@[k])@ == tag_code(tags@[k]@),
    {
        let mut s = "`".to_owned();
        s.append(tags[i].as_str());
        s.append("`");
        codes.push(s);
    }
    assert(codes.deep_view() =~= tags.deep_view().map_values(|t: Seq<char>| tag_code(t)));
    let mut out = "- tags: ".to_owned();
    out.append(join_texts(&codes, ", ").as_str());
    out.append("\n");
    out
}

fn render_embeds(assets: &Vec<Asset>, id: &str) -> (r: String)
    ensures
        r@ == concat(embeds_of(assets.deep_view(), id@)),
{
    let ghost all = assets.deep_view();
    let ghost f = |a: AssetV| embed_of(a, id@);
    let mut out = String::new();
    for i in 0..assets.len()
        invariant
            all == assets.deep_view(),
            f == (|a: AssetV| embed_of(a, id@)),
            out@ == concat(collected(all.take(i as int), f)),
    {
        proof {
            lemma_collected_step(all, f, i as int);
        }
        let a = &assets[i];
        assert(all[i as int] == a.deep_view());
        let belongs = match &a.item_id {
            Some(x) => same(x.as_str(), id),
            None => false,
        };
        if belongs {
            let mut s = "\n![".to_owned();
            s.append(a.label.as_str());
            s.append("](");
            s.append(a.path.as_str());
            s.append(")\n");
            proof {
                lemma_concat_push(collected(all.take(i as int), f), s@);
            }
            out.append(s.as_str());
        }
    }
    assert(all.take(all.len() as int) =~= all);
    out
}

fn render_item(item: &Item, assets: &Vec<Asset>) -> (r: String)
    ensures
        r@ == item_text(item.deep_view(), assets.deep_view()),
{
    let mut out = "\n## ".to_owned();
    let heading = match &item.title {
        Some(t) => t.as_str(),
        None => item.id.as_str(),
    };
    out.append(heading);
    out.append("\n\n- id: `");
    out.append(item.id.as_str());
    out.append("`\n");
    out.append(render_tags(&item.tags).as_str());
    let data = match &item.data {
        Some(d) => {
            let mut s = "\n```json\n".to_owned();
            s.append(d.to_pretty_text().as_str());
            s.append("\n```\n");
            s
        },
        None => "".to_owned(),
    };
    out.append(data.as_str());
    out.append(render_embeds(assets, item.id.as_str()).as_str());
    out
}

/// Render an artifact to Markdown. Same artifact in, same bytes out.
pub fn render(artifact: &Artifact) -> (r: String)
    ensures
        r@ == report_text(artifact.deep_view()),
{
    let ghost assets = artifact.deep_view().assets;
    let ghost sections = artifact.deep_view().items.map_values(
        |it: ItemV| item_text(it, assets),
    );
    let mut body = String::new();
    for i in 0..artifact.items.len()
        invariant
            assets == artifact.deep_view().assets,
            sections == artifact.deep_view().items.map_values(|it: ItemV| item_text(it, assets)),
            body@ == concat(sections.take(i as int)),
    {
        proof {
            lemma_concat_take(sections, i as int);
        }
        assert(artifact.deep_view().items[i as int] == artifact.items@[i as int].deep_view());
        let section = render_item(&artifact.items[i], &artifact.assets);
        assert(section@ == sections[i as int]);
        body.append(section.as_str());
    }
    assert(sections.take(sections.len() as int) =~= sections);
    let mut out = "# ".to_owned();
    out.append(artifact.source.as_str());
    out.append(" — ");
    out.append(artifact.target.as_str());
    out.append("\n\n_fetched_at: ");
    out.append(artifact.fetched_at.rfc3339_seconds().as_str());
    out.append("_\n");
    out.append(body.as_str());
    out
}

/// Whether the options ask for redaction: they do unless they say that they do
/// not.
pub open spec fn asks_redaction(options: JsonV) -> bool {
    bool_member(Some(options), "redact"@) != Some(false)
}

/// Whether the options ask for redaction.
pub fn redacts(options: &Json) -> (r: bool)
    ensures
        r == asks_redaction(options@),
{
    match get_bool(Some(options), "redact") {
        Some(b) => b,
        None => true,
    }
}

/// What a build writes: the report with its secrets masked, or as it is where the
/// options ask for that.
pub open spec fn built_text(a: ArtifactV, options: JsonV) -> Seq<char> {
    if asks_redaction(options) {
        redacted(report_text(a))
    } else {
        report_text(a)
    }
}

/// Unless the options turn it off, whatever still has the shape of a secret in a
/// built report is an assignment whose literal is the mask.
pub proof fn law_built_report_hides_secrets(a: ArtifactV, options: JsonV, x: Secret)
    requires
        asks_redaction(options),
        is_secret(built_text(a, options), x),
    ensures
        x.quote is Some,
        built_text(a, options).subrange(mask_from(x), mask_to(x)) == MASK@,
{
    law_no_secret_survives(report_text(a), x);
}

/// The summary of a build over `n` items.
pub open spec fn summary_text(n: nat) -> Seq<char> {
    "rendered "@ + decimal(n) + " item(s) to "@ + REPORT_FILENAME@
}

/// The deterministic Markdown builder.
#[derive(Default)]
pub struct MarkdownBuilder;

impl MarkdownBuilder {
    pub fn new() -> (r: MarkdownBuilder)
        ensures
            r == MarkdownBuilder,
    {
        MarkdownBuilder
    }

    pub fn name(&self) -> (r: &'static str)
        ensures
            r@ == "report-md"@,
    {
        "report-md"
    }

    /// What goes into the report file, and what the build reports, unless the
    /// build was cancelled. Secrets are masked as the report leaves the artifact,
    /// unless the options say otherwise.
    pub fn build(&self, artifact: &Artifact, options: &Json, cancelled: bool) -> (r: Result<
        (String, BuildOutput),
        BuildError,
    >)
        ensures
            if cancelled {
                r matches Err(BuildError::Cancelled)
            } else {
                r matches Ok((markdown, output)) && markdown@ == built_text(
                    artifact.deep_view(),
                    options@,
                ) && output.files.deep_view() == seq![REPORT_FILENAME@] && output.summary@
                    == summary_text(artifact.items@.len())
            },
    {
        if cancelled {
            return Err(BuildError::Cancelled);
        }
        let report = render(artifact);
        let markdown = if redacts(options) {
            Redactor::new().redact_owned(report.as_str())
        } else {
            report
        };
        let mut summary = "rendered ".to_owned();
        summary.append(decimal_usize(artifact.items.len()).as_str());
        summary.append(" item(s) to ");
        summary.append(REPORT_FILENAME);
        let mut files: Vec<String> = Vec::new();
        files.push(REPORT_FILENAME.to_owned());
        assert(files.deep_view() =~= seq![REPORT_FILENAME@]);
        Ok((markdown, BuildOutput { files, summary }))
    }
}

} // verus!
