//! What the command line decides and prints.

use crate::artifact::{kind_name, Artifact, ArtifactV, BuildOutput, ItemV};
use crate::json::{Json, JsonMap, JsonV};
use crate::store::{ListEntry, ListEntryV};
use crate::text::{
    chars_of, concat, contains_text, decimal, decimal_u64, decimal_usize, lemma_concat_take, same,
};
use crate::time::{rfc3339_text, time_text, SECOND_FORMAT};
use vstd::prelude::*;

verus! {

/// The command line.
#[derive(Debug)]
pub struct Cli {
    pub command: Command,
}

/// What the command line asks for.
#[derive(Debug)]
#[allow(inconsistent_fields)]
pub enum Command {
    /// Scrape a source into an on-disk artifact.
    Scrape {
        /// Source name, e.g. `grafana` | `spider`.
        source: String,
        /// Artifact root.
        out: String,
        /// Source-specific flags.
        rest: Vec<String>,
    },
    /// Build a derived artifact from an existing scrape.
    Build {
        /// Builder name, e.g. `report-md` | `report-ai` | `vector`.
        builder: String,
        /// Artifact directory (accepts a `latest` symlink).
        artifact_dir: String,
        /// Builder-specific flags.
        rest: Vec<String>,
    },
    /// List artifacts by parsing directory names.
    Ls {
        source: Option<String>,
        /// Compact duration window, e.g. `24h`, `7d`.
        since: Option<String>,
        /// Artifact root.
        out: String,
    },
    /// Show a one-line-per-item summary of an artifact (no build).
    Show {
        /// Artifact directory (accepts a `latest` symlink).
        artifact_dir: String,
    },
}

/// The value that follows the first `flag` of `rest`.
pub open spec fn flag_value_of(rest: Seq<Seq<char>>, flag: Seq<char>) -> Option<Seq<char>>
    decreases rest.len(),
{
    if rest.len() == 0 {
        None
    } else if rest[0] == flag {
        if rest.len() > 1 {
            Some(rest[1])
        } else {
            None
        }
    } else {
        flag_value_of(rest.drop_first(), flag)
    }
}

/// Pull `--flag value` out of the trailing arguments.
pub fn flag_value(rest: &Vec<String>, flag: &str) -> (r: Option<String>)
    ensures
        r.deep_view() == flag_value_of(rest.deep_view(), flag@),
{
    let ghost all = rest.deep_view();
    assert(all.skip(0) =~= all);
    for i in 0..rest.len()
        invariant
            all == rest.deep_view(),
            flag_value_of(all, flag@) == flag_value_of(all.skip(i as int), flag@),
    {
        assert(all[i as int] == rest@[i as int]@);
        assert(all.skip(i as int).drop_first() =~= all.skip(i + 1));
        if same(rest[i].as_str(), flag) {
            if i + 1 < rest.len() {
                assert(all.skip(i as int)[1] == rest@[i + 1]@);
                return Some(rest[i + 1].clone());
            }
            return None;
        }
    }
    None
}

/// The options of a build: the model, where the arguments name one, and that
/// nothing is to be redacted, where they say so.
pub open spec fn build_options_of(rest: Seq<Seq<char>>) -> Seq<(Seq<char>, JsonV)> {
    let model = match flag_value_of(rest, "--model"@) {
        Some(m) => seq![("model"@, JsonV::Text(m))],
        None => Seq::empty(),
    };
    if rest.contains("--no-redact"@) {
        model.push(("redact"@, JsonV::Bool(false)))
    } else {
        model
    }
}

/// The options of a build: `--model` names the model, `--no-redact` turns
/// redaction off.
pub fn build_options(rest: &Vec<String>) -> (r: Json)
    ensures
        r@ == JsonV::Object(build_options_of(rest.deep_view())),
{
    let mut options = JsonMap::new();
    let model = flag_value(rest, "--model");
    let ghost named = model.deep_view();
    if let Some(m) = model {
        options.insert("model".to_owned(), Json::Text(m));
        assert(options@ =~= seq![("model"@, JsonV::Text(m@))]);
    }
    if contains_text(rest, "--no-redact") {
        let ghost before = options@;
        options.insert("redact".to_owned(), Json::Bool(false));
        proof {
            reveal_strlit("model");
            reveal_strlit("redact");
            assert("model"@[0] == 'm' && "redact"@[0] == 'r');
            assert(options@ =~= before.push(("redact"@, JsonV::Bool(false))));
        }
    }
    Json::Object(options)
}

/// The builders that `build` knows.
#[derive(Debug, Clone, Copy, PartialEq, Eq, Structural)]
pub enum BuilderKind {
    ReportMd,
    ReportAi,
}

/// The builder of a name.
pub open spec fn builder_of(name: Seq<char>) -> Option<BuilderKind> {
    if name == "report-md"@ {
        Some(BuilderKind::ReportMd)
    } else if name == "report-ai"@ {
        Some(BuilderKind::ReportAi)
    } else {
        None
    }
}

/// Find a builder by its name, or say which ones there are.
pub fn select_builder(name: &str) -> (r: Result<BuilderKind, String>)
    ensures
        match r {
            Ok(k) => builder_of(name@) == Some(k),
            Err(m) => builder_of(name@) is None && m@ == "build: unknown builder `"@ + name@
                + "` (expected report-md | report-ai)"@,
        },
{
    if same(name, "report-md") {
        Ok(BuilderKind::ReportMd)
    } else if same(name, "report-ai") {
        Ok(BuilderKind::ReportAi)
    } else {
        let mut m = "build: unknown builder `".to_owned();
        m.append(name);
        m.append("` (expected report-md | report-ai)");
        Err(m)
    }
}

/// The line on a source that cannot be scraped yet.
pub fn scrape_line(source: &str, out: &str) -> (r: String)
    ensures
        r@ == "scrape: source `"@ + source@ + "` is not yet implemented (out: "@ + out@ + ")"@,
{
    let mut s = "scrape: source `".to_owned();
    s.append(source);
    s.append("` is not yet implemented (out: ");
    s.append(out);
    s.append(")");
    s
}

/// `s` followed by spaces up to `width` characters.
pub open spec fn padded(s: Seq<char>, width: nat) -> Seq<char>
    decreases width - s.len(),
{
    if s.len() >= width {
        s
    } else {
        padded(s.push(' '), width)
    }
}

fn pad(s: &str, width: usize) -> (r: String)
    ensures
        r@ == padded(s@, width as nat),
{
    let mut n: usize = chars_of(s).len();
    let mut out = s.to_owned();
    while n < width
        invariant
            n == out@.len(),
            padded(s@, width as nat) == padded(out@, width as nat),
        decreases width - n,
    {
        out.push(' ');
        n = n + 1;
    }
    out
}

/// The line of an entry in a listing.
pub open spec fn entry_line_of(e: ListEntryV) -> Seq<char> {
    time_text(e.fetched_at.0, e.fetched_at.1, SECOND_FORMAT@) + "  "@ + padded(e.source, 10)
        + "  "@ + e.target
}

/// The line of an entry in a listing: when, from where, and what.
pub fn entry_line(entry: &ListEntry) -> (r: String)
    ensures
        r@ == entry_line_of(entry.deep_view()),
{
    let mut s = entry.fetched_at.format(SECOND_FORMAT);
    s.append("  ");
    s.append(pad(entry.source.as_str(), 10).as_str());
    s.append("  ");
    s.append(entry.target.as_str());
    s
}

/// A listing: a line for each entry.
pub open spec fn listing_text(entries: Seq<ListEntryV>) -> Seq<char> {
    if entries.len() == 0 {
        "no artifacts found\n"@
    } else {
        concat(entries.map_values(|e: ListEntryV| entry_line_of(e) + "\n"@))
    }
}

/// The listing of the entries.
pub fn listing(entries: &Vec<ListEntry>) -> (r: String)
    ensures
        r@ == listing_text(entries.deep_view()),
{
    assert(entries.deep_view().len() == entries@.len());
    if entries.len() == 0 {
        return "no artifacts found\n".to_owned();
    }
    let ghost lines = entries.deep_view().map_values(|e: ListEntryV| entry_line_of(e) + "\n"@);
    let mut out = String::new();
    for i in 0..entries.len()
        invariant
            lines == entries.deep_view().map_values(|e: ListEntryV| entry_line_of(e) + "\n"@),
            out@ == concat(lines.take(i as int)),
    {
        proof {
            lemma_concat_take(lines, i as int);
        }
        assert(entries.deep_view()[i as int] == entries@[i as int].deep_view());
        let mut line = entry_line(&entries[i]);
        line.append("\n");
        assert(line@ == lines[i as int]);
        out.append(line.as_str());
    }
    assert(lines.take(lines.len() as int) =~= lines);
    out
}

/// What is printed of a build: its summary, and a line for each file.
pub open spec fn built_text(summary: Seq<char>, files: Seq<Seq<char>>) -> Seq<char> {
    summary + "\n"@ + concat(files.map_values(|f: Seq<char>| "  wrote "@ + f + "\n"@))
}

/// What is printed of a build.
pub fn built(output: &BuildOutput) -> (r: String)
    ensures
        r@ == built_text(output.summary@, output.files.deep_view()),
{
    let ghost lines = output.files.deep_view().map_values(
        |f: Seq<char>| "  wrote "@ + f + "\n"@,
    );
    let mut body = String::new();
    for i in 0..output.files.len()
        invariant
            lines == output.files.deep_view().map_values(
                |f: Seq<char>| "  wrote "@ + f + "\n"@,
            ),
            body@ == concat(lines.take(i as int)),
    {
        proof {
            lemma_concat_take(lines, i as int);
        }
        assert(output.files.deep_view()[i as int] == output.files@[i as int]@);
        let mut line = "  wrote ".to_owned();
        line.append(output.files[i].as_str());
        line.append("\n");
        assert(line@ == lines[i as int]);
        body.append(line.as_str());
    }
    assert(lines.take(lines.len() as int) =~= lines);
    let mut out = output.summary.clone();
    out.append("\n");
    out.append(body.as_str());
    out
}

/// The line of an item.
pub open spec fn item_line(it: ItemV) -> Seq<char> {
    "  - ["@ + kind_name(it.kind) + "] "@ + it.id + " "@ + (match it.title {
        Some(t) => t,
        None => ""@,
    }) + "\n"@
}

/// The summary of an artifact, one line per item.
pub open spec fn show_text(a: ArtifactV) -> Seq<char> {
    "source:        "@ + a.source + "\ntarget:        "@ + a.target + "\nfetched_at:    "@
        + rfc3339_text(a.fetched_at.0, a.fetched_at.1) + "\nschema:        v"@ + decimal(
        a.schema_version as nat,
    ) + "\nitems:         "@ + decimal(a.items.len()) + "\nassets:        "@ + decimal(
        a.assets.len(),
    ) + "\n"@ + concat(a.items.map_values(|it: ItemV| item_line(it)))
}

/// The summary of an artifact.
pub fn show(artifact: &Artifact) -> (r: String)
    ensures
        r@ == show_text(artifact.deep_view()),
{
    let ghost lines = artifact.deep_view().items.map_values(|it: ItemV| item_line(it));
    let mut body = String::new();
    for i in 0..artifact.items.len()
        invariant
            lines == artifact.deep_view().items.map_values(|it: ItemV| item_line(it)),
            body@ == concat(lines.take(i as int)),
    {
        proof {
            lemma_concat_take(lines, i as int);
        }
        let it = &artifact.items[i];
        assert(artifact.deep_view().items[i as int] == it.deep_view());
        let mut line = "  - [".to_owned();
        line.append(it.kind.name());
        line.append("] ");
        line.append(it.id.as_str());
        line.append(" ");
        let title = match &it.title {
            Some(t) => t.as_str(),
            None => "",
        };
        line.append(title);
        line.append("\n");
        assert(line@ == lines[i as int]);
        body.append(line.as_str());
    }
    assert(lines.take(lines.len() as int) =~= lines);
    assert(artifact.items.deep_view().len() == artifact.items@.len());
    assert(artifact.assets.deep_view().len() == artifact.assets@.len());
    let mut out = "source:        ".to_owned();
    out.append(artifact.source.as_str());
    out.append("\ntarget:        ");
    out.append(artifact.target.as_str());
    out.append("\nfetched_at:    ");
    out.append(artifact.fetched_at.rfc3339().as_str());
    out.append("\nschema:        v");
    out.append(decimal_u64(artifact.schema_version as u64).as_str());
    out.append("\nitems:         ");
    out.append(decimal_usize(artifact.items.len()).as_str());
    out.append("\nassets:        ");
    out.append(decimal_usize(artifact.assets.len()).as_str());
    out.append("\n");
    out.append(body.as_str());
    out
}

} // verus!
