//! The on-disk contract: [`Artifact`] and its parts.
//!
//! These typed fields are the seam between the scrape and build phases.
//! `schema_version` is bumped on any breaking change to them; readers reject
//! unknown majors.

use crate::json::{Json, JsonV};
use crate::time::Timestamp;
use vstd::prelude::*;

verus! {

/// Major version of the [`Artifact`] schema.
pub const ARTIFACT_SCHEMA_VERSION: u32 = 1;

/// The closed set of item shapes.
#[derive(Debug, Clone, Copy, PartialEq, Eq, Structural)]
pub enum ItemKind {
    Panel,
    Page,
    ApiResponse,
    Annotation,
    Alert,
    Log,
}

/// The name of a kind of item.
pub open spec fn kind_name(kind: ItemKind) -> Seq<char> {
    match kind {
        ItemKind::Panel => "Panel"@,
        ItemKind::Page => "Page"@,
        ItemKind::ApiResponse => "ApiResponse"@,
        ItemKind::Annotation => "Annotation"@,
        ItemKind::Alert => "Alert"@,
        ItemKind::Log => "Log"@,
    }
}

impl ItemKind {
    pub fn name(self) -> (r: &'static str)
        ensures
            r@ == kind_name(self),
    {
        match self {
            ItemKind::Panel => "Panel",
            ItemKind::Page => "Page",
            ItemKind::ApiResponse => "ApiResponse",
            ItemKind::Annotation => "Annotation",
            ItemKind::Alert => "Alert",
            ItemKind::Log => "Log",
        }
    }
}

/// One logical thing within an artifact (a panel, a page, ...).
#[derive(Debug, Clone)]
pub struct Item {
    /// Stable across re-scrapes of the same target.
    pub id: String,
    pub kind: ItemKind,
    pub title: Option<String>,
    /// Human-readable rendering.
    pub text: String,
    /// Structured payload, when available.
    pub data: Option<Json>,
    pub tags: Vec<String>,
}

/// The model of an [`Item`].
pub struct ItemV {
    pub id: Seq<char>,
    pub kind: ItemKind,
    pub title: Option<Seq<char>>,
    pub text: Seq<char>,
    pub data: Option<JsonV>,
    pub tags: Seq<Seq<char>>,
}

impl DeepView for Item {
    type V = ItemV;

    open spec fn deep_view(&self) -> ItemV {
        ItemV {
            id: self.id@,
            kind: self.kind,
            title: self.title.deep_view(),
            text: self.text@,
            data: self.data.deep_view(),
            tags: self.tags.deep_view(),
        }
    }
}

/// A binary or extra file living under the artifact's `assets/` directory.
#[derive(Debug, Clone)]
pub struct Asset {
    /// Path relative to the artifact directory.
    pub path: String,
    pub mime: String,
    pub label: String,
    /// The [`Item::id`] that the asset belongs to; `None` for whole-artifact
    /// assets. Builders merge by `item_id`, never by `label`.
    pub item_id: Option<String>,
}

/// The model of an [`Asset`].
pub struct AssetV {
    pub path: Seq<char>,
    pub mime: Seq<char>,
    pub label: Seq<char>,
    pub item_id: Option<Seq<char>>,
}

impl DeepView for Asset {
    type V = AssetV;

    open spec fn deep_view(&self) -> AssetV {
        AssetV {
            path: self.path@,
            mime: self.mime@,
            label: self.label@,
            item_id: self.item_id.deep_view(),
        }
    }
}

/// A single scraped snapshot of one `target` from one `source`.
#[derive(Debug, Clone)]
pub struct Artifact {
    /// Major schema version this artifact was written with.
    pub schema_version: u32,
    /// Logical source, such as `grafana`.
    pub source: String,
    /// What was scraped: a dashboard uid, URL, query, ...
    pub target: String,
    /// When the scrape completed.
    pub fetched_at: Timestamp,
    /// Structured, human-readable items.
    pub items: Vec<Item>,
    /// Binary or extra payloads; paths are relative to the artifact directory.
    pub assets: Vec<Asset>,
    /// Source-specific, best-effort metadata.
    pub meta: Json,
}

/// The model of an [`Artifact`].
pub struct ArtifactV {
    pub schema_version: u32,
    pub source: Seq<char>,
    pub target: Seq<char>,
    pub fetched_at: (i64, u32),
    pub items: Seq<ItemV>,
    pub assets: Seq<AssetV>,
    pub meta: JsonV,
}

impl DeepView for Artifact {
    type V = ArtifactV;

    open spec fn deep_view(&self) -> ArtifactV {
        ArtifactV {
            schema_version: self.schema_version,
            source: self.source@,
            target: self.target@,
            fetched_at: self.fetched_at@,
            items: self.items.deep_view(),
            assets: self.assets.deep_view(),
            meta: self.meta@,
        }
    }
}

impl Artifact {
    /// An artifact without content, stamped with the current schema version.
    pub fn new(source: &str, target: &str, fetched_at: Timestamp) -> (r: Artifact)
        ensures
            r.schema_version == ARTIFACT_SCHEMA_VERSION,
            r.source@ == source@,
            r.target@ == target@,
            r.fetched_at == fetched_at,
            r.items@.len() == 0,
            r.assets@.len() == 0,
            r.meta == Json::Null,
    {
        Artifact {
            schema_version: ARTIFACT_SCHEMA_VERSION,
            source: source.to_owned(),
            target: target.to_owned(),
            fetched_at,
            items: Vec::new(),
            assets: Vec::new(),
            meta: Json::Null,
        }
    }
}

/// What a builder produced.
#[derive(Debug, Clone)]
pub struct BuildOutput {
    /// Files written, relative to the artifact directory.
    pub files: Vec<String>,
    /// Short human-readable summary of the build.
    pub summary: String,
}

/// A unit of work for a scraper.
#[derive(Debug, Clone)]
pub struct ScrapeJob {
    /// Logical source name, matched against the registry.
    pub source: String,
    /// What to scrape: dashboard uid, URL, query, ...
    pub target: String,
    /// Allow-list of hosts; empty means that the operator did not opt in.
    pub allow_hosts: Vec<String>,
    /// Source-specific knobs, best-effort.
    pub options: Json,
}

/// Context handed to a builder.
#[derive(Debug, Clone)]
pub struct BuildCtx {
    /// Absolute path to the artifact directory the build writes into.
    pub artifact_dir: String,
    /// The selected per-dashboard artifact directories, for builders that
    /// render over several artifacts.
    pub dashboard_dirs: Vec<String>,
    /// Builder-specific knobs (skill id, model, store URL, ...).
    pub options: Json,
}

} // verus!
