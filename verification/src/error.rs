//! Error types of the two phases and of the store.

use crate::text::decimal;
use vstd::prelude::*;

verus! {

/// Failure modes of the scrape phase.
#[derive(Debug)]
pub enum ScrapeError {
    Network(String),
    Auth(String),
    NotFound(String),
    /// Visual mode requires the image renderer plugin; it is absent.
    RendererPluginMissing,
    /// A URL was rejected by the allow-list.
    SsrfBlocked(String),
    /// The requested scrape mode is not implemented yet.
    ModeUnsupported(String),
    Cancelled,
    Other(String),
}

/// What a [`ScrapeError`] reads as.
pub open spec fn scrape_error_text(e: ScrapeError) -> Seq<char> {
    match e {
        ScrapeError::Network(s) => "network error: "@ + s@,
        ScrapeError::Auth(s) => "authentication failed: "@ + s@,
        ScrapeError::NotFound(s) => "target not found: "@ + s@,
        ScrapeError::RendererPluginMissing =>
            "grafana renderer plugin missing; install grafana-image-renderer or pass --visual-fallback chrome"@,
        ScrapeError::SsrfBlocked(s) => "host blocked by SSRF allow-list: "@ + s@,
        ScrapeError::ModeUnsupported(s) => "scrape mode unsupported: "@ + s@,
        ScrapeError::Cancelled => "scrape cancelled"@,
        ScrapeError::Other(s) => s@,
    }
}

/// `prefix` followed by `s`.
fn prefixed(prefix: &str, s: &str) -> (r: String)
    ensures
        r@ == prefix@ + s@,
{
    let mut out = prefix.to_owned();
    out.append(s);
    out
}

impl ScrapeError {
    pub fn message(&self) -> (r: String)
        ensures
            r@ == scrape_error_text(*self),
    {
        match self {
            ScrapeError::Network(s) => prefixed("network error: ", s.as_str()),
            ScrapeError::Auth(s) => prefixed("authentication failed: ", s.as_str()),
            ScrapeError::NotFound(s) => prefixed("target not found: ", s.as_str()),
            ScrapeError::RendererPluginMissing =>
                "grafana renderer plugin missing; install grafana-image-renderer or pass --visual-fallback chrome".to_owned(),
            ScrapeError::SsrfBlocked(s) => prefixed("host blocked by SSRF allow-list: ", s.as_str()),
            ScrapeError::ModeUnsupported(s) => prefixed("scrape mode unsupported: ", s.as_str()),
            ScrapeError::Cancelled => "scrape cancelled".to_owned(),
            ScrapeError::Other(s) => s.clone(),
        }
    }
}

/// Failure modes of the build phase.
#[derive(Debug)]
pub enum BuildError {
    Io(String),
    MissingSkill(String),
    Ai(String),
    Cancelled,
    Other(String),
}

/// What a [`BuildError`] reads as.
pub open spec fn build_error_text(e: BuildError) -> Seq<char> {
    match e {
        BuildError::Io(s) => "io error: "@ + s@,
        BuildError::MissingSkill(s) => "no skill resolved for this artifact: "@ + s@,
        BuildError::Ai(s) => "ai runner error: "@ + s@,
        BuildError::Cancelled => "build cancelled"@,
        BuildError::Other(s) => s@,
    }
}

impl BuildError {
    pub fn message(&self) -> (r: String)
        ensures
            r@ == build_error_text(*self),
    {
        match self {
            BuildError::Io(s) => prefixed("io error: ", s.as_str()),
            BuildError::MissingSkill(s) => prefixed(
                "no skill resolved for this artifact: ",
                s.as_str(),
            ),
            BuildError::Ai(s) => prefixed("ai runner error: ", s.as_str()),
            BuildError::Cancelled => "build cancelled".to_owned(),
            BuildError::Other(s) => s.clone(),
        }
    }
}

/// Failure modes of the artifact store.
#[derive(Debug)]
pub enum StoreError {
    /// Reading or writing failed, with what the system reported.
    Io(String),
    /// A file does not hold the expected JSON, with what the parser reported.
    Json(String),
    /// The artifact was written with a newer major schema.
    UnsupportedSchema { found: u32, supported: u32 },
    /// The instance sidecar was written with a newer major schema.
    UnsupportedInstanceSchema { found: u32, supported: u32 },
    /// Neither a sidecar nor a legacy artifact with an inventory was found.
    InstanceFactsUnavailable { host: String, uid: String },
    NotAnArtifact(String),
    BadDirName(String),
    BadSince(String),
}

/// What a [`StoreError`] reads as.
pub open spec fn store_error_text(e: StoreError) -> Seq<char> {
    match e {
        StoreError::Io(s) => "io error: "@ + s@,
        StoreError::Json(s) => "json error: "@ + s@,
        StoreError::UnsupportedSchema { found, supported } =>
            "unsupported artifact schema version "@ + decimal(found as nat)
                + "; this build supports up to "@ + decimal(supported as nat),
        StoreError::UnsupportedInstanceSchema { found, supported } =>
            "unsupported instance sidecar schema version "@ + decimal(found as nat)
                + "; this build supports up to "@ + decimal(supported as nat),
        StoreError::InstanceFactsUnavailable { host, uid } =>
            "no instance facts for host `"@ + host@
                + "`: no sidecar and no legacy artifact for uid `"@ + uid@ + "`"@,
        StoreError::NotAnArtifact(s) =>
            "not an artifact directory (missing artifact.json): "@ + s@,
        StoreError::BadDirName(s) => "malformed artifact directory name: "@ + s@,
        StoreError::BadSince(s) => "invalid --since duration: "@ + s@,
    }
}

impl StoreError {
    pub fn message(&self) -> (r: String)
        ensures
            r@ == store_error_text(*self),
    {
        match self {
            StoreError::Io(s) => prefixed("io error: ", s.as_str()),
            StoreError::Json(s) => prefixed("json error: ", s.as_str()),
            StoreError::UnsupportedSchema { found, supported } => {
                let mut r = "unsupported artifact schema version ".to_owned();
                r.append(crate::text::decimal_u64(*found as u64).as_str());
                r.append("; this build supports up to ");
                r.append(crate::text::decimal_u64(*supported as u64).as_str());
                r
            },
            StoreError::UnsupportedInstanceSchema { found, supported } => {
                let mut r = "unsupported instance sidecar schema version ".to_owned();
                r.append(crate::text::decimal_u64(*found as u64).as_str());
                r.append("; this build supports up to ");
                r.append(crate::text::decimal_u64(*supported as u64).as_str());
                r
            },
            StoreError::InstanceFactsUnavailable { host, uid } => {
                let mut r = "no instance facts for host `".to_owned();
                r.append(host.as_str());
                r.append("`: no sidecar and no legacy artifact for uid `");
                r.append(uid.as_str());
                r.append("`");
                r
            },
            StoreError::NotAnArtifact(s) => prefixed(
                "not an artifact directory (missing artifact.json): ",
                s.as_str(),
            ),
            StoreError::BadDirName(s) => prefixed(
                "malformed artifact directory name: ",
                s.as_str(),
            ),
            StoreError::BadSince(s) => prefixed("invalid --since duration: ", s.as_str()),
        }
    }
}

} // verus!
