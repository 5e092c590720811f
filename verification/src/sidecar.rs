//! The per-instance sidecar and its resolved view.
//!
//! Instance-wide data is persisted once per scrape run, in a sidecar with a
//! per-host `latest` link; the reader falls back to a legacy artifact's
//! inventory only where there is no sidecar.

use crate::json::{Json, JsonV};
use crate::time::Timestamp;
use vstd::prelude::*;

verus! {

/// Major schema version of the instance sidecar.
pub const INSTANCE_SCHEMA_VERSION: u32 = 1;

/// Instance-wide facts, persisted once per scrape run. The four payload fields
/// carry whatever the corresponding endpoint returned.
#[derive(Debug, Clone)]
pub struct InstanceSidecar {
    /// Major schema version this sidecar was written with.
    pub schema_version: u32,
    /// The host this sidecar describes.
    pub host: String,
    /// When the sidecar was written.
    pub fetched_at: Timestamp,
    /// The inventory: title, uid, folder and tags per dashboard.
    pub search: Json,
    /// The datasources.
    pub datasources: Json,
    /// Version, edition, renderer availability.
    pub instance: Json,
    /// The folders.
    pub folders: Json,
}

/// The model of an [`InstanceSidecar`].
pub struct SidecarV {
    pub schema_version: u32,
    pub host: Seq<char>,
    pub fetched_at: (i64, u32),
    pub search: JsonV,
    pub datasources: JsonV,
    pub instance: JsonV,
    pub folders: JsonV,
}

impl DeepView for InstanceSidecar {
    type V = SidecarV;

    open spec fn deep_view(&self) -> SidecarV {
        SidecarV {
            schema_version: self.schema_version,
            host: self.host@,
            fetched_at: self.fetched_at@,
            search: self.search@,
            datasources: self.datasources@,
            instance: self.instance@,
            folders: self.folders@,
        }
    }
}

impl InstanceSidecar {
    /// A sidecar without payload, stamped with the current schema version.
    pub fn new(host: &str, fetched_at: Timestamp) -> (r: InstanceSidecar)
        ensures
            r.schema_version == INSTANCE_SCHEMA_VERSION,
            r.host@ == host@,
            r.fetched_at == fetched_at,
            r.search == Json::Null,
            r.datasources == Json::Null,
            r.instance == Json::Null,
            r.folders == Json::Null,
    {
        InstanceSidecar {
            schema_version: INSTANCE_SCHEMA_VERSION,
            host: host.to_owned(),
            fetched_at,
            search: Json::Null,
            datasources: Json::Null,
            instance: Json::Null,
            folders: Json::Null,
        }
    }
}

/// Where resolved facts came from.
#[derive(Debug, Clone, PartialEq, Eq)]
pub enum FactsOrigin {
    /// The sidecar, with the path of its file.
    Sidecar(String),
    /// A legacy artifact's inventory, with the path of its file.
    LegacyMeta(String),
}

/// The resolved view of one instance. From a legacy artifact only `search` is
/// there; the other fields are JSON `null`.
#[derive(Debug, Clone)]
pub struct InstanceFacts {
    pub host: String,
    pub search: Json,
    pub datasources: Json,
    pub instance: Json,
    pub folders: Json,
    pub origin: FactsOrigin,
}

impl InstanceFacts {
    pub(crate) fn from_sidecar(sidecar: InstanceSidecar, path: String) -> (r: InstanceFacts)
        ensures
            r == (InstanceFacts {
                host: sidecar.host,
                search: sidecar.search,
                datasources: sidecar.datasources,
                instance: sidecar.instance,
                folders: sidecar.folders,
                origin: FactsOrigin::Sidecar(path),
            }),
    {
        InstanceFacts {
            host: sidecar.host,
            search: sidecar.search,
            datasources: sidecar.datasources,
            instance: sidecar.instance,
            folders: sidecar.folders,
            origin: FactsOrigin::Sidecar(path),
        }
    }

    pub(crate) fn from_legacy_meta(host: String, search: Json, path: String) -> (r: InstanceFacts)
        ensures
            r == (InstanceFacts {
                host,
                search,
                datasources: Json::Null,
                instance: Json::Null,
                folders: Json::Null,
                origin: FactsOrigin::LegacyMeta(path),
            }),
    {
        InstanceFacts {
            host,
            search,
            datasources: Json::Null,
            instance: Json::Null,
            folders: Json::Null,
            origin: FactsOrigin::LegacyMeta(path),
        }
    }
}

} // verus!
