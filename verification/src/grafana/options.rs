//! The knobs of a report.

use crate::json::{
    bool_member, get_bool, get_member, get_text, member, text_member, u64_of_json, Json, JsonV,
};
use crate::text::same;
use vstd::prelude::*;

verus! {

/// Filename written next to the sidecar's `latest`.
pub const REPORT_FILENAME: &'static str = "REPORT.md";

/// Default query window when data is on.
pub const DEFAULT_WINDOW: &'static str = "now-6h";

/// Report depth.
#[derive(Debug, Clone, Copy, PartialEq, Eq, Structural)]
pub enum Mode {
    Overview,
    Full,
    /// A table of findings instead of pages.
    Audit,
}

/// How a mode is written in a report.
pub open spec fn mode_name(mode: Mode) -> Seq<char> {
    match mode {
        Mode::Overview => "overview"@,
        Mode::Full => "full"@,
        Mode::Audit => "audit"@,
    }
}

/// The identifier of a mode.
pub open spec fn mode_identifier(mode: Mode) -> Seq<char> {
    match mode {
        Mode::Overview => "Overview"@,
        Mode::Full => "Full"@,
        Mode::Audit => "Audit"@,
    }
}

/// The depth that a text asks for; the overview where it asks for none.
pub open spec fn mode_of(s: Seq<char>) -> Mode {
    if s == "full"@ {
        Mode::Full
    } else {
        Mode::Overview
    }
}

impl Mode {
    /// Parse `--mode`: `overview` or `full`. Unknown values fall back to the
    /// overview rather than failing the build; an audit is asked for by
    /// [`Mode::Audit`] itself.
    pub fn parse(s: &str) -> (r: Mode)
        ensures
            r == mode_of(s@),
    {
        if same(s, "full") {
            Mode::Full
        } else {
            Mode::Overview
        }
    }

    pub fn name(self) -> (r: &'static str)
        ensures
            r@ == mode_name(self),
    {
        match self {
            Mode::Overview => "overview",
            Mode::Full => "full",
            Mode::Audit => "audit",
        }
    }

    pub(crate) fn identifier(self) -> (r: &'static str)
        ensures
            r@ == mode_identifier(self),
    {
        match self {
            Mode::Overview => "Overview",
            Mode::Full => "Full",
            Mode::Audit => "Audit",
        }
    }
}

/// Parsing the name of a depth, the overview or the full report, gives it back.
pub proof fn law_mode_names_parse(mode: Mode)
    requires
        mode != Mode::Audit,
    ensures
        mode_of(mode_name(mode)) == mode,
{
    reveal_strlit("overview");
    reveal_strlit("full");
    assert("overview"@.len() == 8);
    assert("full"@.len() == 4);
}

/// The rendering knobs resolved from the command line.
#[derive(Debug, Clone)]
pub struct ReportOptions {
    pub mode: Mode,
    /// Emit executed SQL and sample rows.
    pub data: bool,
    /// The window used when data is on.
    pub window: String,
    pub redact: bool,
}

/// The model of [`ReportOptions`].
pub struct ReportOptionsV {
    pub mode: Mode,
    pub data: bool,
    pub window: Seq<char>,
    pub redact: bool,
}

impl DeepView for ReportOptions {
    type V = ReportOptionsV;

    open spec fn deep_view(&self) -> ReportOptionsV {
        ReportOptionsV {
            mode: self.mode,
            data: self.data,
            window: self.window@,
            redact: self.redact,
        }
    }
}

impl Default for ReportOptions {
    fn default() -> (r: ReportOptions)
        ensures
            r.deep_view() == (ReportOptionsV {
                mode: Mode::Overview,
                data: false,
                window: DEFAULT_WINDOW@,
                redact: true,
            }),
    {
        ReportOptions {
            mode: Mode::Overview,
            data: false,
            window: DEFAULT_WINDOW.to_owned(),
            redact: true,
        }
    }
}

/// The report options of a JSON object; what it does not say is the default.
pub open spec fn options_of(opts: JsonV) -> ReportOptionsV {
    ReportOptionsV {
        mode: match text_member(Some(opts), "mode"@) {
            Some(s) => mode_of(s),
            None => Mode::Overview,
        },
        data: bool_member(Some(opts), "data"@) == Some(true),
        window: match text_member(Some(opts), "window"@) {
            Some(s) => s,
            None => DEFAULT_WINDOW@,
        },
        redact: bool_member(Some(opts), "redact"@) != Some(false),
    }
}

impl ReportOptions {
    /// Read the options out of a JSON object.
    pub fn from_options(opts: &Json) -> (r: ReportOptions)
        ensures
            r.deep_view() == options_of(opts@),
    {
        ReportOptions {
            mode: match get_text(Some(opts), "mode") {
                Some(s) => Mode::parse(s.as_str()),
                None => Mode::Overview,
            },
            data: match get_bool(Some(opts), "data") {
                Some(b) => b,
                None => false,
            },
            window: match get_text(Some(opts), "window") {
                Some(s) => s,
                None => DEFAULT_WINDOW.to_owned(),
            },
            redact: match get_bool(Some(opts), "redact") {
                Some(b) => b,
                None => true,
            },
        }
    }
}

/// The selection that a JSON object names, in words.
pub open spec fn scope_text(opts: JsonV) -> Seq<char> {
    match text_member(Some(opts), "scope"@) {
        Some(s) => s,
        None => "(scope unknown)"@,
    }
}

/// The count that a JSON object holds under `key`, else `default`.
pub open spec fn count_member(opts: JsonV, key: Seq<char>, default: usize) -> usize {
    match u64_of_json(member(Some(opts), key)) {
        Some(n) => n as usize,
        None => default,
    }
}

fn get_count(opts: &Json, key: &str, default: usize) -> (r: usize)
    ensures
        r == count_member(opts@, key@, default),
{
    match get_member(Some(opts), key) {
        Some(v) => match v.as_u64() {
            Some(n) => n as usize,
            None => default,
        },
        None => default,
    }
}

/// What a report covers.
pub struct ReportScope {
    /// The selection in words, such as `--all`.
    pub scope: String,
    pub inventory_total: usize,
    pub on_disk_total: usize,
}

impl ReportScope {
    /// Read the scope out of a JSON object, for a report over `dirs`
    /// dashboards.
    pub fn from_options(opts: &Json, dirs: usize) -> (r: ReportScope)
        ensures
            r.scope@ == scope_text(opts@),
            r.inventory_total == count_member(opts@, "inventory_total"@, 0),
            r.on_disk_total == count_member(opts@, "on_disk_total"@, dirs),
    {
        let scope = match get_text(Some(opts), "scope") {
            Some(s) => s,
            None => "(scope unknown)".to_owned(),
        };
        let inventory_total: usize = get_count(opts, "inventory_total", 0);
        let on_disk_total: usize = get_count(opts, "on_disk_total", dirs);
        ReportScope { scope, inventory_total, on_disk_total }
    }
}

} // verus!
