//! The on-disk artifact store: its layout and its rules.
//!
//! ```text
//! <root>/
//! ├── <source>/<safe(target)>/latest -> ../../<dirname>
//! └── <dirname>/
//!     ├── artifact.json
//!     └── assets/
//! ```
//! where `<dirname>` is `<time>__<source>__<safe(target)>`. The directory name
//! is the only index.

use crate::artifact::{Artifact, ArtifactV, ARTIFACT_SCHEMA_VERSION};
use crate::collect::{collected, lemma_collected_step};
use crate::error::StoreError;
use crate::json::{member, Json, JsonV};
use crate::order::{
    ascending, lemma_ordered_ascending, lemma_ordered_map, ordered, sort, total_preorder,
};
use crate::path::{
    dir_of, followed, is_segment, join_path, joined, lemma_sibling, lemma_two_up,
};
use crate::sidecar::{
    FactsOrigin, InstanceFacts, InstanceSidecar, SidecarV, INSTANCE_SCHEMA_VERSION,
};
use crate::text::{chars_of, occurs, occurs_at, same, slice_text};
use crate::time::{
    parsed_time, starts_year, time_le, time_text, whole_seconds, Timestamp, DIR_TIME_FORMAT,
};
use vstd::prelude::*;

verus! {

pub const ARTIFACT_FILE: &'static str = "artifact.json";

pub const ASSETS_DIR: &'static str = "assets";

pub const LATEST: &'static str = "latest";

/// Directory under `<root>/<source>/` that holds per-host instance sidecars.
pub const INSTANCE_DIR: &'static str = "_instance";

pub const INSTANCE_FILE: &'static str = "instance.json";

// ---------------------------------------------------------------------------
// Safe segments
// ---------------------------------------------------------------------------

/// A character that may stand in a path segment.
pub open spec fn is_safe_char(c: char) -> bool {
    'A' <= c <= 'Z' || 'a' <= c <= 'z' || '0' <= c <= '9' || c == '.' || c == '_' || c == '-'
}

pub open spec fn safe_char(c: char) -> char {
    if is_safe_char(c) {
        c
    } else {
        '-'
    }
}

/// A text as a single path segment: every other character becomes `-`, and
/// nothing becomes `-` too.
pub open spec fn safe_text(target: Seq<char>) -> Seq<char> {
    if target.len() == 0 {
        seq!['-']
    } else {
        target.map_values(|c: char| safe_char(c))
    }
}

/// Sanitise a target into a single path segment: keep `[A-Za-z0-9._-]`, replace
/// everything else with `-`.
pub fn safe(target: &str) -> (r: String)
    ensures
        r@ == safe_text(target@),
{
    let v = chars_of(target);
    let mut s = String::new();
    for i in 0..v.len()
        invariant
            s@ == v@.take(i as int).map_values(|c: char| safe_char(c)),
    {
        let ghost before = s@;
        let c = v[i];
        if ('A' <= c && c <= 'Z') || ('a' <= c && c <= 'z') || ('0' <= c && c <= '9') || c == '.'
            || c == '_' || c == '-' {
            s.push(c);
        } else {
            s.push('-');
        }
        assert(s@ =~= v@.take(i + 1).map_values(|c: char| safe_char(c)));
    }
    assert(v@.take(v@.len() as int) =~= v@);
    if v.len() == 0 {
        s.push('-');
        assert(s@ =~= seq!['-']);
    }
    s
}

/// A safe segment is not empty and holds only safe characters, so no separator.
pub proof fn law_safe_is_a_segment(target: Seq<char>)
    ensures
        safe_text(target).len() > 0,
        forall|i: int|
            0 <= i < safe_text(target).len() ==> is_safe_char(#[trigger] safe_text(target)[i]),
{
}

/// Making a safe segment safe changes nothing.
pub proof fn law_safe_is_idempotent(target: Seq<char>)
    ensures
        safe_text(safe_text(target)) == safe_text(target),
{
    assert(safe_text(safe_text(target)) =~= safe_text(target));
}

// ---------------------------------------------------------------------------
// Directory names
// ---------------------------------------------------------------------------

/// The first `__` in `s` at or behind `from`.
pub open spec fn next_separator(s: Seq<char>, from: int) -> Option<int>
    decreases s.len() - from,
{
    if from < 0 || from + 2 > s.len() {
        None
    } else if s[from] == '_' && s[from + 1] == '_' {
        Some(from)
    } else {
        next_separator(s, from + 1)
    }
}

/// The directory name of an artifact.
pub open spec fn dir_name_text(t: (i64, u32), source: Seq<char>, target: Seq<char>) -> Seq<char> {
    time_text(t.0, t.1, DIR_TIME_FORMAT@) + "__"@ + source + "__"@ + safe_text(target)
}

/// What a directory name says: when, from where, and what was scraped. Names of
/// another shape say nothing.
pub open spec fn parsed_name(name: Seq<char>) -> Option<((i64, u32), Seq<char>, Seq<char>)> {
    match next_separator(name, 0) {
        Some(i) => {
            let rest = name.skip(i + 2);
            match next_separator(rest, 0) {
                Some(j) => {
                    let source = rest.take(j);
                    let target = rest.skip(j + 2);
                    if source.len() == 0 || target.len() == 0 {
                        None
                    } else {
                        match parsed_time(name.take(i), DIR_TIME_FORMAT@) {
                            Some(t) => Some((t, source, target)),
                            None => None,
                        }
                    }
                },
                None => None,
            }
        },
        None => None,
    }
}

/// A source that a directory name keeps apart from what stands around it.
pub open spec fn plain_source(source: Seq<char>) -> bool {
    &&& source.len() > 0
    &&& source.last() != '_'
    &&& !occurs(source, "__"@)
}

pub proof fn lemma_next_separator(s: Seq<char>, from: int, k: int)
    requires
        0 <= from <= k,
        k + 2 <= s.len(),
        s[k] == '_' && s[k + 1] == '_',
        forall|i: int| from <= i < k ==> !(#[trigger] s[i] == '_' && s[i + 1] == '_'),
    ensures
        next_separator(s, from) == Some(k),
    decreases k - from,
{
    if from < k {
        assert(!(s[from] == '_' && s[from + 1] == '_'));
        lemma_next_separator(s, from + 1, k);
    }
}

/// A directory name says what it was made from, to the second, with the target
/// made safe.
pub proof fn lemma_name_reads_back(
    ts: Seq<char>,
    source: Seq<char>,
    target: Seq<char>,
    t: (i64, u32),
)
    requires
        !ts.contains('_'),
        parsed_time(ts, DIR_TIME_FORMAT@) == Some(t),
        plain_source(source),
        target.len() > 0,
    ensures
        parsed_name(ts + "__"@ + source + "__"@ + target) == Some((t, source, target)),
{
    reveal_strlit("__");
    let name = ts + "__"@ + source + "__"@ + target;
    assert(name.len() == ts.len() + 2 + source.len() + 2 + target.len());
    let i = ts.len() as int;
    assert forall|k: int| 0 <= k < i implies !(#[trigger] name[k] == '_' && name[k + 1] == '_') by {
        assert(name[k] == ts[k]);
        assert(ts.contains(ts[k]));
    }
    assert(name[i] == "__"@[0] && name[i + 1] == "__"@[1]);
    lemma_next_separator(name, 0, i);
    let rest = name.skip(i + 2);
    assert(rest =~= source + "__"@ + target);
    let j = source.len() as int;
    assert forall|k: int| 0 <= k < j implies !(#[trigger] rest[k] == '_' && rest[k + 1] == '_') by {
        assert(rest[k] == source[k]);
        if k == j - 1 {
            assert(source.last() != '_');
        } else {
            assert(rest[k + 1] == source[k + 1]);
            if source[k] == '_' && source[k + 1] == '_' {
                assert(source.subrange(k, k + 2) =~= "__"@);
                assert(occurs_at(source, "__"@, k));
            }
        }
    }
    assert(rest[j] == "__"@[0] && rest[j + 1] == "__"@[1]);
    lemma_next_separator(rest, 0, j);
    assert(rest.take(j) =~= source);
    assert(rest.skip(j + 2) =~= target);
    assert(name.take(i) =~= ts);
}

/// The time in a directory name is read back to the second.
pub open spec fn name_tells_time(t: (i64, u32)) -> bool {
    parsed_time(time_text(t.0, t.1, DIR_TIME_FORMAT@), DIR_TIME_FORMAT@) == Some(whole_seconds(t))
}

/// The directory name of an artifact. Parsing it gives back the time to the
/// second, the source and the safe target, unless the source itself holds a
/// separator or ends in an underscore.
pub fn dir_name(fetched_at: Timestamp, source: &str, target: &str) -> (r: String)
    ensures
        r@ == dir_name_text(fetched_at@, source@, target@),
        starts_year(r@),
        !source@.contains('/') ==> !r@.contains('/'),
        name_tells_time(fetched_at@),
        plain_source(source@) ==> parsed_name(r@) == Some(
            (whole_seconds(fetched_at@), source@, safe_text(target@)),
        ),
{
    let ts = fetched_at.format(DIR_TIME_FORMAT);
    let segment = safe(target);
    proof {
        if plain_source(source@) {
            lemma_name_reads_back(ts@, source@, segment@, whole_seconds(fetched_at@));
        }
    }
    let mut out = ts;
    out.append("__");
    out.append(source);
    out.append("__");
    out.append(segment.as_str());
    proof {
        if !source@.contains('/') {
            reveal_strlit("__");
            law_safe_is_a_segment(target@);
            assert forall|i: int| 0 <= i < out@.len() implies #[trigger] out@[i] != '/' by {
                let a = ts@.len() as int;
                let b = a + 2 + source@.len();
                if i < a {
                    assert(ts@.contains(ts@[i]));
                } else if a + 2 <= i < b {
                    assert(source@.contains(source@[i - a - 2]));
                } else if i >= b + 2 {
                    assert(is_safe_char(segment@[i - b - 2]));
                }
            }
        }
    }
    out
}

fn find_separator(v: &Vec<char>, from: usize) -> (r: Option<usize>)
    requires
        from <= v@.len(),
    ensures
        match r {
            Some(k) => next_separator(v@, from as int) == Some(k as int) && from <= k && k + 2
                <= v.len(),
            None => next_separator(v@, from as int) is None,
        },
{
    let mut k: usize = from;
    while k < v.len() && v.len() - k >= 2
        invariant
            from <= k <= v@.len(),
            next_separator(v@, from as int) == next_separator(v@, k as int),
        decreases v@.len() - k,
    {
        if v[k] == '_' && v[k + 1] == '_' {
            return Some(k);
        }
        k = k + 1;
    }
    None
}

/// One entry discovered by scanning the store, parsed from its directory name.
#[derive(Debug, Clone)]
pub struct ListEntry {
    pub dir: String,
    pub fetched_at: Timestamp,
    pub source: String,
    pub target: String,
}

/// The model of a [`ListEntry`].
pub struct ListEntryV {
    pub dir: Seq<char>,
    pub fetched_at: (i64, u32),
    pub source: Seq<char>,
    pub target: Seq<char>,
}

impl DeepView for ListEntry {
    type V = ListEntryV;

    open spec fn deep_view(&self) -> ListEntryV {
        ListEntryV {
            dir: self.dir@,
            fetched_at: self.fetched_at@,
            source: self.source@,
            target: self.target@,
        }
    }
}

/// The entry of a directory.
pub open spec fn entry_of(name: Seq<char>, dir: Seq<char>) -> Option<ListEntryV> {
    match parsed_name(name) {
        Some((fetched_at, source, target)) => Some(
            ListEntryV { dir, fetched_at, source, target },
        ),
        None => None,
    }
}

/// Parse a directory name back into a [`ListEntry`]. `None` for names of another
/// shape, so stray directories are skipped rather than failing the scan.
pub fn parse_dir_name(name: &str, dir: &str) -> (r: Option<ListEntry>)
    ensures
        r.deep_view() == entry_of(name@, dir@),
{
    let v = chars_of(name);
    let i: usize = match find_separator(&v, 0) {
        Some(i) => i,
        None => return None,
    };
    let rest_text = slice_text(&v, i + 2, v.len());
    let rest = chars_of(rest_text.as_str());
    assert(rest@ =~= name@.skip(i + 2));
    let j: usize = match find_separator(&rest, 0) {
        Some(j) => j,
        None => return None,
    };
    let source = slice_text(&rest, 0, j);
    let target = slice_text(&rest, j + 2, rest.len());
    assert(source@ =~= rest@.take(j as int));
    assert(target@ =~= rest@.skip(j + 2));
    if j == 0 || j + 2 == rest.len() {
        return None;
    }
    let ts = slice_text(&v, 0, i);
    assert(ts@ =~= name@.take(i as int));
    match Timestamp::parse(ts.as_str(), DIR_TIME_FORMAT) {
        Some(fetched_at) => Some(ListEntry { dir: dir.to_owned(), fetched_at, source, target }),
        None => None,
    }
}


// ---------------------------------------------------------------------------
// The store
// ---------------------------------------------------------------------------

/// Something in the root of a store.
#[derive(Debug, Clone)]
pub struct RootEntry {
    pub name: String,
    pub is_dir: bool,
}

impl DeepView for RootEntry {
    type V = (Seq<char>, bool);

    open spec fn deep_view(&self) -> (Seq<char>, bool) {
        (self.name@, self.is_dir)
    }
}

/// What came of reading the root of a store.
#[derive(Debug, Clone)]
pub enum RootRead {
    /// There is no such directory.
    Missing,
    Failed(String),
    Entries(Vec<RootEntry>),
}

/// The name of an entry that is a directory.
pub open spec fn dir_entry(e: (Seq<char>, bool)) -> Option<Seq<char>> {
    if e.1 {
        Some(e.0)
    } else {
        None
    }
}

/// The names of the entries that are directories.
pub open spec fn dir_names(entries: Seq<(Seq<char>, bool)>) -> Seq<Seq<char>> {
    collected(entries, |e: (Seq<char>, bool)| dir_entry(e))
}

fn directories(entries: &Vec<RootEntry>) -> (r: Vec<String>)
    ensures
        r.deep_view() == dir_names(entries.deep_view()),
{
    let ghost all = entries.deep_view();
    let ghost f = |e: (Seq<char>, bool)| dir_entry(e);
    let mut r: Vec<String> = Vec::new();
    for i in 0..entries.len()
        invariant
            all == entries.deep_view(),
            f == (|e: (Seq<char>, bool)| dir_entry(e)),
            r.deep_view() == collected(all.take(i as int), f),
    {
        proof {
            lemma_collected_step(all, f, i as int);
        }
        let ghost before = r.deep_view();
        assert(all[i as int] == entries@[i as int].deep_view());
        if entries[i].is_dir {
            let name = entries[i].name.clone();
            r.push(name);
            assert(r.deep_view() =~= before.push(name@));
        }
        assert(r.deep_view() =~= collected(all.take(i + 1), f));
    }
    assert(all.take(all.len() as int) =~= all);
    r
}

/// The artifact store rooted at a single directory.
#[derive(Debug, Clone)]
pub struct ArtifactStore {
    root: String,
}

impl View for ArtifactStore {
    type V = Seq<char>;

    closed spec fn view(&self) -> Seq<char> {
        self.root@
    }
}

/// The `latest` link of a target.
pub open spec fn latest_link_of(root: Seq<char>, source: Seq<char>, target: Seq<char>) -> Seq<
    char,
> {
    joined(joined(joined(root, source), safe_text(target)), LATEST@)
}

/// The directory of a host's instance sidecars.
pub open spec fn instance_host_dir_of(root: Seq<char>, source: Seq<char>, host: Seq<char>) -> Seq<
    char,
> {
    joined(joined(joined(root, source), INSTANCE_DIR@), safe_text(host))
}

/// The `latest` link of a host's instance sidecars.
pub open spec fn instance_link_of(root: Seq<char>, source: Seq<char>, host: Seq<char>) -> Seq<
    char,
> {
    joined(instance_host_dir_of(root, source, host), LATEST@)
}

/// The file of a host's latest instance sidecar.
pub open spec fn instance_file_of(root: Seq<char>, source: Seq<char>, host: Seq<char>) -> Seq<
    char,
> {
    joined(instance_link_of(root, source, host), INSTANCE_FILE@)
}

/// What writing an artifact does: the directories to create, the file to write,
/// and the link to point at the new directory.
pub struct WritePlan {
    /// The new directory.
    pub dir: String,
    /// Its directory for assets, where it has one.
    pub assets_dir: Option<String>,
    /// The file that holds the payload.
    pub file: String,
    /// The `latest` link.
    pub link: String,
    /// What the link points at, relative to its own directory.
    pub link_target: String,
}

/// The directory name of an instance sidecar.
pub open spec fn sidecar_name_text(t: (i64, u32)) -> Seq<char> {
    time_text(t.0, t.1, DIR_TIME_FORMAT@) + "__instance"@
}

/// `r` is how to write the sidecar `s` of a source into a store at `root`.
pub open spec fn is_sidecar_plan(
    root: Seq<char>,
    source: Seq<char>,
    s: SidecarV,
    r: WritePlan,
) -> bool {
    let base = instance_host_dir_of(root, source, s.host);
    let name = sidecar_name_text(s.fetched_at);
    &&& r.dir@ == joined(base, name)
    &&& r.assets_dir is None
    &&& r.file@ == joined(r.dir@, INSTANCE_FILE@)
    &&& r.link@ == instance_link_of(root, source, s.host)
    &&& r.link_target@ == name
    &&& starts_year(name)
    &&& name_tells_time(s.fetched_at)
    &&& !name.contains('/')
    &&& followed(dir_of(r.link@), r.link_target@) == r.dir@
}

/// `r` is how to write the artifact `a` into a store at `root`.
pub open spec fn is_plan(root: Seq<char>, a: ArtifactV, r: WritePlan) -> bool {
    let name = dir_name_text(a.fetched_at, a.source, a.target);
    &&& r.dir@ == joined(root, name)
    &&& r.assets_dir.deep_view() == Some(joined(r.dir@, ASSETS_DIR@))
    &&& r.file@ == joined(r.dir@, ARTIFACT_FILE@)
    &&& r.link@ == latest_link_of(root, a.source, a.target)
    &&& r.link_target@ == joined("../.."@, name)
    &&& starts_year(name)
    &&& name_tells_time(a.fetched_at)
    &&& !a.source.contains('/') ==> !name.contains('/')
    &&& is_segment(a.source) && is_segment(safe_text(a.target)) ==> followed(
        dir_of(r.link@),
        r.link_target@,
    ) == r.dir@
    &&& plain_source(a.source) ==> listed(root, name, None, None) == Some(
        ListEntryV {
            dir: r.dir@,
            fetched_at: whole_seconds(a.fetched_at),
            source: a.source,
            target: safe_text(a.target),
        },
    )
}

/// An entry that a listing keeps: of the source asked for, and not older than
/// the cutoff.
pub open spec fn listed(
    root: Seq<char>,
    name: Seq<char>,
    source: Option<Seq<char>>,
    since: Option<(i64, u32)>,
) -> Option<ListEntryV> {
    match entry_of(name, joined(root, name)) {
        Some(e) => if (source matches Some(s) ==> e.source == s) && (since matches Some(cut)
            ==> time_le(cut, e.fetched_at)) {
            Some(e)
        } else {
            None
        },
        None => None,
    }
}

pub open spec fn newest_first() -> spec_fn(ListEntryV, ListEntryV) -> bool {
    |a: ListEntryV, b: ListEntryV| time_le(b.fetched_at, a.fetched_at)
}

/// The listing of a store with the directories `names`.
pub open spec fn listing(
    root: Seq<char>,
    names: Seq<Seq<char>>,
    source: Option<Seq<char>>,
    since: Option<(i64, u32)>,
) -> Seq<ListEntryV> {
    ordered(collected(names, |n: Seq<char>| listed(root, n, source, since)), newest_first())
}

/// The model of an optional cutoff.
pub open spec fn opt_time(t: Option<Timestamp>) -> Option<(i64, u32)> {
    match t {
        Some(x) => Some(x@),
        None => None,
    }
}

/// A listing holds the entry of every directory that is to be listed, and nothing
/// else.
pub proof fn law_listing_is_complete(
    root: Seq<char>,
    names: Seq<Seq<char>>,
    source: Option<Seq<char>>,
    since: Option<(i64, u32)>,
    e: ListEntryV,
)
    ensures
        listing(root, names, source, since).contains(e) <==> exists|i: int|
            0 <= i < names.len() && listed(root, #[trigger] names[i], source, since) == Some(e),
{
    broadcast use vstd::seq_lib::group_to_multiset_ensures;

    let f = |n: Seq<char>| listed(root, n, source, since);
    let found = collected(names, f);
    let r = listing(root, names, source, since);
    crate::order::lemma_ordered_multiset(found, newest_first());
    assert(r.to_multiset().count(e) > 0 <==> r.contains(e));
    assert(found.to_multiset().count(e) > 0 <==> found.contains(e));
    if found.contains(e) {
        let i = crate::collect::lemma_collected_from(names, f, e);
        assert(listed(root, names[i], source, since) == Some(e));
    }
    if exists|i: int|
        0 <= i < names.len() && listed(root, #[trigger] names[i], source, since) == Some(e) {
        let i = choose|i: int|
            0 <= i < names.len() && listed(root, #[trigger] names[i], source, since) == Some(e);
        crate::collect::lemma_collected_has(names, f, i);
    }
}

/// A listing stands newest first, and holds only entries of the source asked for
/// that are not older than the cutoff.
pub proof fn law_listing_is_filtered_and_ordered(
    root: Seq<char>,
    names: Seq<Seq<char>>,
    source: Option<Seq<char>>,
    since: Option<(i64, u32)>,
)
    ensures
        ascending(listing(root, names, source, since), newest_first()),
        forall|i: int|
            0 <= i < listing(root, names, source, since).len() ==> {
                let e = #[trigger] listing(root, names, source, since)[i];
                &&& source matches Some(s) ==> e.source == s
                &&& since matches Some(cut) ==> time_le(cut, e.fetched_at)
            },
{
    let f = |n: Seq<char>| listed(root, n, source, since);
    let found = collected(names, f);
    assert(total_preorder(newest_first()));
    lemma_ordered_ascending(found, newest_first());
    let p = |e: ListEntryV|
        (source matches Some(s) ==> e.source == s) && (since matches Some(cut) ==> time_le(
            cut,
            e.fetched_at,
        ));
    assert forall|i: int| 0 <= i < found.len() implies p(#[trigger] found[i]) by {
        assert(found.contains(found[i]));
        let k = crate::collect::lemma_collected_from(names, f, found[i]);
    }
    crate::order::lemma_ordered_keeps(found, newest_first(), p);
    assert forall|i: int| 0 <= i < listing(root, names, source, since).len() implies p(
        #[trigger] listing(root, names, source, since)[i],
    ) by {}
}

fn entry_before(a: &ListEntry, b: &ListEntry) -> (c: bool)
    ensures
        c == time_le(b.fetched_at@, a.fetched_at@),
{
    b.fetched_at.le(&a.fetched_at)
}

impl ArtifactStore {
    pub fn new(root: &str) -> (r: ArtifactStore)
        ensures
            r@ == root@,
    {
        ArtifactStore { root: root.to_owned() }
    }

    pub fn root(&self) -> (r: &str)
        ensures
            r@ == self@,
    {
        self.root.as_str()
    }

    /// Path of the per-target `latest` link.
    pub fn latest_link(&self, source: &str, target: &str) -> (r: String)
        ensures
            r@ == latest_link_of(self@, source@, target@),
    {
        let dir = join_path(self.root.as_str(), source);
        let dir = join_path(dir.as_str(), safe(target).as_str());
        join_path(dir.as_str(), LATEST)
    }

    fn instance_host_dir(&self, source: &str, host: &str) -> (r: String)
        ensures
            r@ == instance_host_dir_of(self@, source@, host@),
    {
        let dir = join_path(self.root.as_str(), source);
        let dir = join_path(dir.as_str(), INSTANCE_DIR);
        join_path(dir.as_str(), safe(host).as_str())
    }

    /// Path of the per-host `latest` link of the instance sidecars.
    pub fn instance_latest_link(&self, source: &str, host: &str) -> (r: String)
        ensures
            r@ == instance_link_of(self@, source@, host@),
    {
        let dir = self.instance_host_dir(source, host);
        join_path(dir.as_str(), LATEST)
    }

    /// Path of the file of a host's latest instance sidecar.
    pub fn instance_file(&self, source: &str, host: &str) -> (r: String)
        ensures
            r@ == instance_file_of(self@, source@, host@),
    {
        let link = self.instance_latest_link(source, host);
        join_path(link.as_str(), INSTANCE_FILE)
    }

    /// How to write an artifact: into a fresh directory of its own, with a
    /// directory for assets, and with the target's `latest` link pointing at it
    /// from two levels down. A listing finds it by the name of its directory,
    /// unless its source runs into the separator there. Where source and target
    /// are single segments, the link leads to it.
    pub fn write(&self, artifact: &Artifact) -> (r: WritePlan)
        ensures
            is_plan(self@, artifact.deep_view(), r),
    {
        let name = dir_name(
            artifact.fetched_at,
            artifact.source.as_str(),
            artifact.target.as_str(),
        );
        let dir = join_path(self.root.as_str(), name.as_str());
        proof {
            if is_segment(artifact.source@) && is_segment(safe_text(artifact.target@)) {
                reveal_strlit("latest");
                lemma_two_up(
                    self@,
                    artifact.source@,
                    safe_text(artifact.target@),
                    LATEST@,
                    name@,
                );
            }
        }
        WritePlan {
            assets_dir: Some(join_path(dir.as_str(), ASSETS_DIR)),
            file: join_path(dir.as_str(), ARTIFACT_FILE),
            dir,
            link: self.latest_link(artifact.source.as_str(), artifact.target.as_str()),
            link_target: join_path("../..", name.as_str()),
        }
    }

    /// How to write an instance sidecar: into a fresh directory under the host's
    /// own, with that host's `latest` link, a sibling, leading to it.
    pub fn write_instance(&self, source: &str, sidecar: &InstanceSidecar) -> (r: WritePlan)
        ensures
            is_sidecar_plan(self@, source@, sidecar.deep_view(), r),
    {
        let base = self.instance_host_dir(source, sidecar.host.as_str());
        let time = sidecar.fetched_at.format(DIR_TIME_FORMAT);
        let ghost ts = time@;
        let mut name = time;
        name.append("__instance");
        proof {
            reveal_strlit("__instance");
            assert forall|i: int| 0 <= i < name@.len() implies #[trigger] name@[i] != '/' by {
                if i < ts.len() {
                    assert(ts.contains(ts[i]));
                } else {
                    assert(name@[i] == "__instance"@[i - ts.len()]);
                }
            }
        }
        let dir = join_path(base.as_str(), name.as_str());
        proof {
            reveal_strlit("latest");
            lemma_sibling(base@, LATEST@, name@);
        }
        WritePlan {
            assets_dir: None,
            file: join_path(dir.as_str(), INSTANCE_FILE),
            dir,
            link: join_path(base.as_str(), LATEST),
            link_target: name,
        }
    }

    /// Scan what is in the root for artifact directories, filtered by `source` and
    /// by a `since` cutoff, newest first. A store that does not exist yet lists as
    /// nothing.
    pub fn list(
        &self,
        read: RootRead,
        source: Option<&str>,
        since: Option<Timestamp>,
    ) -> (r: Result<Vec<ListEntry>, StoreError>)
        ensures
            match read {
                RootRead::Missing => r matches Ok(es) && es.deep_view() == Seq::<
                    ListEntryV,
                >::empty(),
                RootRead::Failed(e) => r == Err::<Vec<ListEntry>, StoreError>(StoreError::Io(e)),
                RootRead::Entries(found) => r matches Ok(es) && es.deep_view() == listing(
                    self@,
                    dir_names(found.deep_view()),
                    crate::json::opt_text(source),
                    opt_time(since),
                ),
            },
    {
        match read {
            RootRead::Missing => {
                let none: Vec<ListEntry> = Vec::new();
                assert(none.deep_view() =~= Seq::<ListEntryV>::empty());
                Ok(none)
            },
            RootRead::Failed(e) => Err(StoreError::Io(e)),
            RootRead::Entries(found) => {
                let names = directories(&found);
                Ok(self.list_names(&names, source, since))
            },
        }
    }

    /// The artifact directories among the directories `names` of the root.
    fn list_names(
        &self,
        names: &Vec<String>,
        source: Option<&str>,
        since: Option<Timestamp>,
    ) -> (r: Vec<ListEntry>)
        ensures
            r.deep_view() == listing(
                self@,
                names.deep_view(),
                crate::json::opt_text(source),
                opt_time(since),
            ),
    {
        let ghost root = self@;
        let ghost src = crate::json::opt_text(source);
        let ghost cut = opt_time(since);
        let ghost all = names.deep_view();
        let ghost f = |n: Seq<char>| listed(root, n, src, cut);
        let mut out: Vec<ListEntry> = Vec::new();
        for i in 0..names.len()
            invariant
                root == self@,
                src == crate::json::opt_text(source),
                cut == opt_time(since),
                all == names.deep_view(),
                f == (|n: Seq<char>| listed(root, n, src, cut)),
                out.deep_view() == collected(all.take(i as int), f),
        {
            proof {
                lemma_collected_step(all, f, i as int);
            }
            let ghost before = out.deep_view();
            assert(all[i as int] == names@[i as int]@);
            let dir = join_path(self.root.as_str(), names[i].as_str());
            if let Some(entry) = parse_dir_name(names[i].as_str(), dir.as_str()) {
                let source_fits = match source {
                    Some(s) => same(entry.source.as_str(), s),
                    None => true,
                };
                let time_fits = match since {
                    Some(c) => c.le(&entry.fetched_at),
                    None => true,
                };
                if source_fits && time_fits {
                    out.push(entry);
                    assert(out.deep_view() =~= before.push(entry.deep_view()));
                }
            }
            assert(out.deep_view() =~= collected(all.take(i + 1), f));
        }
        assert(all.take(all.len() as int) =~= all);
        let ghost leq = |a: ListEntry, b: ListEntry| time_le(b.fetched_at@, a.fetched_at@);
        let ghost found = out;
        let sorted = sort(out, entry_before, Ghost(leq));
        proof {
            let view = |e: ListEntry| e.deep_view();
            lemma_ordered_map(found@, leq, view, newest_first());
            assert(sorted.deep_view() =~= sorted@.map_values(view));
            assert(found.deep_view() =~= found@.map_values(view));
        }
        sorted
    }
}

// ---------------------------------------------------------------------------
// Reading
// ---------------------------------------------------------------------------

/// What came of reading and parsing a file.
pub enum FileRead<T> {
    /// There is no such file.
    Missing,
    /// It cannot be read, with what the system reported.
    Failed(String),
    /// It does not hold what was expected, with what the parser reported.
    Malformed(String),
    Parsed(T),
}

/// The file that a read of the artifact in `dir` opens.
pub fn artifact_file(dir: &str) -> (r: String)
    ensures
        r@ == joined(dir@, ARTIFACT_FILE@),
{
    join_path(dir, ARTIFACT_FILE)
}

/// `r` is what comes of reading the artifact in `dir`: newer schema versions are
/// rejected.
pub open spec fn is_read(
    dir: Seq<char>,
    read: FileRead<Artifact>,
    r: Result<Artifact, StoreError>,
) -> bool {
    match read {
        FileRead::Missing => r matches Err(StoreError::NotAnArtifact(d)) && d@ == dir,
        FileRead::Failed(e) => r == Err::<Artifact, StoreError>(StoreError::Io(e)),
        FileRead::Malformed(e) => r == Err::<Artifact, StoreError>(StoreError::Json(e)),
        FileRead::Parsed(a) => if a.schema_version > ARTIFACT_SCHEMA_VERSION {
            r == Err::<Artifact, StoreError>(
                StoreError::UnsupportedSchema {
                    found: a.schema_version,
                    supported: ARTIFACT_SCHEMA_VERSION,
                },
            )
        } else {
            r == Ok::<Artifact, StoreError>(a)
        },
    }
}

/// `r` is what comes of reading an instance sidecar: newer schema versions are
/// rejected.
pub open spec fn is_sidecar_read(
    read: FileRead<InstanceSidecar>,
    r: Result<Option<InstanceSidecar>, StoreError>,
) -> bool {
    match read {
        FileRead::Missing => r == Ok::<Option<InstanceSidecar>, StoreError>(None),
        FileRead::Failed(e) => r == Err::<Option<InstanceSidecar>, StoreError>(StoreError::Io(e)),
        FileRead::Malformed(e) => r == Err::<Option<InstanceSidecar>, StoreError>(
            StoreError::Json(e),
        ),
        FileRead::Parsed(s) => if s.schema_version > INSTANCE_SCHEMA_VERSION {
            r == Err::<Option<InstanceSidecar>, StoreError>(
                StoreError::UnsupportedInstanceSchema {
                    found: s.schema_version,
                    supported: INSTANCE_SCHEMA_VERSION,
                },
            )
        } else {
            r == Ok::<Option<InstanceSidecar>, StoreError>(Some(s))
        },
    }
}

/// The outcome of reading the artifact in `dir`. Rejects newer schema versions.
pub fn read_artifact(dir: &str, read: FileRead<Artifact>) -> (r: Result<Artifact, StoreError>)
    ensures
        is_read(dir@, read, r),
{
    match read {
        FileRead::Missing => Err(StoreError::NotAnArtifact(dir.to_owned())),
        FileRead::Failed(e) => Err(StoreError::Io(e)),
        FileRead::Malformed(e) => Err(StoreError::Json(e)),
        FileRead::Parsed(artifact) => {
            if artifact.schema_version > ARTIFACT_SCHEMA_VERSION {
                return Err(
                    StoreError::UnsupportedSchema {
                        found: artifact.schema_version,
                        supported: ARTIFACT_SCHEMA_VERSION,
                    },
                );
            }
            Ok(artifact)
        },
    }
}

/// What resolving instance facts needs next.
pub enum FactsStep {
    /// It is done.
    Done(Result<InstanceFacts, StoreError>),
    /// There is no sidecar: read the legacy artifact in this directory.
    ReadLegacy(String),
}

/// The legacy inventory of an artifact's metadata, where it has one.
pub open spec fn legacy_search(meta: JsonV) -> Option<JsonV> {
    match member(Some(meta), "search"@) {
        Some(JsonV::Null) => None,
        other => other,
    }
}

impl ArtifactStore {
    /// The outcome of reading the artifact in `dir` (an artifact directory or a
    /// `latest` link). Rejects newer schema versions.
    pub fn read(&self, dir: &str, read: FileRead<Artifact>) -> (r: Result<Artifact, StoreError>)
        ensures
            is_read(dir@, read, r),
    {
        read_artifact(dir, read)
    }

    /// The outcome of reading an instance sidecar; `None` when there is none.
    /// Rejects newer schema versions.
    pub fn read_instance_sidecar(&self, read: FileRead<InstanceSidecar>) -> (r: Result<
        Option<InstanceSidecar>,
        StoreError,
    >)
        ensures
            is_sidecar_read(read, r),
    {
        match read {
            FileRead::Missing => Ok(None),
            FileRead::Failed(e) => Err(StoreError::Io(e)),
            FileRead::Malformed(e) => Err(StoreError::Json(e)),
            FileRead::Parsed(sidecar) => {
                if sidecar.schema_version > INSTANCE_SCHEMA_VERSION {
                    return Err(
                        StoreError::UnsupportedInstanceSchema {
                            found: sidecar.schema_version,
                            supported: INSTANCE_SCHEMA_VERSION,
                        },
                    );
                }
                Ok(Some(sidecar))
            },
        }
    }

    /// Resolve instance facts for a host and a dashboard, first step: from the
    /// sidecar, as it was read. Only where there is none is the legacy artifact
    /// of the dashboard read.
    pub fn read_instance_facts(
        &self,
        source: &str,
        host: &str,
        uid: &str,
        sidecar: Result<Option<InstanceSidecar>, StoreError>,
    ) -> (r: FactsStep)
        ensures
            match sidecar {
                Err(e) => r == FactsStep::Done(Err(e)),
                Ok(Some(s)) => r matches FactsStep::Done(Ok(facts)) && facts.host == s.host
                    && facts.search == s.search && facts.datasources == s.datasources
                    && facts.instance == s.instance && facts.folders == s.folders && (facts.origin
                    matches FactsOrigin::Sidecar(p) && p@ == instance_file_of(
                    self@,
                    source@,
                    host@,
                )),
                Ok(None) => r matches FactsStep::ReadLegacy(link) && link@ == latest_link_of(
                    self@,
                    source@,
                    uid@,
                ),
            },
    {
        match sidecar {
            Err(e) => FactsStep::Done(Err(e)),
            Ok(Some(s)) => {
                let path = self.instance_file(source, host);
                FactsStep::Done(Ok(InstanceFacts::from_sidecar(s, path)))
            },
            Ok(None) => FactsStep::ReadLegacy(self.latest_link(source, uid)),
        }
    }

    /// Resolve instance facts, second step: from the legacy artifact, as it was
    /// read. Without an artifact or without an inventory in it there are none;
    /// any other error is passed on.
    pub fn read_legacy_facts(
        &self,
        source: &str,
        host: &str,
        uid: &str,
        legacy: Result<Artifact, StoreError>,
    ) -> (r: Result<InstanceFacts, StoreError>)
        ensures
            match legacy {
                Ok(a) => match legacy_search(a.meta@) {
                    Some(search) => r matches Ok(facts) && facts.host@ == host@ && facts.search@
                        == search && facts.datasources == Json::Null && facts.instance
                        == Json::Null && facts.folders == Json::Null && (facts.origin
                        matches FactsOrigin::LegacyMeta(p) && p@ == joined(
                        latest_link_of(self@, source@, uid@),
                        ARTIFACT_FILE@,
                    )),
                    None => r matches Err(
                        StoreError::InstanceFactsUnavailable { host: h, uid: u },
                    ) && h@ == host@ && u@ == uid@,
                },
                Err(StoreError::NotAnArtifact(_)) => r matches Err(
                    StoreError::InstanceFactsUnavailable { host: h, uid: u },
                ) && h@ == host@ && u@ == uid@,
                Err(e) => r == Err::<InstanceFacts, StoreError>(e),
            },
    {
        match legacy {
            Ok(artifact) => {
                if let Some(search) = artifact.meta.get("search") {
                    if !search.is_null() {
                        let link = self.latest_link(source, uid);
                        let path = join_path(link.as_str(), ARTIFACT_FILE);
                        return Ok(
                            InstanceFacts::from_legacy_meta(host.to_owned(), search.copy(), path),
                        );
                    }
                }
                Err(
                    StoreError::InstanceFactsUnavailable {
                        host: host.to_owned(),
                        uid: uid.to_owned(),
                    },
                )
            },
            Err(e) => match e {
                StoreError::NotAnArtifact(_) => Err(
                    StoreError::InstanceFactsUnavailable {
                        host: host.to_owned(),
                        uid: uid.to_owned(),
                    },
                ),
                other => Err(other),
            },
        }
    }
}

} // verus!
