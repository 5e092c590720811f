//! What a store gives back of what was written to it.
//!
//! The disk is modelled by what its files hold and by where its links lead, both
//! by path. A link is followed where it stands for the directory of a file, and
//! so are the links that it leads to; directories further up are taken for plain
//! ones.

use crate::artifact::{ARTIFACT_SCHEMA_VERSION, Artifact, ArtifactV};
use crate::error::StoreError;
use crate::path::{dir_of, followed, is_segment, joined, lemma_dir_of_joined, slashed};
use crate::sidecar::{INSTANCE_SCHEMA_VERSION, InstanceSidecar, SidecarV};
use crate::store::{
    dir_name_text, instance_file_of, instance_host_dir_of, is_plan, is_read, is_safe_char,
    is_sidecar_plan, is_sidecar_read, law_safe_is_a_segment, name_tells_time, safe_text,
    sidecar_name_text, ARTIFACT_FILE, FileRead, INSTANCE_DIR, INSTANCE_FILE, LATEST, WritePlan,
};
use crate::time::{starts_year, time_text, whole_seconds, DIR_TIME_FORMAT};
use vstd::prelude::*;

verus! {

// ---------------------------------------------------------------------------
// The disk
// ---------------------------------------------------------------------------

/// What a file of a store holds.
pub enum Stored {
    Artifact(ArtifactV),
    Sidecar(SidecarV),
}

/// What files hold, and what links point at, by path.
pub struct Disk {
    pub files: Map<Seq<char>, Stored>,
    pub links: Map<Seq<char>, Seq<char>>,
}

/// What a path leads to when at most `n` links are followed.
pub open spec fn after_hops(
    links: Map<Seq<char>, Seq<char>>,
    path: Seq<char>,
    n: nat,
) -> Option<Seq<char>>
    decreases n,
{
    if !links.contains_key(path) {
        Some(path)
    } else if n == 0 {
        None
    } else {
        after_hops(links, followed(dir_of(path), links[path]), (n - 1) as nat)
    }
}

/// What a path leads to; nothing where its links go round in a circle.
pub open spec fn led_to(links: Map<Seq<char>, Seq<char>>, path: Seq<char>) -> Option<Seq<char>> {
    if exists|n: nat| (#[trigger] after_hops(links, path, n)) is Some {
        after_hops(
            links,
            path,
            choose|n: nat| (#[trigger] after_hops(links, path, n)) is Some,
        )
    } else {
        None
    }
}

/// What a path leads to without going by way of `link`.
pub open spec fn led_apart(
    links: Map<Seq<char>, Seq<char>>,
    path: Seq<char>,
    link: Seq<char>,
) -> Option<Seq<char>> {
    match led_to(links.remove(link), path) {
        Some(d) => if d == link {
            None
        } else {
            Some(d)
        },
        None => None,
    }
}

/// The directory of a file, without the `/` behind it.
pub open spec fn parent_of(file: Seq<char>) -> Seq<char> {
    if dir_of(file).len() <= 1 {
        dir_of(file)
    } else {
        dir_of(file).drop_last()
    }
}

/// The name of a file in its directory.
pub open spec fn name_of(file: Seq<char>) -> Seq<char> {
    file.skip(dir_of(file).len() as int)
}

/// Where a file is once the links to its directory are followed.
pub open spec fn place(links: Map<Seq<char>, Seq<char>>, file: Seq<char>) -> Option<Seq<char>> {
    match led_to(links, parent_of(file)) {
        Some(d) => Some(joined(d, name_of(file))),
        None => None,
    }
}

/// What opening a file gives.
pub open spec fn opened(disk: Disk, file: Seq<char>) -> Option<Stored> {
    match place(disk.links, file) {
        Some(f) => if disk.files.contains_key(f) {
            Some(disk.files[f])
        } else {
            None
        },
        None => None,
    }
}

/// The disk once a plan to write `x` is carried out: the file is written, then
/// the link is put in place of the one that was there. A directory that leads
/// nowhere is not written to.
pub open spec fn carried_out(disk: Disk, plan: WritePlan, x: Stored) -> Disk {
    match place(disk.links, plan.file@) {
        Some(f) => Disk {
            files: disk.files.insert(f, x),
            links: disk.links.insert(plan.link@, plan.link_target@),
        },
        None => disk,
    }
}

// ---------------------------------------------------------------------------
// Following links
// ---------------------------------------------------------------------------

proof fn lemma_hops_agree(links: Map<Seq<char>, Seq<char>>, path: Seq<char>, m: nat, n: nat)
    requires
        after_hops(links, path, m) is Some,
        after_hops(links, path, n) is Some,
    ensures
        after_hops(links, path, m) == after_hops(links, path, n),
    decreases m,
{
    if links.contains_key(path) {
        lemma_hops_agree(
            links,
            followed(dir_of(path), links[path]),
            (m - 1) as nat,
            (n - 1) as nat,
        );
    }
}

proof fn lemma_led(links: Map<Seq<char>, Seq<char>>, path: Seq<char>, n: nat)
    requires
        after_hops(links, path, n) is Some,
    ensures
        led_to(links, path) == after_hops(links, path, n),
{
    let m = choose|m: nat| (#[trigger] after_hops(links, path, m)) is Some;
    lemma_hops_agree(links, path, m, n);
}

/// A path where no link stands leads to itself.
proof fn lemma_led_plain(links: Map<Seq<char>, Seq<char>>, path: Seq<char>)
    requires
        !links.contains_key(path),
    ensures
        led_to(links, path) == Some(path),
{
    lemma_led(links, path, 0);
}

/// A link leads where its target does.
proof fn lemma_led_step(links: Map<Seq<char>, Seq<char>>, path: Seq<char>)
    requires
        links.contains_key(path),
        led_to(links, followed(dir_of(path), links[path])) is Some,
    ensures
        led_to(links, path) == led_to(links, followed(dir_of(path), links[path])),
{
    let next = followed(dir_of(path), links[path]);
    let n = choose|n: nat| (#[trigger] after_hops(links, next, n)) is Some;
    assert(after_hops(links, path, n + 1) == after_hops(links, next, n));
    lemma_led(links, path, n + 1);
}

proof fn lemma_hops_apart(
    links: Map<Seq<char>, Seq<char>>,
    path: Seq<char>,
    link: Seq<char>,
    target: Seq<char>,
    n: nat,
)
    requires
        after_hops(links.remove(link), path, n) matches Some(d) && d != link,
    ensures
        after_hops(links, path, n) == after_hops(links.remove(link), path, n),
        after_hops(links.insert(link, target), path, n) == after_hops(links.remove(link), path, n),
    decreases n,
{
    if links.remove(link).contains_key(path) {
        lemma_hops_apart(
            links,
            followed(dir_of(path), links[path]),
            link,
            target,
            (n - 1) as nat,
        );
    }
}

/// A path that does not go by way of a link leads to the same wherever that link
/// points.
proof fn lemma_led_apart(
    links: Map<Seq<char>, Seq<char>>,
    path: Seq<char>,
    link: Seq<char>,
    target: Seq<char>,
)
    requires
        led_apart(links, path, link) is Some,
    ensures
        led_to(links, path) == led_apart(links, path, link),
        led_to(links.insert(link, target), path) == led_apart(links, path, link),
{
    let less = links.remove(link);
    let n = choose|n: nat| (#[trigger] after_hops(less, path, n)) is Some;
    lemma_hops_apart(links, path, link, target, n);
    lemma_led(links, path, n);
    lemma_led(links.insert(link, target), path, n);
}

proof fn lemma_parent(dir: Seq<char>, name: Seq<char>)
    requires
        dir.len() > 0,
        dir.last() != '/',
        name.len() > 0,
        !name.contains('/'),
    ensures
        parent_of(joined(dir, name)) == dir,
        name_of(joined(dir, name)) == name,
{
    reveal_strlit("/");
    lemma_dir_of_joined(dir, name);
    assert(name.contains(name[0]));
    assert(dir.push('/').drop_last() =~= dir);
    assert(joined(dir, name).skip((dir.len() + 1) as int) =~= name);
}

// ---------------------------------------------------------------------------
// Plans
// ---------------------------------------------------------------------------

/// A plan for a file `name` in a directory of its own, with a link that leads
/// there.
spec fn is_sound(p: WritePlan, name: Seq<char>) -> bool {
    &&& p.file@ == joined(p.dir@, name)
    &&& followed(dir_of(p.link@), p.link_target@) == p.dir@
    &&& p.dir@.len() > 0 && p.dir@.last() != '/'
    &&& p.link@.len() > 0 && p.link@.last() != '/'
    &&& name.len() > 0 && !name.contains('/')
}

/// What is joined last stands at the end.
proof fn lemma_joined_end(base: Seq<char>, seg: Seq<char>)
    requires
        seg.len() > 0,
        !seg.contains('/'),
    ensures
        joined(base, seg).len() > 0,
        joined(base, seg).last() != '/',
        joined(base, seg).len() > slashed(base).len(),
{
    reveal_strlit("/");
    assert(seg.contains(seg[0]) && seg.contains(seg.last()));
    assert(joined(base, seg).last() == seg.last());
}

/// An artifact whose source and target each make one segment of a path.
pub open spec fn has_plain_path(a: ArtifactV) -> bool {
    is_segment(a.source) && is_segment(safe_text(a.target))
}

proof fn lemma_artifact_plan(root: Seq<char>, a: ArtifactV, p: WritePlan)
    requires
        is_plan(root, a, p),
        has_plain_path(a),
    ensures
        is_sound(p, ARTIFACT_FILE@),
        dir_of(p.dir@) == slashed(root),
        dir_of(p.link@).len() > slashed(root).len(),
{
    let name = dir_name_text(a.fetched_at, a.source, a.target);
    reveal_strlit("latest");
    reveal_strlit("artifact.json");
    lemma_dir_of_joined(root, name);
    lemma_joined_end(root, name);
    let first = joined(root, a.source);
    let second = joined(first, safe_text(a.target));
    lemma_joined_end(root, a.source);
    lemma_joined_end(first, safe_text(a.target));
    lemma_joined_end(second, LATEST@);
    lemma_dir_of_joined(second, LATEST@);
}

proof fn lemma_sidecar_plan(root: Seq<char>, source: Seq<char>, s: SidecarV, p: WritePlan)
    requires
        is_sidecar_plan(root, source, s, p),
    ensures
        is_sound(p, INSTANCE_FILE@),
        is_segment(source) ==> dir_of(p.link@).len() > slashed(root).len(),
{
    reveal_strlit("latest");
    reveal_strlit("instance.json");
    let base = instance_host_dir_of(root, source, s.host);
    lemma_joined_end(base, sidecar_name_text(s.fetched_at));
    lemma_joined_end(base, LATEST@);
    lemma_dir_of_joined(base, LATEST@);
    if is_segment(source) {
        reveal_strlit("_instance");
        let first = joined(root, source);
        let second = joined(first, INSTANCE_DIR@);
        lemma_joined_end(root, source);
        lemma_joined_end(first, INSTANCE_DIR@);
        law_safe_is_a_segment(s.host);
        assert forall|i: int| 0 <= i < safe_text(s.host).len() implies #[trigger] safe_text(
            s.host,
        )[i] != '/' by {
            assert(is_safe_char(safe_text(s.host)[i]));
        }
        lemma_joined_end(second, safe_text(s.host));
    }
}

/// What was written is opened in its directory and by its link.
proof fn lemma_written(disk: Disk, p: WritePlan, name: Seq<char>, x: Stored)
    requires
        is_sound(p, name),
        led_apart(disk.links, p.dir@, p.link@) is Some,
    ensures
        opened(carried_out(disk, p, x), p.file@) == Some(x),
        opened(carried_out(disk, p, x), joined(p.link@, name)) == Some(x),
{
    let links = disk.links.insert(p.link@, p.link_target@);
    lemma_parent(p.dir@, name);
    lemma_parent(p.link@, name);
    lemma_led_apart(disk.links, p.dir@, p.link@, p.link_target@);
    lemma_led_step(links, p.link@);
}

// ---------------------------------------------------------------------------
// Artifacts
// ---------------------------------------------------------------------------

/// What was written last is opened in its directory and by its latest link,
/// whatever was on the disk before: all that it takes is that the directory does
/// not lead back to that link.
pub proof fn law_last_write_is_held(root: Seq<char>, disk: Disk, a: ArtifactV, p: WritePlan)
    requires
        is_plan(root, a, p),
        has_plain_path(a),
        led_apart(disk.links, p.dir@, p.link@) is Some,
    ensures
        opened(carried_out(disk, p, Stored::Artifact(a)), joined(p.dir@, ARTIFACT_FILE@)) == Some(
            Stored::Artifact(a),
        ),
        opened(carried_out(disk, p, Stored::Artifact(a)), joined(p.link@, ARTIFACT_FILE@)) == Some(
            Stored::Artifact(a),
        ),
{
    lemma_artifact_plan(root, a, p);
    lemma_written(disk, p, ARTIFACT_FILE@, Stored::Artifact(a));
}

/// A write leaves every other file as it was, unless the way to it goes by the
/// link that the write puts in place.
pub proof fn law_write_keeps_the_rest(disk: Disk, p: WritePlan, x: Stored, file: Seq<char>)
    requires
        led_apart(disk.links, parent_of(file), p.link@) is Some,
        place(disk.links, file) != place(disk.links, p.file@),
    ensures
        opened(carried_out(disk, p, x), file) == opened(disk, file),
{
    lemma_led_apart(disk.links, parent_of(file), p.link@, p.link_target@);
}

/// No link stands directly in the root of a store.
pub open spec fn is_clear(root: Seq<char>, disk: Disk) -> bool {
    forall|path: Seq<char>| #[trigger]
        disk.links.contains_key(path) ==> dir_of(path) != slashed(root)
}

/// Writing artifacts puts no link in the place of an artifact directory: there is
/// none at first, no write puts one there, and so every directory leads to itself.
pub proof fn law_artifacts_keep_the_root_clear(
    root: Seq<char>,
    disk: Disk,
    a: ArtifactV,
    p: WritePlan,
)
    requires
        is_plan(root, a, p),
        has_plain_path(a),
    ensures
        disk.links == Map::<Seq<char>, Seq<char>>::empty() ==> is_clear(root, disk),
        is_clear(root, disk) ==> is_clear(root, carried_out(disk, p, Stored::Artifact(a))),
        is_clear(root, disk) ==> led_apart(disk.links, p.dir@, p.link@) == Some(p.dir@),
{
    lemma_artifact_plan(root, a, p);
    if is_clear(root, disk) {
        assert(!disk.links.contains_key(p.dir@));
        lemma_led_plain(disk.links.remove(p.link@), p.dir@);
    }
}

/// Once two artifacts are written to directories of their own, each directory
/// gives its artifact back, and so does the latest link of the one written last.
/// The link of the other one gives it back too, unless they share the link.
pub proof fn law_writes_are_held(
    root: Seq<char>,
    disk: Disk,
    a: ArtifactV,
    p: WritePlan,
    b: ArtifactV,
    q: WritePlan,
)
    requires
        is_plan(root, a, p),
        is_plan(root, b, q),
        has_plain_path(a),
        has_plain_path(b),
        p.dir@ != q.dir@,
        !disk.links.contains_key(p.dir@),
        !disk.links.contains_key(q.dir@),
    ensures
        ({
            let after = carried_out(
                carried_out(disk, p, Stored::Artifact(a)),
                q,
                Stored::Artifact(b),
            );
            &&& opened(after, joined(p.dir@, ARTIFACT_FILE@)) == Some(Stored::Artifact(a))
            &&& opened(after, joined(q.dir@, ARTIFACT_FILE@)) == Some(Stored::Artifact(b))
            &&& opened(after, joined(q.link@, ARTIFACT_FILE@)) == Some(Stored::Artifact(b))
            &&& p.link@ != q.link@ ==> opened(after, joined(p.link@, ARTIFACT_FILE@)) == Some(
                Stored::Artifact(a),
            )
        }),
{
    lemma_artifact_plan(root, a, p);
    lemma_artifact_plan(root, b, q);
    let first = carried_out(disk, p, Stored::Artifact(a));
    lemma_led_plain(disk.links, p.dir@);
    lemma_led_plain(disk.links.remove(p.link@), p.dir@);
    lemma_parent(p.dir@, ARTIFACT_FILE@);
    lemma_parent(q.dir@, ARTIFACT_FILE@);
    lemma_parent(p.link@, ARTIFACT_FILE@);
    law_last_write_is_held(root, disk, a, p);
    assert(first.links == disk.links.insert(p.link@, p.link_target@));
    lemma_led_plain(first.links, p.dir@);
    lemma_led_plain(first.links, q.dir@);
    lemma_led_plain(first.links.remove(q.link@), p.dir@);
    lemma_led_plain(first.links.remove(q.link@), q.dir@);
    law_last_write_is_held(root, first, b, q);
    if p.file@ == q.file@ {
        assert(parent_of(p.file@) == p.dir@);
    }
    law_write_keeps_the_rest(first, q, Stored::Artifact(b), p.file@);
    if p.link@ != q.link@ {
        let less = first.links.remove(q.link@);
        assert(less[p.link@] == p.link_target@);
        lemma_led_step(less, p.link@);
        lemma_led_step(first.links, p.link@);
        law_write_keeps_the_rest(
            first,
            q,
            Stored::Artifact(b),
            joined(p.link@, ARTIFACT_FILE@),
        );
    }
}

/// Directory names that differ in their times differ.
proof fn lemma_times_differ(root: Seq<char>, s: (i64, u32), t: (i64, u32), rest: Seq<char>)
    requires
        name_tells_time(s),
        name_tells_time(t),
        whole_seconds(s) != whole_seconds(t),
        starts_year(time_text(s.0, s.1, DIR_TIME_FORMAT@) + rest),
        starts_year(time_text(t.0, t.1, DIR_TIME_FORMAT@) + rest),
    ensures
        joined(root, time_text(s.0, s.1, DIR_TIME_FORMAT@) + rest) != joined(
            root,
            time_text(t.0, t.1, DIR_TIME_FORMAT@) + rest,
        ),
{
    let u = time_text(s.0, s.1, DIR_TIME_FORMAT@);
    let v = time_text(t.0, t.1, DIR_TIME_FORMAT@);
    let x = u + rest;
    let y = v + rest;
    if joined(root, x) == joined(root, y) {
        let base = slashed(root);
        reveal_strlit("/");
        assert(joined(root, x) =~= base + x);
        assert(joined(root, y) =~= base + y);
        assert((base + x).skip(base.len() as int) =~= x);
        assert((base + y).skip(base.len() as int) =~= y);
        assert(u.len() == v.len());
        assert(x.take(u.len() as int) =~= u);
        assert(y.take(u.len() as int) =~= v);
    }
}

/// Artifacts of one source and target that were fetched in different seconds have
/// directories of their own, and share the latest link.
pub proof fn law_another_second_is_another_directory(
    root: Seq<char>,
    a: ArtifactV,
    p: WritePlan,
    b: ArtifactV,
    q: WritePlan,
)
    requires
        is_plan(root, a, p),
        is_plan(root, b, q),
        a.source == b.source,
        a.target == b.target,
        whole_seconds(a.fetched_at) != whole_seconds(b.fetched_at),
    ensures
        p.dir@ != q.dir@,
        p.link@ == q.link@,
{
    let rest = "__"@ + a.source + "__"@ + safe_text(a.target);
    let s = time_text(a.fetched_at.0, a.fetched_at.1, DIR_TIME_FORMAT@);
    let t = time_text(b.fetched_at.0, b.fetched_at.1, DIR_TIME_FORMAT@);
    assert(dir_name_text(a.fetched_at, a.source, a.target) =~= s + rest);
    assert(dir_name_text(b.fetched_at, b.source, b.target) =~= t + rest);
    lemma_times_differ(root, a.fetched_at, b.fetched_at, rest);
}

/// `read` is what reading and parsing the artifact in a directory, or by a link,
/// gives.
pub open spec fn reads(disk: Disk, path: Seq<char>, read: FileRead<Artifact>) -> bool {
    let file = joined(path, ARTIFACT_FILE@);
    match opened(disk, file) {
        Some(Stored::Artifact(a)) => read matches FileRead::Parsed(x) && x.deep_view() == a,
        Some(Stored::Sidecar(_)) => read is Malformed,
        None => if place(disk.links, file) is Some {
            read is Missing
        } else {
            read is Failed
        },
    }
}

/// Reading what is held gives it back field by field, unless its schema is newer
/// than what is known; reading where nothing is held says so.
pub proof fn law_held_is_read(
    disk: Disk,
    path: Seq<char>,
    read: FileRead<Artifact>,
    r: Result<Artifact, StoreError>,
)
    requires
        reads(disk, path, read),
        is_read(path, read, r),
    ensures
        match opened(disk, joined(path, ARTIFACT_FILE@)) {
            Some(Stored::Artifact(a)) => if a.schema_version <= ARTIFACT_SCHEMA_VERSION {
                r matches Ok(x) && x.deep_view() == a
            } else {
                r matches Err(StoreError::UnsupportedSchema { found, .. }) && found
                    == a.schema_version
            },
            Some(Stored::Sidecar(_)) => r matches Err(StoreError::Json(_)),
            None => if place(disk.links, joined(path, ARTIFACT_FILE@)) is Some {
                r matches Err(StoreError::NotAnArtifact(d)) && d@ == path
            } else {
                r matches Err(StoreError::Io(_))
            },
        },
{
}

/// What was written is read back field by field, from its directory and by its
/// latest link.
pub proof fn law_write_read_round_trip(
    root: Seq<char>,
    disk: Disk,
    a: ArtifactV,
    p: WritePlan,
    read: FileRead<Artifact>,
    r: Result<Artifact, StoreError>,
    latest_read: FileRead<Artifact>,
    latest: Result<Artifact, StoreError>,
)
    requires
        is_plan(root, a, p),
        has_plain_path(a),
        a.schema_version <= ARTIFACT_SCHEMA_VERSION,
        led_apart(disk.links, p.dir@, p.link@) is Some,
        reads(carried_out(disk, p, Stored::Artifact(a)), p.dir@, read),
        is_read(p.dir@, read, r),
        reads(carried_out(disk, p, Stored::Artifact(a)), p.link@, latest_read),
        is_read(p.link@, latest_read, latest),
    ensures
        r matches Ok(x) && x.deep_view() == a,
        latest matches Ok(x) && x.deep_view() == a,
{
    law_last_write_is_held(root, disk, a, p);
}

// ---------------------------------------------------------------------------
// Sidecars
// ---------------------------------------------------------------------------

/// The sidecar that was written last for a host is what its file holds, by the
/// host's latest link and in its own directory: all that it takes is that the
/// directory does not lead back to that link.
pub proof fn law_last_sidecar_is_held(
    root: Seq<char>,
    source: Seq<char>,
    disk: Disk,
    s: SidecarV,
    p: WritePlan,
)
    requires
        is_sidecar_plan(root, source, s, p),
        led_apart(disk.links, p.dir@, p.link@) is Some,
    ensures
        opened(
            carried_out(disk, p, Stored::Sidecar(s)),
            instance_file_of(root, source, s.host),
        ) == Some(Stored::Sidecar(s)),
        opened(carried_out(disk, p, Stored::Sidecar(s)), p.file@) == Some(Stored::Sidecar(s)),
{
    lemma_sidecar_plan(root, source, s, p);
    lemma_written(disk, p, INSTANCE_FILE@, Stored::Sidecar(s));
}

/// Writing sidecars puts no link in the place of an artifact directory either.
pub proof fn law_sidecars_keep_the_root_clear(
    root: Seq<char>,
    source: Seq<char>,
    disk: Disk,
    s: SidecarV,
    p: WritePlan,
)
    requires
        is_sidecar_plan(root, source, s, p),
        is_segment(source),
        is_clear(root, disk),
    ensures
        is_clear(root, carried_out(disk, p, Stored::Sidecar(s))),
{
    lemma_sidecar_plan(root, source, s, p);
}

/// Sidecars of one host that were fetched in different seconds have directories
/// of their own, and share the latest link.
pub proof fn law_another_second_is_another_sidecar(
    root: Seq<char>,
    source: Seq<char>,
    s: SidecarV,
    p: WritePlan,
    t: SidecarV,
    q: WritePlan,
)
    requires
        is_sidecar_plan(root, source, s, p),
        is_sidecar_plan(root, source, t, q),
        s.host == t.host,
        whole_seconds(s.fetched_at) != whole_seconds(t.fetched_at),
    ensures
        p.dir@ != q.dir@,
        p.link@ == q.link@,
{
    lemma_times_differ(
        instance_host_dir_of(root, source, s.host),
        s.fetched_at,
        t.fetched_at,
        "__instance"@,
    );
}

/// `read` is what reading and parsing the sidecar in a file gives.
pub open spec fn reads_sidecar(
    disk: Disk,
    file: Seq<char>,
    read: FileRead<InstanceSidecar>,
) -> bool {
    match opened(disk, file) {
        Some(Stored::Sidecar(s)) => read matches FileRead::Parsed(x) && x.deep_view() == s,
        Some(Stored::Artifact(_)) => read is Malformed,
        None => if place(disk.links, file) is Some {
            read is Missing
        } else {
            read is Failed
        },
    }
}

/// The sidecar that was written last for a host is read back field by field from
/// the host's file.
pub proof fn law_sidecar_round_trip(
    root: Seq<char>,
    source: Seq<char>,
    disk: Disk,
    s: SidecarV,
    p: WritePlan,
    read: FileRead<InstanceSidecar>,
    r: Result<Option<InstanceSidecar>, StoreError>,
)
    requires
        is_sidecar_plan(root, source, s, p),
        s.schema_version <= INSTANCE_SCHEMA_VERSION,
        led_apart(disk.links, p.dir@, p.link@) is Some,
        reads_sidecar(
            carried_out(disk, p, Stored::Sidecar(s)),
            instance_file_of(root, source, s.host),
            read,
        ),
        is_sidecar_read(read, r),
    ensures
        r matches Ok(Some(x)) && x.deep_view() == s,
{
    law_last_sidecar_is_held(root, source, disk, s, p);
}

} // verus!
