//! What a listing of the store guarantees, in terms of the directory names and
//! of what is asked for.

use crate::artifact::{Artifact, ArtifactV};
use crate::collect::{collected, lemma_collected_from, lemma_collected_has};
use crate::error::StoreError;
use crate::json::{member, JsonV};
use crate::order::{lemma_ordered_multiset, ordered};
use crate::path::joined;
use crate::sidecar::{InstanceSidecar, SidecarV};
use crate::store::{
    dir_entry, dir_name_text, dir_names, entry_of, instance_file_of, is_plan, is_read,
    is_sidecar_plan, is_sidecar_read, latest_link_of, law_listing_is_filtered_and_ordered,
    legacy_search, lemma_name_reads_back, listed, listing, newest_first, next_separator,
    parsed_name, plain_source, safe_text, sidecar_name_text, FileRead, ListEntryV, WritePlan,
};
use crate::text::{occurs, occurs_at};
use crate::text_laws::{law_collected_of_parts, law_sorting_is_stable};
use crate::time::{parsed_time, time_le, time_text};
use vstd::prelude::*;

verus! {

/// A time is at or after another one.
pub open spec fn not_before(t: (i64, u32), cutoff: (i64, u32)) -> bool {
    t.0 > cutoff.0 || (t.0 == cutoff.0 && t.1 >= cutoff.1)
}

/// The comparison of times is that of the seconds, and of the nanoseconds where
/// the seconds are the same.
pub proof fn law_times_are_compared_by_seconds(cutoff: (i64, u32), t: (i64, u32))
    ensures
        time_le(cutoff, t) <==> not_before(t, cutoff),
{
}

/// A name of a time, a source and a target is read as these three.
pub proof fn law_names_are_read(ts: Seq<char>, source: Seq<char>, target: Seq<char>, t: (i64, u32))
    requires
        !ts.contains('_'),
        source.len() > 0,
        source.last() != '_',
        forall|k: int| 0 <= k < source.len() - 1 ==> !(#[trigger] source[k] == '_' && source[k + 1]
            == '_'),
        target.len() > 0,
        parsed_time(ts, "%Y-%m-%dT%H-%M-%SZ"@) == Some(t),
    ensures
        parsed_name(ts + seq!['_', '_'] + source + seq!['_', '_'] + target) == Some(
            (t, source, target),
        ),
{
    reveal_strlit("__");
    assert("__"@ =~= seq!['_', '_']);
    assert(!occurs(source, "__"@)) by {
        if occurs(source, "__"@) {
            let k = choose|k: int| occurs_at(source, "__"@, k);
            assert(source.subrange(k, k + 2) == "__"@);
            assert(source[k] == source.subrange(k, k + 2)[0]);
            assert(source[k + 1] == source.subrange(k, k + 2)[1]);
        }
    }
    assert(plain_source(source));
    lemma_name_reads_back(ts, source, target, t);
}

proof fn lemma_separator(s: Seq<char>, from: int)
    requires
        0 <= from,
    ensures
        match next_separator(s, from) {
            Some(i) => from <= i && i + 2 <= s.len() && s[i] == '_' && s[i + 1] == '_' && forall|
                k: int,
            |
                from <= k < i ==> !(#[trigger] s[k] == '_' && s[k + 1] == '_'),
            None => forall|k: int|
                from <= k < s.len() - 1 ==> !(#[trigger] s[k] == '_' && s[k + 1] == '_'),
        },
    decreases s.len() - from,
{
    if from + 2 <= s.len() && !(s[from] == '_' && s[from + 1] == '_') {
        lemma_separator(s, from + 1);
    }
}

/// Only a name of a time, a source and a target is read, at the first places at
/// which two underscores stand, and the source and the target are not empty.
pub proof fn law_only_names_are_read(name: Seq<char>)
    ensures
        parsed_name(name) matches Some((t, source, target)) ==> {
            &&& source.len() > 0
            &&& target.len() > 0
            &&& exists|ts: Seq<char>|
                #![trigger parsed_time(ts, "%Y-%m-%dT%H-%M-%SZ"@)]
                parsed_time(ts, "%Y-%m-%dT%H-%M-%SZ"@) == Some(t) && name == ts + seq!['_', '_']
                    + source + seq!['_', '_'] + target
            &&& forall|k: int|
                0 <= k < source.len() - 1 ==> !(#[trigger] source[k] == '_' && source[k + 1] == '_')
        },
{
    if let Some((t, source, target)) = parsed_name(name) {
        lemma_separator(name, 0);
        let i = next_separator(name, 0)->0;
        let rest = name.skip(i + 2);
        lemma_separator(rest, 0);
        let j = next_separator(rest, 0)->0;
        assert forall|k: int| 0 <= k < source.len() - 1 implies !(#[trigger] source[k] == '_'
            && source[k + 1] == '_') by {
            assert(rest[k] == source[k] && rest[k + 1] == source[k + 1]);
        }
        let ts = name.take(i);
        assert(name =~= ts + seq!['_', '_'] + source + seq!['_', '_'] + target) by {
            assert(name =~= ts + seq!['_', '_'] + rest);
            assert(rest =~= source + seq!['_', '_'] + target);
        }
        assert(parsed_time(ts, "%Y-%m-%dT%H-%M-%SZ"@) == Some(t));
    }
}

/// A listing holds the entry of every directory whose name is read, whose source
/// is the one asked for, if one is, and whose time is not before the cutoff, if
/// there is one.
pub proof fn law_listing_holds_every_match(
    root: Seq<char>,
    names: Seq<Seq<char>>,
    source: Option<Seq<char>>,
    since: Option<(i64, u32)>,
    i: int,
    e: ListEntryV,
)
    requires
        0 <= i < names.len(),
        parsed_name(names[i]) == Some((e.fetched_at, e.source, e.target)),
        e.dir == joined(root, names[i]),
        source is Some ==> source->0 == e.source,
        since is Some ==> not_before(e.fetched_at, since->0),
    ensures
        listing(root, names, source, since).contains(e),
{
    broadcast use vstd::seq_lib::group_to_multiset_ensures;

    let f = |n: Seq<char>| listed(root, n, source, since);
    assert(f(names[i]) == Some(e));
    lemma_collected_has(names, f, i);
    let found = collected(names, f);
    lemma_ordered_multiset(found, newest_first());
    assert(found.to_multiset().count(e) > 0);
    assert(ordered(found, newest_first()).contains(e));
}

/// Nothing else is in a listing.
pub proof fn law_listing_holds_only_matches(
    root: Seq<char>,
    names: Seq<Seq<char>>,
    source: Option<Seq<char>>,
    since: Option<(i64, u32)>,
    e: ListEntryV,
)
    requires
        listing(root, names, source, since).contains(e),
    ensures
        source is Some ==> source->0 == e.source,
        since is Some ==> not_before(e.fetched_at, since->0),
        exists|i: int|
            0 <= i < names.len() && parsed_name(#[trigger] names[i]) == Some(
                (e.fetched_at, e.source, e.target),
            ) && e.dir == joined(root, names[i]),
{
    broadcast use vstd::seq_lib::group_to_multiset_ensures;

    let f = |n: Seq<char>| listed(root, n, source, since);
    let found = collected(names, f);
    lemma_ordered_multiset(found, newest_first());
    assert(ordered(found, newest_first()).to_multiset().count(e) > 0);
    assert(found.contains(e));
    let i = lemma_collected_from(names, f, e);
    assert(listed(root, names[i], source, since) == Some(e));
}

/// Of every two entries of a listing the one in front is at least as new.
pub proof fn law_listing_is_newest_first(
    root: Seq<char>,
    names: Seq<Seq<char>>,
    source: Option<Seq<char>>,
    since: Option<(i64, u32)>,
    i: int,
    j: int,
)
    requires
        0 <= i < j < listing(root, names, source, since).len(),
    ensures
        not_before(
            listing(root, names, source, since)[i].fetched_at,
            listing(root, names, source, since)[j].fetched_at,
        ),
{
    law_listing_is_filtered_and_ordered(root, names, source, since);
    let es = listing(root, names, source, since);
    assert(newest_first()(es[i], es[j]));
}

/// Each directory is listed on its own account: what one name gives does not
/// depend on the others, none is listed twice, and entries of one time stay in the
/// order of the names.
pub proof fn law_listing_is_name_by_name(
    root: Seq<char>,
    a: Seq<Seq<char>>,
    b: Seq<Seq<char>>,
    name: Seq<char>,
    source: Option<Seq<char>>,
    since: Option<(i64, u32)>,
    t: (i64, u32),
)
    ensures
        listing(root, a + b, source, since).to_multiset() == listing(
            root,
            a,
            source,
            since,
        ).to_multiset().add(listing(root, b, source, since).to_multiset()),
        listing(root, a + b, source, since).len() == listing(root, a, source, since).len()
            + listing(root, b, source, since).len(),
        listing(root, seq![name], source, since).len() <= 1,
        listing(root, Seq::<Seq<char>>::empty(), source, since).len() == 0,
        listing(root, a + b, source, since).filter(|e: ListEntryV| e.fetched_at == t) == listing(
            root,
            a,
            source,
            since,
        ).filter(|e: ListEntryV| e.fetched_at == t) + listing(root, b, source, since).filter(
            |e: ListEntryV| e.fetched_at == t,
        ),
{
    broadcast use vstd::seq_lib::group_to_multiset_ensures;

    let f = |n: Seq<char>| listed(root, n, source, since);
    let p = |e: ListEntryV| e.fetched_at == t;
    law_collected_of_parts(a, b, name, f);
    let x = collected(a, f);
    let y = collected(b, f);
    let order = newest_first();
    lemma_ordered_multiset(x, order);
    lemma_ordered_multiset(y, order);
    lemma_ordered_multiset(x + y, order);
    lemma_ordered_multiset(collected(seq![name], f), order);
    vstd::seq_lib::lemma_multiset_commutative(x, y);
    law_sorting_is_stable(x, order, p);
    law_sorting_is_stable(y, order, p);
    law_sorting_is_stable(x + y, order, p);
    Seq::filter_distributes_over_add(x, y, p);
}

/// The directories among what is in the root are listed, in the order in which
/// they were found.
pub proof fn law_directories_are_listed(
    a: Seq<(Seq<char>, bool)>,
    b: Seq<(Seq<char>, bool)>,
    name: Seq<char>,
)
    ensures
        dir_names(a + b) == dir_names(a) + dir_names(b),
        dir_names(seq![(name, true)]) == seq![name],
        dir_names(seq![(name, false)]).len() == 0,
        dir_names(Seq::<(Seq<char>, bool)>::empty()).len() == 0,
{
    law_collected_of_parts(a, b, (name, true), |e: (Seq<char>, bool)| dir_entry(e));
    law_collected_of_parts(a, b, (name, false), |e: (Seq<char>, bool)| dir_entry(e));
}

/// What may not stand in a path becomes a hyphen, all else stays, and nothing
/// becomes a hyphen too.
pub proof fn law_safe_keeps_plain_characters(target: Seq<char>, i: int)
    ensures
        target.len() == 0 ==> safe_text(target) == seq!['-'],
        target.len() > 0 ==> safe_text(target).len() == target.len(),
        0 <= i < target.len() ==> safe_text(target)[i] == (if 'A' <= target[i] <= 'Z' || 'a'
            <= target[i] <= 'z' || '0' <= target[i] <= '9' || target[i] == '.' || target[i] == '_'
            || target[i] == '-' {
            target[i]
        } else {
            '-'
        }),
{
}

/// A directory is named by its time, its source and its safe target; the time is
/// told to the second, without a colon.
pub proof fn law_directories_are_named(t: (i64, u32), source: Seq<char>, target: Seq<char>)
    ensures
        dir_name_text(t, source, target) == time_text(t.0, t.1, "%Y-%m-%dT%H-%M-%SZ"@) + seq![
            '_',
            '_',
        ] + source + seq!['_', '_'] + safe_text(target),
        sidecar_name_text(t) == time_text(t.0, t.1, "%Y-%m-%dT%H-%M-%SZ"@) + "__instance"@,
{
    reveal_strlit("__");
    assert("__"@ =~= seq!['_', '_']);
}

/// Below a root without a slash behind it, the latest artifact of a target and the
/// facts of a host have their fixed places.
pub proof fn law_places_below_the_root(root: Seq<char>, source: Seq<char>, target: Seq<char>)
    requires
        root.len() > 0,
        root.last() != '/',
        source.len() > 0,
        !source.contains('/'),
    ensures
        latest_link_of(root, source, target) == root + seq!['/'] + source + seq!['/'] + safe_text(
            target,
        ) + "/latest"@,
        instance_file_of(root, source, target) == root + seq!['/'] + source + "/_instance/"@
            + safe_text(target) + "/latest/instance.json"@,
{
    reveal_strlit("/");
    reveal_strlit("latest");
    reveal_strlit("/latest");
    reveal_strlit("_instance");
    reveal_strlit("/_instance/");
    reveal_strlit("instance.json");
    reveal_strlit("/latest/instance.json");
    assert("/"@ =~= seq!['/']);
    assert(source.contains(source[0]));
    assert(source.contains(source.last()));
    let safe = safe_text(target);
    assert(safe.len() > 0);
    assert(safe[0] != '/');
    assert(safe.last() != '/');
    let base = joined(root, source);
    assert(base =~= root + seq!['/'] + source);
    assert(base.last() == source.last());
    let a = joined(base, safe);
    assert(a =~= base + seq!['/'] + safe);
    assert(a.last() == safe.last());
    assert("/latest"@ =~= seq!['/'] + "latest"@);
    assert(latest_link_of(root, source, target) =~= root + seq!['/'] + source + seq!['/'] + safe
        + "/latest"@);
    let b = joined(base, "_instance"@);
    assert(b =~= base + seq!['/'] + "_instance"@);
    assert(b.last() == 'e');
    let c = joined(b, safe);
    assert(c =~= b + seq!['/'] + safe);
    assert(c.last() == safe.last());
    let d = joined(c, "latest"@);
    assert(d =~= c + seq!['/'] + "latest"@);
    assert(d.last() == 't');
    let file = joined(d, "instance.json"@);
    assert(file =~= d + seq!['/'] + "instance.json"@);
    assert("/_instance/"@ =~= seq!['/'] + "_instance"@ + seq!['/']);
    assert("/latest/instance.json"@ =~= seq!['/'] + "latest"@ + seq!['/'] + "instance.json"@);
    assert(file =~= root + seq!['/'] + source + "/_instance/"@ + safe + "/latest/instance.json"@);
}

/// A name that is read gives the entry of a directory, and only such a name does.
pub proof fn law_entries_come_from_names(name: Seq<char>, dir: Seq<char>, e: ListEntryV)
    ensures
        entry_of(name, dir) == Some(e) <==> parsed_name(name) == Some(
            (e.fetched_at, e.source, e.target),
        ) && e.dir == dir,
{
}

/// An artifact is written to its own directory below the root, which the link to
/// the latest one of its target names.
pub proof fn law_writes_are_planned(root: Seq<char>, a: ArtifactV, p: WritePlan)
    requires
        is_plan(root, a, p),
    ensures
        p.dir@ == joined(root, dir_name_text(a.fetched_at, a.source, a.target)),
        p.assets_dir matches Some(d) && d@ == joined(p.dir@, "assets"@),
        p.file@ == joined(p.dir@, "artifact.json"@),
        p.link@ == joined(joined(joined(root, a.source), safe_text(a.target)), "latest"@),
        p.link_target@ == joined("../.."@, dir_name_text(a.fetched_at, a.source, a.target)),
{
}

/// A sidecar is written to its own directory below that of its host, which the link
/// to the latest one names.
pub proof fn law_sidecar_writes_are_planned(
    root: Seq<char>,
    source: Seq<char>,
    s: SidecarV,
    p: WritePlan,
)
    requires
        is_sidecar_plan(root, source, s, p),
    ensures
        p.dir@ == joined(
            joined(joined(joined(root, source), "_instance"@), safe_text(s.host)),
            time_text(s.fetched_at.0, s.fetched_at.1, "%Y-%m-%dT%H-%M-%SZ"@) + "__instance"@,
        ),
        p.assets_dir is None,
        p.file@ == joined(p.dir@, "instance.json"@),
        p.link@ == joined(
            joined(joined(joined(root, source), "_instance"@), safe_text(s.host)),
            "latest"@,
        ),
        p.link_target@ == time_text(s.fetched_at.0, s.fetched_at.1, "%Y-%m-%dT%H-%M-%SZ"@)
            + "__instance"@,
{
}

/// A path behind another one stands behind a slash; an absolute one stands alone.
pub proof fn law_paths_are_joined(base: Seq<char>, rest: Seq<char>)
    ensures
        rest.len() > 0 && rest[0] == '/' ==> joined(base, rest) == rest,
        !(rest.len() > 0 && rest[0] == '/') && base.len() > 0 && base.last() != '/' ==> joined(
            base,
            rest,
        ) == base + seq!['/'] + rest,
        !(rest.len() > 0 && rest[0] == '/') && (base.len() == 0 || base.last() == '/') ==> joined(
            base,
            rest,
        ) == base + rest,
{
    reveal_strlit("/");
    assert("/"@ =~= seq!['/']);
}

/// What was read of an artifact is passed on, but for one of a newer schema; where
/// there is none, the directory is no artifact.
pub proof fn law_reads_are_passed_on(
    dir: Seq<char>,
    read: FileRead<Artifact>,
    r: Result<Artifact, StoreError>,
)
    requires
        is_read(dir, read, r),
    ensures
        match read {
            FileRead::Missing => r matches Err(StoreError::NotAnArtifact(d)) && d@ == dir,
            FileRead::Failed(e) => r matches Err(StoreError::Io(x)) && x == e,
            FileRead::Malformed(e) => r matches Err(StoreError::Json(x)) && x == e,
            FileRead::Parsed(a) => {
                &&& a.schema_version <= 1 ==> (r matches Ok(x) && x == a)
                &&& a.schema_version > 1 ==> (r matches Err(
                    StoreError::UnsupportedSchema { found, supported },
                ) && found == a.schema_version && supported == 1)
            },
        },
{
}

/// What was read of a sidecar is passed on, but for one of a newer schema; there
/// may be none.
pub proof fn law_sidecar_reads_are_passed_on(
    read: FileRead<InstanceSidecar>,
    r: Result<Option<InstanceSidecar>, StoreError>,
)
    requires
        is_sidecar_read(read, r),
    ensures
        match read {
            FileRead::Missing => r matches Ok(None),
            FileRead::Failed(e) => r matches Err(StoreError::Io(x)) && x == e,
            FileRead::Malformed(e) => r matches Err(StoreError::Json(x)) && x == e,
            FileRead::Parsed(s) => {
                &&& s.schema_version <= 1 ==> (r matches Ok(Some(x)) && x == s)
                &&& s.schema_version > 1 ==> (r matches Err(
                    StoreError::UnsupportedInstanceSchema { found, supported },
                ) && found == s.schema_version && supported == 1)
            },
        },
{
}

/// The inventory of an old artifact is what its metadata holds under `search`,
/// unless that is null.
pub proof fn law_old_inventories_are_found(meta: JsonV, search: JsonV)
    ensures
        legacy_search(meta) == Some(search) <==> member(Some(meta), "search"@) == Some(search)
            && !(search is Null),
        legacy_search(meta) is None <==> member(Some(meta), "search"@) is None || member(
            Some(meta),
            "search"@,
        ) == Some(JsonV::Null),
{
}

} // verus!
