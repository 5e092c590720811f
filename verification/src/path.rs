//! Paths, as texts with `/` between segments.

use crate::text::chars_of;
use vstd::prelude::*;

verus! {

/// `Path::join`: an absolute `rest` replaces `base`; otherwise one `/` stands
/// between the two, unless `base` is empty or ends with one.
pub open spec fn joined(base: Seq<char>, rest: Seq<char>) -> Seq<char> {
    if rest.len() > 0 && rest[0] == '/' {
        rest
    } else if base.len() == 0 || base.last() == '/' {
        base + rest
    } else {
        base + "/"@ + rest
    }
}

/// A path up to and with its last `/`: the directory that it stands in.
pub open spec fn dir_of(p: Seq<char>) -> Seq<char>
    decreases p.len(),
{
    if p.len() == 0 || p.last() == '/' {
        p
    } else {
        dir_of(p.drop_last())
    }
}

/// Where the relative path `target` leads to from the directory `dir`, each `..`
/// at its start going one directory up.
pub open spec fn followed(dir: Seq<char>, target: Seq<char>) -> Seq<char>
    decreases target.len(),
{
    if target.len() >= 3 && target.take(3) == "../"@ && dir.len() > 0 {
        followed(dir_of(dir.drop_last()), target.skip(3))
    } else {
        joined(dir, target)
    }
}

/// A single segment of a path that leads down.
pub open spec fn is_segment(s: Seq<char>) -> bool {
    s.len() > 0 && !s.contains('/') && s != "."@ && s != ".."@
}

/// A path with a `/` behind it, unless it is empty or has one.
pub open spec fn slashed(p: Seq<char>) -> Seq<char> {
    if p.len() == 0 || p.last() == '/' {
        p
    } else {
        p.push('/')
    }
}

/// A segment stands in the directory that it was joined to.
pub proof fn lemma_dir_of_joined(base: Seq<char>, seg: Seq<char>)
    requires
        seg.len() > 0,
        !seg.contains('/'),
    ensures
        dir_of(joined(base, seg)) == slashed(base),
        joined(base, seg).len() > 0,
        slashed(joined(base, seg)) == joined(base, seg).push('/'),
{
    reveal_strlit("/");
    assert(seg.contains(seg[0]) && seg.contains(seg.last()));
    assert(joined(base, seg) =~= slashed(base) + seg);
    lemma_dir_of_behind(slashed(base), seg);
}

proof fn lemma_dir_of_behind(dir: Seq<char>, seg: Seq<char>)
    requires
        dir.len() == 0 || dir.last() == '/',
        !seg.contains('/'),
    ensures
        dir_of(dir + seg) == dir,
    decreases seg.len(),
{
    if seg.len() == 0 {
        assert(dir + seg =~= dir);
    } else {
        let p = dir + seg;
        assert(seg.contains(seg.last()));
        assert(p.last() == seg.last());
        assert(p.drop_last() =~= dir + seg.drop_last());
        assert forall|c: char| seg.drop_last().contains(c) implies seg.contains(c) by {
            let k = choose|k: int| 0 <= k < seg.drop_last().len() && seg.drop_last()[k] == c;
            assert(seg[k] == c);
        }
        lemma_dir_of_behind(dir, seg.drop_last());
    }
}

/// From a segment of a directory, the name of another leads to that other.
pub proof fn lemma_sibling(base: Seq<char>, seg: Seq<char>, name: Seq<char>)
    requires
        seg.len() > 0,
        !seg.contains('/'),
        name.len() > 0,
        name[0] != '/',
        name[0] != '.',
    ensures
        followed(dir_of(joined(base, seg)), name) == joined(base, name),
{
    reveal_strlit("/");
    reveal_strlit("../");
    lemma_dir_of_joined(base, seg);
    assert(name.len() >= 3 ==> name.take(3)[0] == name[0]);
    assert(joined(slashed(base), name) =~= joined(base, name));
}

/// Two directories up from two segments below a directory is that directory.
pub proof fn lemma_two_up(root: Seq<char>, a: Seq<char>, b: Seq<char>, c: Seq<char>, name: Seq<char>)
    requires
        is_segment(a),
        is_segment(b),
        c.len() > 0,
        !c.contains('/'),
        name.len() > 0,
        name[0] != '/',
        name[0] != '.',
    ensures
        followed(dir_of(joined(joined(joined(root, a), b), c)), joined("../.."@, name)) == joined(
            root,
            name,
        ),
{
    reveal_strlit("../..");
    reveal_strlit("../");
    reveal_strlit("/");
    let first = joined(root, a);
    let second = joined(first, b);
    lemma_dir_of_joined(root, a);
    lemma_dir_of_joined(first, b);
    lemma_dir_of_joined(second, c);
    let target = joined("../.."@, name);
    let d = slashed(second);
    assert(target.take(3) =~= "../"@);
    assert(d.drop_last() =~= second);
    let rest = target.skip(3);
    assert(rest.take(3) =~= "../"@);
    assert(slashed(first).drop_last() =~= first);
    assert(rest.skip(3) =~= name);
    assert(name.len() >= 3 ==> name.take(3)[0] == name[0]);
    reveal_with_fuel(followed, 3);
    assert(followed(slashed(root), name) == joined(slashed(root), name));
    assert(joined(slashed(root), name) =~= joined(root, name));
}

pub fn join_path(base: &str, rest: &str) -> (r: String)
    ensures
        r@ == joined(base@, rest@),
{
    let b = chars_of(base);
    let c = chars_of(rest);
    if c.len() > 0 && c[0] == '/' {
        return rest.to_owned();
    }
    let mut out = base.to_owned();
    if b.len() > 0 && b[b.len() - 1] != '/' {
        out.append("/");
    }
    out.append(rest);
    out
}

} // verus!
