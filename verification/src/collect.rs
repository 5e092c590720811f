//! Filtering, searching and measuring sequences.

use vstd::prelude::*;

verus! {

/// What `f` makes of the items of `xs`, in order, where it makes something
/// (`Iterator::filter_map`).
pub open spec fn collected<A, B>(xs: Seq<A>, f: spec_fn(A) -> Option<B>) -> Seq<B>
    decreases xs.len(),
{
    if xs.len() == 0 {
        Seq::empty()
    } else {
        match f(xs.last()) {
            Some(b) => collected(xs.drop_last(), f).push(b),
            None => collected(xs.drop_last(), f),
        }
    }
}

pub proof fn lemma_collected_step<A, B>(xs: Seq<A>, f: spec_fn(A) -> Option<B>, i: int)
    requires
        0 <= i < xs.len(),
    ensures
        collected(xs.take(i + 1), f) == (match f(xs[i]) {
            Some(b) => collected(xs.take(i), f).push(b),
            None => collected(xs.take(i), f),
        }),
{
    assert(xs.take(i + 1).drop_last() =~= xs.take(i));
}

/// What `f` makes of the first item of `xs` of which it makes something
/// (`Iterator::find_map`).
pub open spec fn first_some<A, B>(xs: Seq<A>, f: spec_fn(A) -> Option<B>) -> Option<B>
    decreases xs.len(),
{
    if xs.len() == 0 {
        None
    } else {
        match f(xs[0]) {
            Some(b) => Some(b),
            None => first_some(xs.drop_first(), f),
        }
    }
}

pub proof fn lemma_first_some_step<A, B>(xs: Seq<A>, f: spec_fn(A) -> Option<B>, i: int)
    requires
        0 <= i < xs.len(),
    ensures
        first_some(xs.skip(i), f) == (match f(xs[i]) {
            Some(b) => Some(b),
            None => first_some(xs.skip(i + 1), f),
        }),
{
    assert(xs.skip(i).drop_first() =~= xs.skip(i + 1));
}

/// The items that `f` makes of the items of `xs`, one list after the other
/// (`Iterator::flat_map`).
pub open spec fn flattened<A, B>(xs: Seq<A>, f: spec_fn(A) -> Seq<B>) -> Seq<B>
    decreases xs.len(),
{
    if xs.len() == 0 {
        Seq::empty()
    } else {
        flattened(xs.drop_last(), f) + f(xs.last())
    }
}

pub proof fn lemma_flattened_step<A, B>(xs: Seq<A>, f: spec_fn(A) -> Seq<B>, i: int)
    requires
        0 <= i < xs.len(),
    ensures
        flattened(xs.take(i + 1), f) == flattened(xs.take(i), f) + f(xs[i]),
{
    assert(xs.take(i + 1).drop_last() =~= xs.take(i));
}

/// What is collected is what `f` makes of some item.
pub proof fn lemma_collected_from<A, B>(xs: Seq<A>, f: spec_fn(A) -> Option<B>, b: B) -> (i: int)
    requires
        collected(xs, f).contains(b),
    ensures
        0 <= i < xs.len(),
        f(xs[i]) == Some(b),
    decreases xs.len(),
{
    let init = xs.drop_last();
    let k = choose|k: int| 0 <= k < collected(xs, f).len() && collected(xs, f)[k] == b;
    if f(xs.last()) is Some && k == collected(init, f).len() {
        xs.len() - 1
    } else {
        assert(collected(init, f)[k] == b);
        assert(collected(init, f).contains(b));
        lemma_collected_from(init, f, b)
    }
}

/// What `f` makes of an item is collected.
pub proof fn lemma_collected_has<A, B>(xs: Seq<A>, f: spec_fn(A) -> Option<B>, i: int)
    requires
        0 <= i < xs.len(),
        f(xs[i]) is Some,
    ensures
        collected(xs, f).contains(f(xs[i])->0),
    decreases xs.len(),
{
    let b = f(xs[i])->0;
    let init = xs.drop_last();
    if i == xs.len() - 1 {
        assert(collected(xs, f)[collected(xs, f).len() - 1] == b);
    } else {
        lemma_collected_has(init, f, i);
        let k = choose|k: int| 0 <= k < collected(init, f).len() && collected(init, f)[k] == b;
        assert(collected(xs, f)[k] == b);
    }
}

/// Two items of which `f` makes something are two that are collected.
pub proof fn lemma_collected_two<A, B>(xs: Seq<A>, f: spec_fn(A) -> Option<B>, i: int, j: int)
    requires
        0 <= i < j < xs.len(),
        f(xs[i]) is Some,
        f(xs[j]) is Some,
    ensures
        collected(xs, f).len() >= 2,
    decreases xs.len(),
{
    let init = xs.drop_last();
    if j == xs.len() - 1 {
        lemma_collected_has(init, f, i);
    } else {
        lemma_collected_two(init, f, i, j);
    }
}

/// Where two are collected, `f` makes something of two items, one of which can
/// be any that it makes something of.
pub proof fn lemma_collected_other<A, B>(xs: Seq<A>, f: spec_fn(A) -> Option<B>, i: int) -> (j: int)
    requires
        collected(xs, f).len() >= 2,
        0 <= i < xs.len(),
    ensures
        0 <= j < xs.len(),
        j != i,
        f(xs[j]) is Some,
    decreases xs.len(),
{
    let init = xs.drop_last();
    if i < xs.len() - 1 && f(xs.last()) is Some {
        xs.len() - 1
    } else if i == xs.len() - 1 {
        assert(collected(init, f).len() >= 1);
        let b = collected(init, f)[0];
        assert(collected(init, f).contains(b));
        lemma_collected_from(init, f, b)
    } else {
        lemma_collected_other(init, f, i)
    }
}

/// What is in some list is in the lists one after the other.
pub proof fn lemma_flattened_has<A, B>(xs: Seq<A>, f: spec_fn(A) -> Seq<B>, i: int, b: B)
    requires
        0 <= i < xs.len(),
        f(xs[i]).contains(b),
    ensures
        flattened(xs, f).contains(b),
    decreases xs.len(),
{
    let init = xs.drop_last();
    if i == xs.len() - 1 {
        let ys = f(xs[i]);
        let k = choose|k: int| 0 <= k < ys.len() && ys[k] == b;
        assert(flattened(xs, f)[flattened(init, f).len() + k] == b);
    } else {
        lemma_flattened_has(init, f, i, b);
        let k = choose|k: int| 0 <= k < flattened(init, f).len() && flattened(init, f)[k] == b;
        assert(flattened(xs, f)[k] == b);
    }
}

/// What is in the lists one after the other is in one of them.
pub proof fn lemma_flattened_from<A, B>(xs: Seq<A>, f: spec_fn(A) -> Seq<B>, b: B) -> (i: int)
    requires
        flattened(xs, f).contains(b),
    ensures
        0 <= i < xs.len(),
        f(xs[i]).contains(b),
    decreases xs.len(),
{
    let init = xs.drop_last();
    let k = choose|k: int| 0 <= k < flattened(xs, f).len() && flattened(xs, f)[k] == b;
    if k < flattened(init, f).len() {
        assert(flattened(init, f)[k] == b);
        assert(flattened(init, f).contains(b));
        lemma_flattened_from(init, f, b)
    } else {
        assert(f(xs.last())[k - flattened(init, f).len()] == b);
        xs.len() - 1
    }
}

/// What a search finds is what `f` makes of some item.
pub proof fn lemma_first_some_from<A, B>(xs: Seq<A>, f: spec_fn(A) -> Option<B>) -> (i: int)
    requires
        first_some(xs, f) is Some,
    ensures
        0 <= i < xs.len(),
        f(xs[i]) == first_some(xs, f),
    decreases xs.len(),
{
    if f(xs[0]) is Some {
        0
    } else {
        1 + lemma_first_some_from(xs.drop_first(), f)
    }
}

/// How many bytes a character takes in UTF-8.
pub open spec fn utf8_width(c: char) -> nat {
    if (c as u32) < 0x80 {
        1
    } else if (c as u32) < 0x800 {
        2
    } else if (c as u32) < 0x10000 {
        3
    } else {
        4
    }
}

/// How many bytes a text takes in UTF-8.
pub open spec fn byte_len(s: Seq<char>) -> nat
    decreases s.len(),
{
    if s.len() == 0 {
        0
    } else {
        byte_len(s.drop_last()) + utf8_width(s.last())
    }
}

/// The longest prefix of `s` that takes at most `limit` bytes.
pub open spec fn clipped(s: Seq<char>, limit: nat) -> Seq<char>
    decreases s.len(),
{
    if s.len() == 0 || byte_len(s) <= limit {
        s
    } else {
        clipped(s.drop_last(), limit)
    }
}

pub proof fn lemma_byte_len_step(s: Seq<char>, i: int)
    requires
        0 <= i < s.len(),
    ensures
        byte_len(s.take(i + 1)) == byte_len(s.take(i)) + utf8_width(s[i]),
{
    assert(s.take(i + 1).drop_last() =~= s.take(i));
}

pub proof fn lemma_byte_len_monotonic(s: Seq<char>, i: int, j: int)
    requires
        0 <= i <= j <= s.len(),
    ensures
        byte_len(s.take(i)) <= byte_len(s.take(j)),
    decreases j - i,
{
    if i < j {
        lemma_byte_len_monotonic(s, i, j - 1);
        lemma_byte_len_step(s, j - 1);
    }
}

proof fn lemma_clipped(s: Seq<char>, limit: nat, k: int)
    requires
        0 <= k < s.len(),
        byte_len(s.take(k)) <= limit,
        byte_len(s.take(k + 1)) > limit,
    ensures
        clipped(s, limit) == s.take(k),
    decreases s.len(),
{
    lemma_byte_len_monotonic(s, k + 1, s.len() as int);
    assert(s.take(s.len() as int) =~= s);
    let init = s.drop_last();
    if k == init.len() {
        assert(init =~= s.take(k));
        assert(clipped(init, limit) == init);
    } else {
        assert(init.take(k) =~= s.take(k));
        assert(init.take(k + 1) =~= s.take(k + 1));
        lemma_clipped(init, limit, k);
    }
}

/// Clipping keeps a prefix, within the limit, and as much as fits.
pub proof fn law_clipping_fits(s: Seq<char>, limit: nat)
    ensures
        clipped(s, limit).len() <= s.len(),
        clipped(s, limit) == s.take(clipped(s, limit).len() as int),
        byte_len(clipped(s, limit)) <= limit,
        clipped(s, limit).len() < s.len() ==> byte_len(
            s.take(clipped(s, limit).len() as int + 1),
        ) > limit,
    decreases s.len(),
{
    if s.len() == 0 || byte_len(s) <= limit {
        assert(s.take(s.len() as int) =~= s);
    } else {
        let init = s.drop_last();
        law_clipping_fits(init, limit);
        let n = clipped(init, limit).len() as int;
        assert(init.take(n) =~= s.take(n));
        if n == init.len() {
            assert(s.take(n + 1) =~= s);
        } else {
            assert(init.take(n + 1) =~= s.take(n + 1));
        }
    }
}

/// The longest prefix of `v` that takes at most `limit` bytes, and whether that
/// is all of `v`.
pub(crate) fn clip_chars(v: &Vec<char>, limit: usize) -> (r: (String, bool))
    requires
        limit <= 1_000_000,
    ensures
        r.0@ == clipped(v@, limit as nat),
        r.1 == (byte_len(v@) <= limit),
{
    let mut total: usize = 0;
    let mut i: usize = 0;
    while i < v.len()
        invariant
            i <= v@.len(),
            limit <= 1_000_000,
            total == byte_len(v@.take(i as int)),
            total <= limit,
        decreases v@.len() - i,
    {
        let c: u32 = v[i] as u32;
        let width: usize = if c < 0x80 {
            1
        } else if c < 0x800 {
            2
        } else if c < 0x10000 {
            3
        } else {
            4
        };
        proof {
            lemma_byte_len_step(v@, i as int);
        }
        if total + width > limit {
            proof {
                lemma_clipped(v@, limit as nat, i as int);
                lemma_byte_len_monotonic(v@, i + 1, v@.len() as int);
                assert(v@.take(v@.len() as int) =~= v@);
                assert(v@.subrange(0, i as int) =~= v@.take(i as int));
            }
            return (crate::text::slice_text(v, 0, i), false);
        }
        total = total + width;
        i = i + 1;
    }
    assert(v@.take(v@.len() as int) =~= v@);
    (crate::text::text_of(v), true)
}

} // verus!
