//! What the words of the vocabulary mean: how the functions on texts and lists
//! behave on parts, and which characters and numbers they tell apart.

use crate::collect::{byte_len, collected, first_some, flattened};
use crate::json::{
    bool_member, i64_of_json, items_of_json, member, members_of_json, text_member, text_member_or,
    u64_of_json, JsonV,
};
use crate::order::{
    distinct_texts, law_distinct_texts, lemma_occurrences, lemma_ordered_ascending,
    lemma_ordered_multiset, lemma_text_order, ordered, placed, sorted_texts, tally, text_order,
};
use crate::text::{
    ascii_lowercase, concat, decimal, integer, join, lemma_decimal_is_digits, text_le, trim,
    white_space,
};
use vstd::prelude::*;

verus! {

// ---------------------------------------------------------------------------
// Parts of a text
// ---------------------------------------------------------------------------

/// `part` stands in `text` at `i`.
pub open spec fn stands_at(text: Seq<char>, part: Seq<char>, i: int) -> bool {
    0 <= i && i + part.len() <= text.len() && text.subrange(i, i + part.len()) == part
}

/// `part` stands somewhere in `text`.
pub open spec fn stands_in(text: Seq<char>, part: Seq<char>) -> bool {
    exists|i: int| #[trigger] stands_at(text, part, i)
}

/// What stands in a part of a text stands in the text.
pub proof fn lemma_stands_around(before: Seq<char>, s: Seq<char>, after: Seq<char>, part: Seq<char>)
    requires
        stands_in(s, part),
    ensures
        stands_in(before + s + after, part),
{
    let i = choose|i: int| #[trigger] stands_at(s, part, i);
    let n = before.len() as int;
    assert((before + s + after).subrange(n + i, n + i + part.len()) =~= s.subrange(
        i,
        i + part.len(),
    ));
    assert(stands_at(before + s + after, part, n + i));
}

/// A text stands in itself.
pub proof fn lemma_stands_self(s: Seq<char>)
    ensures
        stands_in(s, s),
{
    assert(s.subrange(0, s.len() as int) =~= s);
    assert(stands_at(s, s, 0));
}

/// A part of a sum of texts stands in the sum.
pub proof fn lemma_stands_between(before: Seq<char>, s: Seq<char>, after: Seq<char>)
    ensures
        stands_in(before + s + after, s),
{
    lemma_stands_self(s);
    lemma_stands_around(before, s, after, s);
}

/// What stands in what stands in a text stands in the text.
pub proof fn lemma_stands_trans(text: Seq<char>, s: Seq<char>, part: Seq<char>)
    requires
        stands_in(text, s),
        stands_in(s, part),
    ensures
        stands_in(text, part),
{
    let i = choose|i: int| #[trigger] stands_at(text, s, i);
    let before = text.take(i);
    let after = text.skip(i + s.len());
    assert(text =~= before + s + after);
    lemma_stands_around(before, s, after, part);
}

/// Two texts one after the other are as long as both, and each part stands there.
pub proof fn law_concat_of_parts(a: Seq<Seq<char>>, b: Seq<Seq<char>>, x: Seq<char>)
    ensures
        concat(Seq::<Seq<char>>::empty()) == Seq::<char>::empty(),
        concat(seq![x]) == x,
        concat(a + b) == concat(a) + concat(b),
    decreases b.len(),
{
    reveal_with_fuel(concat, 2);
    assert(seq![x].drop_last() =~= Seq::<Seq<char>>::empty());
    assert(concat(seq![x]) =~= x);
    if b.len() == 0 {
        assert(a + b =~= a);
        assert(concat(a) + concat(b) =~= concat(a));
    } else {
        law_concat_of_parts(a, b.drop_last(), x);
        assert((a + b).drop_last() =~= a + b.drop_last());
        assert(concat(a + b) =~= concat(a) + concat(b));
    }
}

/// The parts before, one part, and the parts behind it.
pub proof fn lemma_concat_split(parts: Seq<Seq<char>>, i: int)
    requires
        0 <= i < parts.len(),
    ensures
        concat(parts) == concat(parts.take(i)) + parts[i] + concat(parts.skip(i + 1)),
{
    assert(parts =~= parts.take(i) + seq![parts[i]] + parts.skip(i + 1));
    law_concat_of_parts(parts.take(i) + seq![parts[i]], parts.skip(i + 1), parts[i]);
    law_concat_of_parts(parts.take(i), seq![parts[i]], parts[i]);
}

pub proof fn lemma_concat_stands(parts: Seq<Seq<char>>, i: int)
    requires
        0 <= i < parts.len(),
    ensures
        stands_in(concat(parts), parts[i]),
{
    lemma_concat_split(parts, i);
    lemma_stands_between(concat(parts.take(i)), parts[i], concat(parts.skip(i + 1)));
}

/// Joined texts have the separator between any two neighbours, and nowhere else.
pub proof fn law_join_of_parts(
    a: Seq<Seq<char>>,
    b: Seq<Seq<char>>,
    x: Seq<char>,
    sep: Seq<char>,
)
    ensures
        join(Seq::<Seq<char>>::empty(), sep) == Seq::<char>::empty(),
        join(seq![x], sep) == x,
        a.len() > 0 && b.len() > 0 ==> join(a + b, sep) == join(a, sep) + sep + join(b, sep),
    decreases b.len(),
{
    if a.len() > 0 && b.len() > 0 {
        assert((a + b).drop_last() =~= a + b.drop_last());
        assert((a + b).last() == b.last());
        if b.len() == 1 {
            assert(a + b.drop_last() =~= a);
            assert(join(b, sep) == b.last());
        } else {
            law_join_of_parts(a, b.drop_last(), x, sep);
            assert(join(a + b, sep) =~= join(a, sep) + sep + join(b, sep));
        }
    }
}

pub proof fn lemma_join_stands(parts: Seq<Seq<char>>, sep: Seq<char>, i: int)
    requires
        0 <= i < parts.len(),
    ensures
        stands_in(join(parts, sep), parts[i]),
    decreases parts.len(),
{
    let none = Seq::<char>::empty();
    if parts.len() == 1 {
        lemma_stands_self(parts[0]);
    } else if i == parts.len() - 1 {
        let before = join(parts.drop_last(), sep) + sep;
        lemma_stands_between(before, parts[i], none);
        assert(before + parts[i] + none =~= join(parts, sep));
    } else {
        lemma_join_stands(parts.drop_last(), sep, i);
        let rest = sep + parts.last();
        lemma_stands_around(none, join(parts.drop_last(), sep), rest, parts[i]);
        assert(none + join(parts.drop_last(), sep) + rest =~= join(parts, sep));
    }
}

// ---------------------------------------------------------------------------
// Lists
// ---------------------------------------------------------------------------

/// What is collected of two lists one after the other is what is collected of
/// each; of one item it is what is made of it, if anything.
pub proof fn law_collected_of_parts<A, B>(
    a: Seq<A>,
    b: Seq<A>,
    x: A,
    f: spec_fn(A) -> Option<B>,
)
    ensures
        collected(Seq::<A>::empty(), f) == Seq::<B>::empty(),
        collected(seq![x], f) == (match f(x) {
            Some(y) => seq![y],
            None => Seq::empty(),
        }),
        collected(a + b, f) == collected(a, f) + collected(b, f),
    decreases b.len(),
{
    reveal_with_fuel(collected, 2);
    assert(seq![x].drop_last() =~= Seq::<A>::empty());
    assert(collected(seq![x], f) =~= (match f(x) {
        Some(y) => seq![y],
        None => Seq::empty(),
    }));
    if b.len() == 0 {
        assert(a + b =~= a);
        assert(collected(a, f) + collected(b, f) =~= collected(a, f));
    } else {
        law_collected_of_parts(a, b.drop_last(), x, f);
        assert((a + b).drop_last() =~= a + b.drop_last());
        assert(collected(a + b, f) =~= collected(a, f) + collected(b, f));
    }
}

/// The lists made of two lists one after the other stand one after the other.
pub proof fn law_flattened_of_parts<A, B>(a: Seq<A>, b: Seq<A>, x: A, f: spec_fn(A) -> Seq<B>)
    ensures
        flattened(Seq::<A>::empty(), f) == Seq::<B>::empty(),
        flattened(seq![x], f) == f(x),
        flattened(a + b, f) == flattened(a, f) + flattened(b, f),
    decreases b.len(),
{
    reveal_with_fuel(flattened, 2);
    assert(seq![x].drop_last() =~= Seq::<A>::empty());
    assert(flattened(seq![x], f) =~= f(x));
    if b.len() == 0 {
        assert(a + b =~= a);
        assert(flattened(a, f) + flattened(b, f) =~= flattened(a, f));
    } else {
        law_flattened_of_parts(a, b.drop_last(), x, f);
        assert((a + b).drop_last() =~= a + b.drop_last());
        assert(flattened(a + b, f) =~= flattened(a, f) + flattened(b, f));
    }
}

/// Where nothing is made of any item, nothing is found.
pub proof fn law_first_some_of_none<A, B>(xs: Seq<A>, f: spec_fn(A) -> Option<B>)
    requires
        forall|i: int| 0 <= i < xs.len() ==> f(#[trigger] xs[i]) is None,
    ensures
        first_some(xs, f) is None,
    decreases xs.len(),
{
    if xs.len() > 0 {
        let rest = xs.drop_first();
        assert(f(xs[0]) is None);
        assert forall|i: int| 0 <= i < rest.len() implies f(#[trigger] rest[i]) is None by {
            assert(f(xs[i + 1]) is None);
        }
        law_first_some_of_none(rest, f);
    }
}

/// The first of a list that something is made of is found before any other.
pub proof fn law_first_some_is_first<A, B>(xs: Seq<A>, f: spec_fn(A) -> Option<B>, i: int)
    requires
        0 <= i < xs.len(),
        f(xs[i]) is Some,
        forall|k: int| 0 <= k < i ==> f(#[trigger] xs[k]) is None,
    ensures
        first_some(xs, f) == f(xs[i]),
    decreases xs.len(),
{
    if i > 0 {
        assert(f(xs[0]) is None);
        let rest = xs.drop_first();
        assert forall|k: int| 0 <= k < i - 1 implies f(#[trigger] rest[k]) is None by {
            assert(f(xs[k + 1]) is None);
        }
        law_first_some_is_first(rest, f, i - 1);
    }
}

/// What is found is made of an item, and nothing is made of those before it.
pub proof fn lemma_first_some_at<A, B>(xs: Seq<A>, f: spec_fn(A) -> Option<B>) -> (i: int)
    requires
        first_some(xs, f) is Some,
    ensures
        0 <= i < xs.len(),
        f(xs[i]) == first_some(xs, f),
        forall|k: int| 0 <= k < i ==> f(#[trigger] xs[k]) is None,
    decreases xs.len(),
{
    if f(xs[0]) is Some {
        0
    } else {
        let rest = xs.drop_first();
        let j = lemma_first_some_at(rest, f);
        assert forall|k: int| 0 <= k < j + 1 implies f(#[trigger] xs[k]) is None by {
            if k > 0 {
                assert(rest[k - 1] == xs[k]);
            }
        }
        j + 1
    }
}

/// Sorting keeps items that are equal in the order as they stand.
pub proof fn law_sorting_is_stable<A>(
    xs: Seq<A>,
    leq: spec_fn(A, A) -> bool,
    p: spec_fn(A) -> bool,
)
    requires
        forall|a: A, b: A| #[trigger] p(a) && #[trigger] p(b) ==> leq(a, b),
    ensures
        ordered(xs, leq).filter(p) == xs.filter(p),
    decreases xs.len(),
{
    reveal(Seq::filter);
    if xs.len() > 0 {
        law_sorting_is_stable(xs.drop_last(), leq, p);
        lemma_placed_filter(ordered(xs.drop_last(), leq), xs.last(), leq, p);
        assert(xs =~= xs.drop_last().push(xs.last()));
    }
}

proof fn lemma_placed_filter<A>(
    xs: Seq<A>,
    x: A,
    leq: spec_fn(A, A) -> bool,
    p: spec_fn(A) -> bool,
)
    requires
        forall|a: A, b: A| #[trigger] p(a) && #[trigger] p(b) ==> leq(a, b),
    ensures
        placed(xs, x, leq).filter(p) == (if p(x) {
            xs.filter(p).push(x)
        } else {
            xs.filter(p)
        }),
    decreases xs.len(),
{
    reveal(Seq::filter);
    if xs.len() == 0 || leq(xs.last(), x) {
        assert(xs.push(x).drop_last() =~= xs);
    } else {
        let init = xs.drop_last();
        lemma_placed_filter(init, x, leq, p);
        let inner = placed(init, x, leq);
        assert(inner.push(xs.last()).drop_last() =~= inner);
        assert(p(x) ==> !p(xs.last()));
    }
}

/// Sorted texts are the same texts, none above the next.
pub proof fn law_sorted_texts(xs: Seq<Seq<char>>)
    ensures
        sorted_texts(xs).to_multiset() == xs.to_multiset(),
        sorted_texts(xs).len() == xs.len(),
        forall|i: int, j: int|
            0 <= i < j < xs.len() ==> text_le(
                #[trigger] sorted_texts(xs)[i],
                #[trigger] sorted_texts(xs)[j],
            ),
{
    lemma_text_order();
    lemma_ordered_multiset(xs, text_order());
    lemma_ordered_ascending(xs, text_order());
}

/// A tally has one entry for each text that occurs, with how often it does.
pub proof fn law_tally_counts(xs: Seq<Seq<char>>, t: Seq<char>, n: nat)
    ensures
        tally(xs).contains((t, n)) <==> xs.contains(t) && n == xs.to_multiset().count(t),
        forall|i: int, j: int|
            0 <= i < j < tally(xs).len() ==> (#[trigger] tally(xs)[i]).0 != (#[trigger] tally(
                xs,
            )[j]).0 && text_le(tally(xs)[i].0, tally(xs)[j].0),
{
    law_distinct_texts(xs);
    lemma_occurrences(xs, t);
    let keys = distinct_texts(xs);
    if tally(xs).contains((t, n)) {
        let i = choose|i: int| 0 <= i < tally(xs).len() && tally(xs)[i] == (t, n);
        assert(keys[i] == t);
        assert(keys.contains(t));
    }
    if xs.contains(t) && n == xs.to_multiset().count(t) {
        assert(keys.contains(t));
        let i = choose|i: int| 0 <= i < keys.len() && keys[i] == t;
        assert(tally(xs)[i] == (t, n));
    }
    assert forall|i: int, j: int| 0 <= i < j < tally(xs).len() implies (#[trigger] tally(xs)[i]).0
        != (#[trigger] tally(xs)[j]).0 && text_le(tally(xs)[i].0, tally(xs)[j].0) by {
        assert(keys[i] != keys[j]);
        assert(text_order()(keys[i], keys[j]));
    }
}

// ---------------------------------------------------------------------------
// Characters
// ---------------------------------------------------------------------------

/// White space is what Unicode calls so: these code points and no others.
pub proof fn law_white_space(c: char)
    ensures
        white_space(c) <==> ({
            let n = c as int;
            9 <= n <= 13 || n == 32 || n == 133 || n == 160 || n == 5760 || 8192 <= n <= 8202 || n
                == 8232 || n == 8233 || n == 8239 || n == 8287 || n == 12288
        }),
{
}

/// The text is white space throughout.
pub open spec fn blank(s: Seq<char>) -> bool {
    forall|i: int| 0 <= i < s.len() ==> white_space(#[trigger] s[i])
}

/// The text is empty, or neither starts nor ends with white space.
pub open spec fn bare(s: Seq<char>) -> bool {
    s.len() > 0 ==> !white_space(s[0]) && !white_space(s.last())
}

/// Trimming takes the white space around a text and nothing else.
pub proof fn law_trim(before: Seq<char>, core: Seq<char>, after: Seq<char>)
    requires
        blank(before),
        bare(core),
        blank(after),
    ensures
        trim(before + core + after) == core,
    decreases before.len() + after.len(),
{
    let s = before + core + after;
    if before.len() > 0 {
        assert(white_space(before[0]));
        let rest = before.drop_first();
        assert forall|i: int| 0 <= i < rest.len() implies white_space(#[trigger] rest[i]) by {
            assert(white_space(before[i + 1]));
        }
        assert(s.drop_first() =~= rest + core + after);
        law_trim(rest, core, after);
    } else if core.len() > 0 {
        assert(s[0] == core[0]);
        if after.len() > 0 {
            assert(white_space(after[after.len() - 1]));
            let rest = after.drop_last();
            assert forall|i: int| 0 <= i < rest.len() implies white_space(#[trigger] rest[i]) by {
                assert(white_space(after[i]));
            }
            assert(s.drop_last() =~= before + core + rest);
            law_trim(before, core, rest);
        } else {
            assert(s =~= core);
        }
    } else if after.len() > 0 {
        assert(white_space(after[0]));
        let rest = after.drop_first();
        assert forall|i: int| 0 <= i < rest.len() implies white_space(#[trigger] rest[i]) by {
            assert(white_space(after[i + 1]));
        }
        assert(s.drop_first() =~= before + core + rest);
        law_trim(before, core, rest);
    } else {
        assert(s =~= core);
    }
}

/// Every text is white space, a bare core, and white space.
pub proof fn lemma_trim_parts(s: Seq<char>) -> (parts: (Seq<char>, Seq<char>))
    ensures
        s == parts.0 + trim(s) + parts.1,
        blank(parts.0),
        blank(parts.1),
        bare(trim(s)),
    decreases s.len(),
{
    let none = Seq::<char>::empty();
    if s.len() > 0 && white_space(s[0]) {
        let p = lemma_trim_parts(s.drop_first());
        let before = seq![s[0]] + p.0;
        assert forall|i: int| 0 <= i < before.len() implies white_space(#[trigger] before[i]) by {
            if i > 0 {
                assert(white_space(p.0[i - 1]));
            }
        }
        assert(s =~= seq![s[0]] + s.drop_first());
        assert(s =~= before + trim(s) + p.1);
        (before, p.1)
    } else if s.len() > 0 && white_space(s.last()) {
        let p = lemma_trim_parts(s.drop_last());
        let after = p.1.push(s.last());
        assert forall|i: int| 0 <= i < after.len() implies white_space(#[trigger] after[i]) by {
            if i < p.1.len() {
                assert(white_space(p.1[i]));
            }
        }
        assert(s =~= s.drop_last().push(s.last()));
        assert(s =~= p.0 + trim(s) + after);
        (p.0, after)
    } else {
        assert(s =~= none + trim(s) + none);
        (none, none)
    }
}

/// The lower-case form changes the 26 capital letters of ASCII and nothing else.
pub proof fn law_ascii_lowercase(s: Seq<char>, i: int)
    requires
        0 <= i < s.len(),
    ensures
        ascii_lowercase(s).len() == s.len(),
        65 <= s[i] as int <= 90 ==> ascii_lowercase(s)[i] as int == s[i] as int + 32,
        !(65 <= s[i] as int <= 90) ==> ascii_lowercase(s)[i] == s[i],
{
}

/// Texts stand in the order of their characters: one is not behind another just
/// where it is the start of it, or has the smaller one of the first two
/// characters in which they differ.
pub proof fn law_text_order_is_lexicographic(a: Seq<char>, b: Seq<char>)
    ensures
        text_le(a, b) <==> {
            ||| a.len() <= b.len() && a == b.take(a.len() as int)
            ||| exists|k: int|
                0 <= k < a.len() && k < b.len() && a.take(k) == b.take(k) && (#[trigger] a[k])
                    < b[k]
        },
    decreases a.len(),
{
    if a.len() == 0 {
        assert(a =~= b.take(0));
    } else if b.len() > 0 {
        if a[0] != b[0] {
            if a[0] < b[0] {
                assert(a.take(0) =~= b.take(0));
            } else {
                if a.len() <= b.len() {
                    assert(b.take(a.len() as int)[0] == b[0]);
                }
                assert forall|k: int|
                    0 <= k < a.len() && k < b.len() && a.take(k) == b.take(k) implies !((
                #[trigger] a[k]) < b[k]) by {
                    if k > 0 {
                        assert(a.take(k)[0] == b.take(k)[0]);
                    }
                }
            }
        } else {
            let x = a.drop_first();
            let y = b.drop_first();
            law_text_order_is_lexicographic(x, y);
            assert(a =~= seq![a[0]] + x);
            assert(b =~= seq![b[0]] + y);
            if a.len() <= b.len() {
                assert(b.take(a.len() as int) =~= seq![b[0]] + y.take(x.len() as int));
                if x == y.take(x.len() as int) {
                    assert(a == b.take(a.len() as int));
                }
                if a == b.take(a.len() as int) {
                    assert(x =~= y.take(x.len() as int));
                }
            }
            if exists|k: int|
                0 <= k < x.len() && k < y.len() && x.take(k) == y.take(k) && (#[trigger] x[k])
                    < y[k] {
                let k = choose|k: int|
                    0 <= k < x.len() && k < y.len() && x.take(k) == y.take(k) && (#[trigger] x[k])
                        < y[k];
                assert(a.take(k + 1) =~= seq![a[0]] + x.take(k));
                assert(b.take(k + 1) =~= seq![b[0]] + y.take(k));
                assert(a[k + 1] < b[k + 1]);
            }
            if exists|k: int|
                0 <= k < a.len() && k < b.len() && a.take(k) == b.take(k) && (#[trigger] a[k])
                    < b[k] {
                let k = choose|k: int|
                    0 <= k < a.len() && k < b.len() && a.take(k) == b.take(k) && (#[trigger] a[k])
                        < b[k];
                assert(x.take(k - 1) =~= a.take(k).drop_first());
                assert(y.take(k - 1) =~= b.take(k).drop_first());
                assert(x[k - 1] < y[k - 1]);
            }
        }
    }
}

// ---------------------------------------------------------------------------
// Numbers
// ---------------------------------------------------------------------------

/// The number that decimal digits write.
pub open spec fn written(digits: Seq<char>) -> int
    decreases digits.len(),
{
    if digits.len() == 0 {
        0
    } else {
        10 * written(digits.drop_last()) + (digits.last() as int - 48)
    }
}

/// A number is printed in decimal digits that write it, without a zero before.
pub proof fn law_decimal_writes_the_number(n: nat)
    ensures
        written(decimal(n)) == n,
        decimal(n).len() > 0,
        forall|i: int| 0 <= i < decimal(n).len() ==> 48 <= #[trigger] decimal(n)[i] as int <= 57,
        decimal(n)[0] == '0' ==> n == 0,
    decreases n,
{
    lemma_decimal_is_digits(n);
    if n < 10 {
        assert(decimal(n).drop_last() =~= Seq::<char>::empty());
        reveal_with_fuel(written, 2);
        assert(decimal(n).last() as int == 48 + n);
    } else {
        law_decimal_writes_the_number(n / 10);
        assert(decimal(n).drop_last() =~= decimal(n / 10));
        assert(decimal(n).last() as int == 48 + n % 10);
        assert(decimal(n)[0] == decimal(n / 10)[0]);
    }
}

/// A negative number is printed as a minus sign and what it is the negative of.
pub proof fn law_integer_has_a_sign(n: int)
    ensures
        n >= 0 ==> integer(n) == decimal(n as nat),
        n < 0 ==> integer(n) == seq!['-'] + decimal((-n) as nat),
{
}

// ---------------------------------------------------------------------------
// JSON
// ---------------------------------------------------------------------------

/// A member is found where its name first stands, and only objects have members.
pub proof fn law_members_are_found(ms: Seq<(Seq<char>, JsonV)>, key: Seq<char>, i: int)
    requires
        0 <= i < ms.len(),
        ms[i].0 == key,
        forall|k: int| 0 <= k < i ==> (#[trigger] ms[k]).0 != key,
    ensures
        member(Some(JsonV::Object(ms)), key) == Some(ms[i].1),
    decreases i,
{
    if i > 0 {
        assert(ms[0].0 != key);
        let rest = ms.drop_first();
        assert forall|k: int| 0 <= k < i - 1 implies (#[trigger] rest[k]).0 != key by {
            assert(ms[k + 1].0 != key);
        }
        law_members_are_found(rest, key, i - 1);
    }
}

/// Where no member has a name, there is nothing under it.
pub proof fn law_missing_members(j: Option<JsonV>, key: Seq<char>)
    requires
        j matches Some(JsonV::Object(ms)) ==> forall|k: int|
            0 <= k < ms.len() ==> (#[trigger] ms[k]).0 != key,
    ensures
        member(j, key) is None,
    decreases (match j {
        Some(JsonV::Object(ms)) => ms.len(),
        _ => 0,
    }),
{
    if let Some(JsonV::Object(ms)) = j {
        if ms.len() > 0 {
            assert(ms[0].0 != key);
            let rest = ms.drop_first();
            assert forall|k: int| 0 <= k < rest.len() implies (#[trigger] rest[k]).0 != key by {
                assert(ms[k + 1].0 != key);
            }
            law_missing_members(Some(JsonV::Object(rest)), key);
        }
    }
}

/// A member is read by what it is: a text, a boolean, an integer, a list.
pub proof fn law_members_are_read_by_type(j: Option<JsonV>, key: Seq<char>, default: Seq<char>)
    ensures
        match member(j, key) {
            Some(JsonV::Text(s)) => text_member(j, key) == Some(s) && text_member_or(
                j,
                key,
                default,
            ) == s,
            _ => text_member(j, key) is None && text_member_or(j, key, default) == default,
        },
        match member(j, key) {
            Some(JsonV::Bool(b)) => bool_member(j, key) == Some(b),
            _ => bool_member(j, key) is None,
        },
        match j {
            Some(JsonV::Int(i)) => {
                &&& i64_of_json(j) is Some <==> -0x8000_0000_0000_0000 <= i
                    <= 0x7fff_ffff_ffff_ffff
                &&& i64_of_json(j) is Some ==> i64_of_json(j)->0 == i
                &&& u64_of_json(j) is Some <==> 0 <= i <= 0xffff_ffff_ffff_ffff
                &&& u64_of_json(j) is Some ==> u64_of_json(j)->0 == i
            },
            _ => i64_of_json(j) is None && u64_of_json(j) is None,
        },
        items_of_json(j) == (match j {
            Some(JsonV::Array(xs)) => xs,
            _ => Seq::empty(),
        }),
        members_of_json(j) == (match j {
            Some(JsonV::Object(ms)) => ms,
            _ => Seq::empty(),
        }),
{
}

// ---------------------------------------------------------------------------
// Bytes
// ---------------------------------------------------------------------------

/// A text takes as many bytes as its characters: one up to 127, two up to 2047,
/// three up to 65535, and four above.
pub proof fn law_bytes_are_counted(a: Seq<char>, b: Seq<char>, c: char)
    ensures
        byte_len(a + b) == byte_len(a) + byte_len(b),
        byte_len(Seq::<char>::empty()) == 0,
        byte_len(seq![c]) == (if c as int <= 127 {
            1nat
        } else if c as int <= 2047 {
            2
        } else if c as int <= 65535 {
            3
        } else {
            4
        }),
    decreases b.len(),
{
    reveal_with_fuel(byte_len, 2);
    assert(seq![c].drop_last() =~= Seq::<char>::empty());
    assert(c as u32 == c as int);
    if b.len() == 0 {
        assert(a + b =~= a);
    } else {
        law_bytes_are_counted(a, b.drop_last(), c);
        assert((a + b).drop_last() =~= a + b.drop_last());
    }
}

} // verus!
