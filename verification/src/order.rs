//! Stable sorting, removal of adjacent duplicates, and counting by key.

use crate::text::{same, text_le};
use vstd::prelude::*;

verus! {

/// `xs`, which is sorted, with `x` put behind every item that is at most `x`.
pub open spec fn placed<A>(xs: Seq<A>, x: A, leq: spec_fn(A, A) -> bool) -> Seq<A>
    decreases xs.len(),
{
    if xs.len() == 0 || leq(xs.last(), x) {
        xs.push(x)
    } else {
        placed(xs.drop_last(), x, leq).push(xs.last())
    }
}

/// `xs` in ascending order; items that are equal in the order stay in the order
/// in which they stand in `xs`.
pub open spec fn ordered<A>(xs: Seq<A>, leq: spec_fn(A, A) -> bool) -> Seq<A>
    decreases xs.len(),
{
    if xs.len() == 0 {
        xs
    } else {
        placed(ordered(xs.drop_last(), leq), xs.last(), leq)
    }
}

/// Every two items of `xs` stand in ascending order.
pub open spec fn ascending<A>(xs: Seq<A>, leq: spec_fn(A, A) -> bool) -> bool {
    forall|i: int, j: int| 0 <= i < j < xs.len() ==> leq(#[trigger] xs[i], #[trigger] xs[j])
}

/// `leq` compares any two items, and does so transitively.
pub open spec fn total_preorder<A>(leq: spec_fn(A, A) -> bool) -> bool {
    &&& forall|a: A, b: A| #[trigger] leq(a, b) || leq(b, a)
    &&& forall|a: A, b: A, c: A| #[trigger] leq(a, b) && #[trigger] leq(b, c) ==> leq(a, c)
}

/// No item of `xs` is above `b`.
pub open spec fn all_under<A>(xs: Seq<A>, b: A, leq: spec_fn(A, A) -> bool) -> bool {
    forall|i: int| 0 <= i < xs.len() ==> leq(#[trigger] xs[i], b)
}

pub proof fn lemma_placed_at<A>(xs: Seq<A>, x: A, leq: spec_fn(A, A) -> bool, j: int)
    requires
        0 <= j <= xs.len(),
        j > 0 ==> leq(xs[j - 1], x),
        forall|k: int| j <= k < xs.len() ==> !leq(#[trigger] xs[k], x),
    ensures
        placed(xs, x, leq) == xs.insert(j, x),
    decreases xs.len(),
{
    if j == xs.len() {
        assert(xs.insert(j, x) =~= xs.push(x));
    } else {
        assert(!leq(xs[xs.len() - 1], x));
        lemma_placed_at(xs.drop_last(), x, leq, j);
        assert(xs.insert(j, x) =~= xs.drop_last().insert(j, x).push(xs.last()));
    }
}

pub proof fn lemma_placed_multiset<A>(xs: Seq<A>, x: A, leq: spec_fn(A, A) -> bool)
    ensures
        placed(xs, x, leq).to_multiset() == xs.push(x).to_multiset(),
        placed(xs, x, leq).len() == xs.len() + 1,
    decreases xs.len(),
{
    broadcast use vstd::seq_lib::group_to_multiset_ensures;

    if xs.len() == 0 || leq(xs.last(), x) {
    } else {
        let init = xs.drop_last();
        lemma_placed_multiset(init, x, leq);
        assert(xs =~= init.push(xs.last()));
        assert(placed(init, x, leq).push(xs.last()).to_multiset() =~= placed(
            init,
            x,
            leq,
        ).to_multiset().insert(xs.last()));
        assert(xs.push(x).to_multiset() =~= init.push(x).to_multiset().insert(xs.last()));
    }
}

/// Sorting rearranges: nothing is lost and nothing is added.
pub proof fn lemma_ordered_multiset<A>(xs: Seq<A>, leq: spec_fn(A, A) -> bool)
    ensures
        ordered(xs, leq).to_multiset() == xs.to_multiset(),
        ordered(xs, leq).len() == xs.len(),
    decreases xs.len(),
{
    broadcast use vstd::seq_lib::group_to_multiset_ensures;

    if xs.len() > 0 {
        let init = xs.drop_last();
        lemma_ordered_multiset(init, leq);
        lemma_placed_multiset(ordered(init, leq), xs.last(), leq);
        assert(xs =~= init.push(xs.last()));
    }
}

pub proof fn lemma_placed_ascending<A>(xs: Seq<A>, x: A, leq: spec_fn(A, A) -> bool)
    requires
        ascending(xs, leq),
        total_preorder(leq),
    ensures
        ascending(placed(xs, x, leq), leq),
        forall|b: A| #[trigger] all_under(xs, b, leq) && leq(x, b) ==> all_under(
            placed(xs, x, leq),
            b,
            leq,
        ),
    decreases xs.len(),
{
    let out = placed(xs, x, leq);
    if xs.len() == 0 || leq(xs.last(), x) {
        assert forall|i: int, j: int| 0 <= i < j < out.len() implies leq(
            #[trigger] out[i],
            #[trigger] out[j],
        ) by {
            if j == xs.len() && i < xs.len() - 1 {
                assert(leq(xs[i], xs[xs.len() - 1]));
            }
        }
    } else {
        let init = xs.drop_last();
        assert(ascending(init, leq)) by {
            assert forall|i: int, j: int| 0 <= i < j < init.len() implies leq(
                #[trigger] init[i],
                #[trigger] init[j],
            ) by {
                assert(leq(xs[i], xs[j]));
            }
        }
        lemma_placed_ascending(init, x, leq);
        let b = xs.last();
        assert(leq(x, b));
        assert(all_under(init, b, leq)) by {
            assert forall|i: int| 0 <= i < init.len() implies leq(#[trigger] init[i], b) by {
                assert(leq(xs[i], xs[xs.len() - 1]));
            }
        }
        assert forall|c: A| #[trigger] all_under(xs, c, leq) && leq(x, c) implies all_under(
            out,
            c,
            leq,
        ) by {
            assert(all_under(init, c, leq)) by {
                assert forall|i: int| 0 <= i < init.len() implies leq(#[trigger] init[i], c) by {
                    assert(leq(xs[i], c));
                }
            }
            assert(leq(xs[xs.len() - 1], c));
        }
    }
}

/// Sorting sorts.
pub proof fn lemma_ordered_ascending<A>(xs: Seq<A>, leq: spec_fn(A, A) -> bool)
    requires
        total_preorder(leq),
    ensures
        ascending(ordered(xs, leq), leq),
    decreases xs.len(),
{
    if xs.len() > 0 {
        lemma_ordered_ascending(xs.drop_last(), leq);
        lemma_placed_ascending(ordered(xs.drop_last(), leq), xs.last(), leq);
    }
}

/// Two ascending arrangements of the same items are the same, when the order
/// tells any two different items among them apart.
pub proof fn lemma_ascending_unique<A>(xs: Seq<A>, ys: Seq<A>, leq: spec_fn(A, A) -> bool)
    requires
        ascending(xs, leq),
        ascending(ys, leq),
        total_preorder(leq),
        forall|i: int, j: int|
            0 <= i < xs.len() && 0 <= j < xs.len() && leq(#[trigger] xs[i], #[trigger] xs[j])
                && leq(xs[j], xs[i]) ==> xs[i] == xs[j],
        xs.to_multiset() == ys.to_multiset(),
    ensures
        xs == ys,
    decreases xs.len(),
{
    broadcast use vstd::seq_lib::group_to_multiset_ensures;

    assert(xs.len() == xs.to_multiset().len());
    assert(ys.len() == ys.to_multiset().len());
    if xs.len() == 0 {
        assert(xs =~= ys);
    } else {
        let a = xs.last();
        let b = ys.last();
        assert(xs.contains(a)) by {
            assert(xs[xs.len() - 1] == a);
        }
        assert(ys.contains(b)) by {
            assert(ys[ys.len() - 1] == b);
        }
        assert(xs.to_multiset().count(a) > 0);
        assert(ys.to_multiset().count(b) > 0);
        assert(ys.contains(a));
        assert(xs.contains(b));
        let i = choose|i: int| 0 <= i < ys.len() && ys[i] == a;
        let j = choose|j: int| 0 <= j < xs.len() && xs[j] == b;
        assert(leq(a, a) && leq(b, b));
        assert(leq(ys[i], ys[ys.len() - 1]) || i == ys.len() - 1);
        assert(leq(xs[j], xs[xs.len() - 1]) || j == xs.len() - 1);
        assert(leq(a, b) && leq(b, a));
        assert(xs[xs.len() - 1] == xs[j]);
        let x = xs.drop_last();
        let y = ys.drop_last();
        assert(xs =~= x.push(a));
        assert(ys =~= y.push(a));
        assert(x.to_multiset() =~= y.to_multiset()) by {
            assert(x.push(a).to_multiset() =~= x.to_multiset().insert(a));
            assert(y.push(a).to_multiset() =~= y.to_multiset().insert(a));
            assert(x.to_multiset() =~= x.to_multiset().insert(a).remove(a));
            assert(y.to_multiset() =~= y.to_multiset().insert(a).remove(a));
        }
        assert(ascending(x, leq)) by {
            assert forall|k: int, l: int| 0 <= k < l < x.len() implies leq(
                #[trigger] x[k],
                #[trigger] x[l],
            ) by {
                assert(leq(xs[k], xs[l]));
            }
        }
        assert(ascending(y, leq)) by {
            assert forall|k: int, l: int| 0 <= k < l < y.len() implies leq(
                #[trigger] y[k],
                #[trigger] y[l],
            ) by {
                assert(leq(ys[k], ys[l]));
            }
        }
        assert forall|k: int, l: int|
            0 <= k < x.len() && 0 <= l < x.len() && leq(#[trigger] x[k], #[trigger] x[l]) && leq(
                x[l],
                x[k],
            ) implies x[k] == x[l] by {
            assert(x[k] == xs[k] && x[l] == xs[l]);
        }
        lemma_ascending_unique(x, y, leq);
    }
}

pub proof fn lemma_placed_map<A, B>(
    xs: Seq<A>,
    x: A,
    leq: spec_fn(A, A) -> bool,
    f: spec_fn(A) -> B,
    leq2: spec_fn(B, B) -> bool,
)
    requires
        forall|a: A, b: A| #[trigger] leq(a, b) == leq2(f(a), f(b)),
    ensures
        placed(xs, x, leq).map_values(f) == placed(xs.map_values(f), f(x), leq2),
    decreases xs.len(),
{
    if xs.len() == 0 || leq(xs.last(), x) {
        assert(xs.push(x).map_values(f) =~= xs.map_values(f).push(f(x)));
    } else {
        lemma_placed_map(xs.drop_last(), x, leq, f, leq2);
        assert(xs.drop_last().map_values(f) =~= xs.map_values(f).drop_last());
        assert(placed(xs.drop_last(), x, leq).push(xs.last()).map_values(f) =~= placed(
            xs.drop_last(),
            x,
            leq,
        ).map_values(f).push(f(xs.last())));
    }
}

/// Sorting commutes with a map that keeps the order.
pub proof fn lemma_ordered_map<A, B>(
    xs: Seq<A>,
    leq: spec_fn(A, A) -> bool,
    f: spec_fn(A) -> B,
    leq2: spec_fn(B, B) -> bool,
)
    requires
        forall|a: A, b: A| #[trigger] leq(a, b) == leq2(f(a), f(b)),
    ensures
        ordered(xs, leq).map_values(f) == ordered(xs.map_values(f), leq2),
    decreases xs.len(),
{
    if xs.len() > 0 {
        lemma_ordered_map(xs.drop_last(), leq, f, leq2);
        lemma_placed_map(ordered(xs.drop_last(), leq), xs.last(), leq, f, leq2);
        assert(xs.drop_last().map_values(f) =~= xs.map_values(f).drop_last());
    } else {
        assert(xs.map_values(f) =~= Seq::<B>::empty());
        assert(ordered(xs, leq).map_values(f) =~= Seq::<B>::empty());
    }
}

/// Sorting keeps a property that all items have.
pub proof fn lemma_ordered_keeps<A>(
    xs: Seq<A>,
    leq: spec_fn(A, A) -> bool,
    p: spec_fn(A) -> bool,
)
    requires
        forall|i: int| 0 <= i < xs.len() ==> p(#[trigger] xs[i]),
    ensures
        forall|i: int| 0 <= i < ordered(xs, leq).len() ==> p(#[trigger] ordered(xs, leq)[i]),
{
    broadcast use vstd::seq_lib::group_to_multiset_ensures;

    lemma_ordered_multiset(xs, leq);
    let out = ordered(xs, leq);
    assert forall|i: int| 0 <= i < out.len() implies p(#[trigger] out[i]) by {
        assert(out.contains(out[i]));
        assert(out.to_multiset().count(out[i]) > 0);
        assert(xs.contains(out[i]));
        let k = choose|k: int| 0 <= k < xs.len() && xs[k] == out[i];
        assert(p(xs[k]));
    }
}

proof fn lemma_placed_map_where<A, B>(
    xs: Seq<A>,
    x: A,
    leq: spec_fn(A, A) -> bool,
    f: spec_fn(A) -> B,
    leq2: spec_fn(B, B) -> bool,
    p: spec_fn(A) -> bool,
)
    requires
        forall|a: A, b: A| p(a) && p(b) ==> #[trigger] leq(a, b) == leq2(f(a), f(b)),
        forall|i: int| 0 <= i < xs.len() ==> p(#[trigger] xs[i]),
        p(x),
    ensures
        placed(xs, x, leq).map_values(f) == placed(xs.map_values(f), f(x), leq2),
    decreases xs.len(),
{
    if xs.len() > 0 {
        assert(p(xs[xs.len() - 1]));
        assert(leq(xs.last(), x) == leq2(f(xs.last()), f(x)));
    }
    if xs.len() == 0 || leq(xs.last(), x) {
        assert(xs.push(x).map_values(f) =~= xs.map_values(f).push(f(x)));
    } else {
        let init = xs.drop_last();
        assert forall|i: int| 0 <= i < init.len() implies p(#[trigger] init[i]) by {
            assert(p(xs[i]));
        }
        lemma_placed_map_where(init, x, leq, f, leq2, p);
        assert(init.map_values(f) =~= xs.map_values(f).drop_last());
        assert(placed(init, x, leq).push(xs.last()).map_values(f) =~= placed(
            init,
            x,
            leq,
        ).map_values(f).push(f(xs.last())));
    }
}

/// Sorting commutes with a map that keeps the order of the items that there are.
pub proof fn lemma_ordered_map_where<A, B>(
    xs: Seq<A>,
    leq: spec_fn(A, A) -> bool,
    f: spec_fn(A) -> B,
    leq2: spec_fn(B, B) -> bool,
    p: spec_fn(A) -> bool,
)
    requires
        forall|a: A, b: A| p(a) && p(b) ==> #[trigger] leq(a, b) == leq2(f(a), f(b)),
        forall|i: int| 0 <= i < xs.len() ==> p(#[trigger] xs[i]),
    ensures
        ordered(xs, leq).map_values(f) == ordered(xs.map_values(f), leq2),
    decreases xs.len(),
{
    if xs.len() > 0 {
        let init = xs.drop_last();
        assert forall|i: int| 0 <= i < init.len() implies p(#[trigger] init[i]) by {
            assert(p(xs[i]));
        }
        lemma_ordered_map_where(init, leq, f, leq2, p);
        lemma_ordered_keeps(init, leq, p);
        assert(p(xs[xs.len() - 1]));
        lemma_placed_map_where(ordered(init, leq), xs.last(), leq, f, leq2, p);
        assert(init.map_values(f) =~= xs.map_values(f).drop_last());
    } else {
        assert(xs.map_values(f) =~= Seq::<B>::empty());
        assert(ordered(xs, leq).map_values(f) =~= Seq::<B>::empty());
    }
}

/// A stable sort by the order that `le` computes.
pub(crate) fn sort<T, F: Fn(&T, &T) -> bool>(
    v: Vec<T>,
    le: F,
    Ghost(leq): Ghost<spec_fn(T, T) -> bool>,
) -> (r: Vec<T>)
    requires
        forall|a: &T, b: &T| #[trigger] le.requires((a, b)),
        forall|a: &T, b: &T, c: bool| #[trigger] le.ensures((a, b), c) ==> c == leq(*a, *b),
    ensures
        r@ == ordered(v@, leq),
{
    let mut r: Vec<T> = Vec::new();
    let ghost all = v@;
    for x in it: v
        invariant
            it.seq() == all,
            forall|a: &T, b: &T| #[trigger] le.requires((a, b)),
            forall|a: &T, b: &T, c: bool| #[trigger] le.ensures((a, b), c) ==> c == leq(*a, *b),
            r@ == ordered(all.take(it.index()), leq),
    {
        let mut j: usize = r.len();
        while j > 0 && !le(&r[j - 1], &x)
            invariant
                j <= r@.len(),
                forall|a: &T, b: &T| #[trigger] le.requires((a, b)),
                forall|a: &T, b: &T, c: bool| #[trigger] le.ensures((a, b), c) ==> c == leq(
                    *a,
                    *b,
                ),
                forall|i: int| j <= i < r@.len() ==> !leq(#[trigger] r@[i], x),
            decreases j,
        {
            j = j - 1;
        }
        proof {
            lemma_placed_at(r@, x, leq, j as int);
            assert(all.take(it.index() + 1).drop_last() =~= all.take(it.index()));
        }
        r.insert(j, x);
    }
    assert(all.take(all.len() as int) =~= all);
    r
}

// ---------------------------------------------------------------------------
// Texts in order
// ---------------------------------------------------------------------------

pub open spec fn text_order() -> spec_fn(Seq<char>, Seq<char>) -> bool {
    |a: Seq<char>, b: Seq<char>| text_le(a, b)
}

/// The texts of `xs` in lexicographic order.
pub open spec fn sorted_texts(xs: Seq<Seq<char>>) -> Seq<Seq<char>> {
    ordered(xs, text_order())
}

pub proof fn lemma_text_order()
    ensures
        total_preorder(text_order()),
        forall|a: Seq<char>, b: Seq<char>| #[trigger]
            text_order()(a, b) && text_order()(b, a) ==> a == b,
{
    assert forall|a: Seq<char>, b: Seq<char>| #[trigger] text_order()(a, b) || text_order()(b, a) by {
        crate::text::lemma_text_le_total(a, b);
    }
    assert forall|a: Seq<char>, b: Seq<char>, c: Seq<char>| #[trigger]
        text_order()(a, b) && #[trigger] text_order()(b, c) implies text_order()(a, c) by {
        crate::text::lemma_text_le_transitive(a, b, c);
    }
    assert forall|a: Seq<char>, b: Seq<char>| #[trigger] text_order()(a, b) && text_order()(
        b,
        a,
    ) implies a == b by {
        crate::text::lemma_text_le_antisymmetric(a, b);
    }
}

/// Sorting a list of texts forgets how it was arranged.
pub proof fn lemma_sorted_texts_canonical(xs: Seq<Seq<char>>, ys: Seq<Seq<char>>)
    requires
        xs.to_multiset() == ys.to_multiset(),
    ensures
        sorted_texts(xs) == sorted_texts(ys),
{
    lemma_text_order();
    lemma_ordered_multiset(xs, text_order());
    lemma_ordered_multiset(ys, text_order());
    lemma_ordered_ascending(xs, text_order());
    lemma_ordered_ascending(ys, text_order());
    lemma_ascending_unique(sorted_texts(xs), sorted_texts(ys), text_order());
}

fn string_le(a: &String, b: &String) -> (c: bool)
    ensures
        c == text_le(a@, b@),
{
    crate::text::le(a.as_str(), b.as_str())
}

/// `<[String]>::sort`.
pub(crate) fn sort_texts(v: Vec<String>) -> (r: Vec<String>)
    ensures
        r.deep_view() == sorted_texts(v.deep_view()),
{
    let ghost leq = |a: String, b: String| text_le(a@, b@);
    let ghost all = v;
    let r = sort(v, string_le, Ghost(leq));
    proof {
        let f = |s: String| s@;
        lemma_ordered_map(all@, leq, f, text_order());
        assert(r.deep_view() =~= r@.map_values(f));
        assert(all.deep_view() =~= all@.map_values(f));
    }
    r
}

// ---------------------------------------------------------------------------
// Duplicates and counts
// ---------------------------------------------------------------------------

/// `xs` with each run of equal neighbours shortened to its first item.
pub open spec fn runs<A>(xs: Seq<A>) -> Seq<A>
    decreases xs.len(),
{
    if xs.len() <= 1 {
        xs
    } else if xs.last() == xs[xs.len() - 2] {
        runs(xs.drop_last())
    } else {
        runs(xs.drop_last()).push(xs.last())
    }
}

/// The distinct texts of `xs`, in lexicographic order.
pub open spec fn distinct_texts(xs: Seq<Seq<char>>) -> Seq<Seq<char>> {
    runs(sorted_texts(xs))
}

pub proof fn lemma_runs<A>(xs: Seq<A>)
    ensures
        xs.len() > 0 ==> runs(xs).len() > 0 && runs(xs).last() == xs.last(),
        forall|a: A| #[trigger] runs(xs).contains(a) <==> xs.contains(a),
        runs(xs).len() <= xs.len(),
    decreases xs.len(),
{
    if xs.len() > 1 {
        let init = xs.drop_last();
        lemma_runs(init);
        assert forall|a: A| #[trigger] runs(xs).contains(a) <==> xs.contains(a) by {
            if xs.contains(a) {
                let i = choose|i: int| 0 <= i < xs.len() && xs[i] == a;
                if i < xs.len() - 1 {
                    assert(init[i] == a);
                    assert(init.contains(a));
                    assert(runs(init).contains(a));
                    let k = choose|k: int| 0 <= k < runs(init).len() && runs(init)[k] == a;
                    assert(runs(xs)[k] == a);
                } else if xs.last() == xs[xs.len() - 2] {
                    assert(init[xs.len() - 2] == a);
                    assert(init.contains(a));
                } else {
                    assert(runs(xs)[runs(xs).len() - 1] == a);
                }
            }
            if runs(xs).contains(a) {
                let k = choose|k: int| 0 <= k < runs(xs).len() && runs(xs)[k] == a;
                if k < runs(init).len() {
                    assert(runs(init)[k] == a);
                    assert(runs(init).contains(a));
                    assert(init.contains(a));
                    let i = choose|i: int| 0 <= i < init.len() && init[i] == a;
                    assert(xs[i] == a);
                } else {
                    assert(xs[xs.len() - 1] == a);
                }
            }
        }
    }
}

/// Shortening the runs of a sorted list leaves every item once, in order.
pub proof fn lemma_runs_ascending<A>(xs: Seq<A>, leq: spec_fn(A, A) -> bool)
    requires
        ascending(xs, leq),
        total_preorder(leq),
        forall|a: A, b: A| #[trigger] leq(a, b) && leq(b, a) ==> a == b,
    ensures
        ascending(runs(xs), leq),
        runs(xs).no_duplicates(),
    decreases xs.len(),
{
    if xs.len() > 1 {
        let init = xs.drop_last();
        assert(ascending(init, leq)) by {
            assert forall|k: int, l: int| 0 <= k < l < init.len() implies leq(
                #[trigger] init[k],
                #[trigger] init[l],
            ) by {
                assert(leq(xs[k], xs[l]));
            }
        }
        lemma_runs_ascending(init, leq);
        lemma_runs(init);
        if xs.last() != xs[xs.len() - 2] {
            let r = runs(init);
            let m = xs.last();
            assert forall|k: int| 0 <= k < r.len() implies leq(#[trigger] r[k], m) && r[k] != m by {
                assert(r.contains(r[k]));
                assert(init.contains(r[k]));
                let i = choose|i: int| 0 <= i < init.len() && init[i] == r[k];
                assert(leq(xs[i], xs[xs.len() - 1]));
                if r[k] == m {
                    assert(leq(xs[i], xs[xs.len() - 2]) || i == xs.len() - 2);
                    assert(leq(xs[xs.len() - 2], xs[xs.len() - 1]));
                }
            }
        }
    }
}

/// The distinct texts of `xs` are its texts, in ascending order, each once.
pub proof fn law_distinct_texts(xs: Seq<Seq<char>>)
    ensures
        ascending(distinct_texts(xs), text_order()),
        distinct_texts(xs).no_duplicates(),
        forall|t: Seq<char>| #[trigger] distinct_texts(xs).contains(t) <==> xs.contains(t),
{
    let sorted = sorted_texts(xs);
    lemma_text_order();
    lemma_ordered_ascending(xs, text_order());
    lemma_runs_ascending(sorted, text_order());
    lemma_runs(sorted);
    lemma_ordered_multiset(xs, text_order());
    broadcast use vstd::seq_lib::group_to_multiset_ensures;
    assert forall|t: Seq<char>| #[trigger] distinct_texts(xs).contains(t) <==> xs.contains(t) by {
        assert(sorted.contains(t) <==> sorted.to_multiset().count(t) > 0);
        assert(xs.contains(t) <==> xs.to_multiset().count(t) > 0);
    }
}

/// How many items of `xs` are `x`.
pub open spec fn occurrences<A>(xs: Seq<A>, x: A) -> nat {
    xs.filter(|y: A| y == x).len()
}

/// How often an item occurs is what the multiset of the items counts.
pub proof fn lemma_occurrences<A>(xs: Seq<A>, x: A)
    ensures
        occurrences(xs, x) == xs.to_multiset().count(x),
    decreases xs.len(),
{
    broadcast use vstd::seq_lib::group_to_multiset_ensures;

    reveal(Seq::filter);
    if xs.len() > 0 {
        lemma_occurrences(xs.drop_last(), x);
        assert(xs =~= xs.drop_last().push(xs.last()));
    }
}

/// The images of the same items are the same, whatever the order.
pub proof fn lemma_map_multiset<A, B>(xs: Seq<A>, ys: Seq<A>, f: spec_fn(A) -> B)
    requires
        xs.to_multiset() == ys.to_multiset(),
    ensures
        xs.map_values(f).to_multiset() == ys.map_values(f).to_multiset(),
    decreases xs.len(),
{
    broadcast use vstd::seq_lib::group_to_multiset_ensures;

    assert(xs.len() == xs.to_multiset().len());
    assert(ys.len() == ys.to_multiset().len());
    if xs.len() == 0 {
        assert(xs.map_values(f) =~= ys.map_values(f));
    } else {
        let x = xs.last();
        let init = xs.drop_last();
        assert(xs =~= init.push(x));
        assert(ys.to_multiset().count(x) > 0);
        let j = choose|j: int| 0 <= j < ys.len() && ys[j] == x;
        assert(ys.remove(j).to_multiset() =~= init.to_multiset());
        lemma_map_multiset(init, ys.remove(j), f);
        assert(xs.map_values(f) =~= init.map_values(f).push(f(x)));
        assert(ys.map_values(f).remove(j) =~= ys.remove(j).map_values(f));
        assert(ys.map_values(f)[j] == f(x));
        assert(ys.map_values(f).contains(f(x)));
        assert(ys.map_values(f).to_multiset().count(f(x)) > 0);
        assert(ys.map_values(f).to_multiset() =~= ys.map_values(f).remove(j).to_multiset().insert(
            f(x),
        ));
    }
}

/// Each distinct text of `xs`, in lexicographic order, with how often it occurs.
pub open spec fn tally(xs: Seq<Seq<char>>) -> Seq<(Seq<char>, nat)> {
    distinct_texts(xs).map_values(|k: Seq<char>| (k, occurrences(xs, k)))
}

/// Sort, then drop repeated neighbours.
pub(crate) fn sort_dedup(v: Vec<String>) -> (r: Vec<String>)
    ensures
        r.deep_view() == distinct_texts(v.deep_view()),
{
    let s = sort_texts(v);
    let mut r: Vec<String> = Vec::new();
    for i in 0..s.len()
        invariant
            r.deep_view() == runs(s.deep_view().take(i as int)),
    {
        let ghost before = s.deep_view().take(i as int);
        let ghost now = s.deep_view().take(i + 1);
        assert(now.drop_last() =~= before);
        if i == 0 || !same(s[i].as_str(), s[i - 1].as_str()) {
            r.push(s[i].clone());
            assert(r.deep_view() =~= runs(before).push(s.deep_view()[i as int]));
        }
    }
    assert(s.deep_view().take(s@.len() as int) =~= s.deep_view());
    r
}

/// How many texts of `v` are `x`.
pub(crate) fn count_text(v: &Vec<String>, x: &str) -> (n: usize)
    ensures
        n == occurrences(v.deep_view(), x@),
{
    let mut n: usize = 0;
    let ghost all = v.deep_view();
    let ghost is_x = |y: Seq<char>| y == x@;
    for i in 0..v.len()
        invariant
            all == v.deep_view(),
            is_x == (|y: Seq<char>| y == x@),
            n <= i,
            n == all.take(i as int).filter(is_x).len(),
    {
        proof {
            reveal(Seq::filter);
            assert(all.take(i + 1).drop_last() =~= all.take(i as int));
        }
        if same(v[i].as_str(), x) {
            n = n + 1;
        }
    }
    assert(all.take(all.len() as int) =~= all);
    n
}

/// The model of a list of counts.
pub open spec fn counts(r: Seq<(String, usize)>) -> Seq<(Seq<char>, nat)> {
    r.map_values(|p: (String, usize)| (p.0@, p.1 as nat))
}

/// The distinct texts of `v` with their counts.
pub(crate) fn tally_texts(v: Vec<String>) -> (r: Vec<(String, usize)>)
    ensures
        counts(r@) == tally(v.deep_view()),
{
    let keys = sort_dedup(crate::text::copy_texts(&v));
    let mut r: Vec<(String, usize)> = Vec::new();
    let ghost goal = tally(v.deep_view());
    for i in 0..keys.len()
        invariant
            keys.deep_view() == distinct_texts(v.deep_view()),
            goal == tally(v.deep_view()),
            counts(r@) == goal.take(i as int),
    {
        let n = count_text(&v, keys[i].as_str());
        assert(keys.deep_view()[i as int] == keys@[i as int]@);
        let ghost before = r@;
        r.push((keys[i].clone(), n));
        assert(counts(r@) =~= counts(before).push(goal[i as int]));
        assert(counts(r@) =~= goal.take(i + 1));
    }
    assert(goal.take(goal.len() as int) =~= goal);
    r
}

} // verus!
