//! The dependency-free embedder's bag of words.
//!
//! Not semantically meaningful, but fast, offline and stable: each word is
//! hashed into a bucket, and the vector is made of how many words each bucket
//! has.

use crate::digest::{blake3_digest, digest};
use crate::order::{lemma_map_multiset, lemma_occurrences, occurrences};
use crate::text::{
    chars_of, is_white_space, lowercase, slice_text, to_lowercase, white_space,
};
use vstd::prelude::*;

verus! {

/// Where the word at the start of `s` ends.
pub open spec fn word_end(s: Seq<char>) -> int
    decreases s.len(),
{
    if s.len() == 0 || white_space(s[0]) {
        0
    } else {
        1 + word_end(s.drop_first())
    }
}

pub proof fn lemma_word_end(s: Seq<char>)
    ensures
        0 <= word_end(s) <= s.len(),
    decreases s.len(),
{
    if s.len() > 0 && !white_space(s[0]) {
        lemma_word_end(s.drop_first());
    }
}

/// The words of a text: what stands between white space
/// (`str::split_whitespace`).
pub open spec fn words(s: Seq<char>) -> Seq<Seq<char>>
    decreases s.len(),
{
    if s.len() == 0 {
        Seq::empty()
    } else if white_space(s[0]) {
        words(s.drop_first())
    } else {
        let k = word_end(s);
        proof {
            lemma_word_end(s.drop_first());
        }
        if 0 < k <= s.len() {
            seq![s.take(k)] + words(s.skip(k))
        } else {
            Seq::empty()
        }
    }
}

/// The first four bytes of a digest as a number, least significant byte first.
pub open spec fn leading_number(d: Seq<u8>) -> nat {
    (d[0] + 256 * d[1] + 65536 * d[2] + 16777216 * d[3]) as nat
}

/// The bucket of a word among `dim`, without regard to case.
pub open spec fn bucket_of(word: Seq<char>, dim: nat) -> int {
    (leading_number(blake3_digest(lowercase(word))) % dim) as int
}

/// The buckets of the words of a text.
pub open spec fn buckets_of(text: Seq<char>, dim: nat) -> Seq<int> {
    words(text).map_values(|w: Seq<char>| bucket_of(w, dim))
}

/// The counts of a text depend on its words in lower case alone, and on how often
/// each occurs: not on their order or case, nor on the white space between them.
pub proof fn law_counts_depend_on_words(a: Seq<char>, b: Seq<char>, dim: nat, bucket: int)
    requires
        words(a).map_values(|w: Seq<char>| lowercase(w)).to_multiset() == words(b).map_values(
            |w: Seq<char>| lowercase(w),
        ).to_multiset(),
    ensures
        occurrences(buckets_of(a, dim), bucket) == occurrences(buckets_of(b, dim), bucket),
{
    let low = |w: Seq<char>| lowercase(w);
    let f = |w: Seq<char>| (leading_number(blake3_digest(w)) % dim) as int;
    let x = words(a).map_values(low);
    let y = words(b).map_values(low);
    lemma_map_multiset(x, y, f);
    assert(buckets_of(a, dim) =~= x.map_values(f));
    assert(buckets_of(b, dim) =~= y.map_values(f));
    lemma_occurrences(buckets_of(a, dim), bucket);
    lemma_occurrences(buckets_of(b, dim), bucket);
}

proof fn lemma_blank_has_no_words(s: Seq<char>)
    ensures
        words(s).len() == 0 <==> (forall|i: int| 0 <= i < s.len() ==> white_space(#[trigger] s[i])),
    decreases s.len(),
{
    if s.len() > 0 {
        if white_space(s[0]) {
            let rest = s.drop_first();
            lemma_blank_has_no_words(rest);
            if words(s).len() == 0 {
                assert forall|i: int| 0 <= i < s.len() implies white_space(#[trigger] s[i]) by {
                    if i > 0 {
                        assert(rest[i - 1] == s[i]);
                    }
                }
            } else {
                let k = choose|k: int| 0 <= k < rest.len() && !white_space(#[trigger] rest[k]);
                assert(!white_space(s[k + 1]));
            }
        } else {
            lemma_word_end(s.drop_first());
            assert(words(s)[0] == s.take(word_end(s)));
        }
    }
}

/// A text that is blank counts nothing in any bucket, and one that is not counts
/// something in one of them.
pub proof fn law_blank_texts_count_nothing(text: Seq<char>, dim: nat)
    requires
        dim > 0,
    ensures
        (forall|i: int| 0 <= i < text.len() ==> white_space(#[trigger] text[i])) <==> (forall|
            bucket: int,
        |
            0 <= bucket < dim ==> #[trigger] occurrences(buckets_of(text, dim), bucket) == 0),
{
    lemma_blank_has_no_words(text);
    let all = buckets_of(text, dim);
    broadcast use vstd::seq_lib::group_to_multiset_ensures;
    if words(text).len() > 0 {
        let b = bucket_of(words(text)[0], dim);
        assert(0 <= b < dim);
        assert(all[0] == b);
        assert(all.contains(b));
        lemma_occurrences(all, b);
        assert(occurrences(all, b) > 0);
    } else {
        assert forall|bucket: int| 0 <= bucket < dim implies #[trigger] occurrences(all, bucket)
            == 0 by {
            reveal(Seq::filter);
        }
    }
}

fn split_words(v: &Vec<char>) -> (r: Vec<String>)
    ensures
        r.deep_view() == words(v@),
        r@.len() <= v@.len(),
{
    let mut out: Vec<String> = Vec::new();
    let mut i: usize = 0;
    assert(v@.skip(0) =~= v@);
    assert(out.deep_view() + words(v@) =~= words(v@));
    while i < v.len()
        invariant
            i <= v@.len(),
            out@.len() <= i,
            words(v@) == out.deep_view() + words(v@.skip(i as int)),
        decreases v@.len() - i,
    {
        if is_white_space(v[i]) {
            assert(v@.skip(i as int).drop_first() =~= v@.skip(i + 1));
            i = i + 1;
        } else {
            let start: usize = i;
            let ghost rest = v@.skip(start as int);
            let ghost before = out.deep_view();
            assert(rest.skip(0) =~= rest);
            while i < v.len() && !is_white_space(v[i])
                invariant
                    start <= i <= v@.len(),
                    rest == v@.skip(start as int),
                    word_end(rest) == (i - start) + word_end(rest.skip(i - start)),
                    i == start ==> i < v@.len() && !white_space(v@[i as int]),
                decreases v@.len() - i,
            {
                assert(rest.skip(i - start).drop_first() =~= rest.skip(i - start + 1));
                i = i + 1;
            }
            let word = slice_text(v, start, i);
            proof {
                assert(word_end(rest) == i - start);
                assert(word@ =~= rest.take(i - start));
                assert(rest.skip(i - start) =~= v@.skip(i as int));
            }
            out.push(word);
            assert(out.deep_view() =~= before.push(word@));
            assert(words(v@) =~= out.deep_view() + words(v@.skip(i as int)));
        }
    }
    assert(v@.skip(v@.len() as int) =~= Seq::<char>::empty());
    assert(out.deep_view() + words(v@.skip(i as int)) =~= out.deep_view());
    out
}

fn word_bucket(word: &str, dim: usize) -> (r: usize)
    requires
        dim > 0,
    ensures
        r == bucket_of(word@, dim as nat),
        r < dim,
{
    let d = digest(to_lowercase(word).as_str());
    let n: u64 = d[0] as u64 + 256 * (d[1] as u64) + 65536 * (d[2] as u64) + 16777216 * (
    d[3] as u64);
    (n % (dim as u64)) as usize
}

/// Deterministic, dependency-free embedder.
#[derive(Debug)]
pub struct HashEmbedder {
    dim: usize,
}

impl View for HashEmbedder {
    type V = nat;

    closed spec fn view(&self) -> nat {
        self.dim as nat
    }
}

impl Default for HashEmbedder {
    fn default() -> (r: HashEmbedder)
        ensures
            r@ == 64,
    {
        HashEmbedder::new(64)
    }
}

impl Clone for HashEmbedder {
    fn clone(&self) -> (r: HashEmbedder)
        ensures
            r@ == self@,
    {
        proof {
            use_type_invariant(self);
        }
        HashEmbedder { dim: self.dim }
    }
}

impl HashEmbedder {
    #[verifier::type_invariant]
    spec fn has_buckets(self) -> bool {
        self.dim > 0
    }

    /// An embedder with `dim` buckets, and at least one.
    pub fn new(dim: usize) -> (r: HashEmbedder)
        ensures
            r@ == (if dim == 0 {
                1
            } else {
                dim as nat
            }),
    {
        HashEmbedder { dim: if dim == 0 {
                1
            } else {
                dim
            } }
    }

    /// Dimensionality of the vectors.
    pub fn dim(&self) -> (r: usize)
        ensures
            r == self@,
            r > 0,
    {
        proof {
            use_type_invariant(self);
        }
        self.dim
    }

    /// How many words of the text each bucket has.
    pub fn bucket_counts(&self, text: &str) -> (r: Vec<usize>)
        ensures
            r@.len() == self@,
            forall|b: int|
                0 <= b < r@.len() ==> #[trigger] r@[b] == occurrences(buckets_of(text@, self@), b),
    {
        let dim: usize = self.dim();
        let list = split_words(&chars_of(text));
        let ghost all = buckets_of(text@, dim as nat);
        let mut counts: Vec<usize> = Vec::new();
        let mut k: usize = 0;
        while k < dim
            invariant
                k <= dim,
                counts@.len() == k,
                forall|b: int| 0 <= b < k ==> #[trigger] counts@[b] == 0,
            decreases dim - k,
        {
            counts.push(0);
            k = k + 1;
        }
        assert forall|b: int| 0 <= b < dim implies #[trigger] counts@[b] == occurrences(
            all.take(0),
            b,
        ) by {
            reveal(Seq::filter);
        }
        for i in 0..list.len()
            invariant
                dim > 0,
                list.deep_view() == words(text@),
                all == buckets_of(text@, dim as nat),
                counts@.len() == dim,
                forall|b: int|
                    0 <= b < dim ==> #[trigger] counts@[b] == occurrences(all.take(i as int), b),
                forall|b: int| 0 <= b < dim ==> #[trigger] counts@[b] <= i,
        {
            let b = word_bucket(list[i].as_str(), dim);
            assert(list.deep_view()[i as int] == list@[i as int]@);
            assert(all[i as int] == b as int);
            let n: usize = counts[b];
            let ghost before = counts@;
            counts.set(b, n + 1);
            proof {
                assert forall|c: int| 0 <= c < dim implies #[trigger] counts@[c] == occurrences(
                    all.take(i + 1),
                    c,
                ) by {
                    reveal(Seq::filter);
                    assert(all.take(i + 1).drop_last() =~= all.take(i as int));
                    assert(before[c] == occurrences(all.take(i as int), c));
                }
                assert forall|c: int| 0 <= c < dim implies #[trigger] counts@[c] <= i + 1 by {
                    assert(before[c] <= i);
                }
            }
        }
        assert(all.take(all.len() as int) =~= all);
        counts
    }
}

} // verus!
