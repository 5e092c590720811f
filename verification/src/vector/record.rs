//! Records and their keys.

use crate::text::{
    contains_text, decimal, decimal_usize, lemma_decimal_injective, lemma_decimal_is_digits,
};
use vstd::prelude::*;

verus! {

/// The separator between the parts of a key.
pub const SEP: char = '\u{1f}';

/// One embedded chunk, ready to persist; its vector has components of type `T`.
#[derive(Debug, Clone, PartialEq)]
pub struct VectorRecord<T> {
    pub source: String,
    pub target: String,
    pub item_id: String,
    pub seq: usize,
    pub text: String,
    pub vector: Vec<T>,
}

/// The model of a [`VectorRecord`].
pub struct RecordV<T> {
    pub source: Seq<char>,
    pub target: Seq<char>,
    pub item_id: Seq<char>,
    pub seq: nat,
    pub text: Seq<char>,
    pub vector: Seq<T>,
}

impl<T> DeepView for VectorRecord<T> {
    type V = RecordV<T>;

    open spec fn deep_view(&self) -> RecordV<T> {
        RecordV {
            source: self.source@,
            target: self.target@,
            item_id: self.item_id@,
            seq: self.seq as nat,
            text: self.text@,
            vector: self.vector@,
        }
    }
}

/// The grouping key of a source, a target and an item.
pub open spec fn triple_text(source: Seq<char>, target: Seq<char>, item_id: Seq<char>) -> Seq<
    char,
> {
    source + seq![SEP] + target + seq![SEP] + item_id
}

/// The key of a chunk: the grouping key and the number of the chunk.
pub open spec fn key_text(triple: Seq<char>, seq: nat) -> Seq<char> {
    triple + seq![SEP] + decimal(seq)
}

/// The grouping key of a record.
pub open spec fn triple_of<T>(r: RecordV<T>) -> Seq<char> {
    triple_text(r.source, r.target, r.item_id)
}

/// The key of a record.
pub open spec fn key_of<T>(r: RecordV<T>) -> Seq<char> {
    key_text(triple_of(r), r.seq)
}

/// Stable grouping key of a source, a target and an item.
pub fn triple_key(source: &str, target: &str, item_id: &str) -> (r: String)
    ensures
        r@ == triple_text(source@, target@, item_id@),
{
    let mut s = source.to_owned();
    s.push(SEP);
    s.append(target);
    s.push(SEP);
    s.append(item_id);
    assert(s@ =~= triple_text(source@, target@, item_id@));
    s
}

/// Stable per-chunk primary key.
pub fn record_key(source: &str, target: &str, item_id: &str, seq: usize) -> (r: String)
    ensures
        r@ == key_text(triple_text(source@, target@, item_id@), seq as nat),
{
    let mut s = triple_key(source, target, item_id);
    s.push(SEP);
    s.append(decimal_usize(seq).as_str());
    assert(s@ =~= key_text(triple_text(source@, target@, item_id@), seq as nat));
    s
}

impl<T> VectorRecord<T> {
    /// The upsert grouping key.
    pub fn triple(&self) -> (r: String)
        ensures
            r@ == triple_of(self.deep_view()),
    {
        triple_key(self.source.as_str(), self.target.as_str(), self.item_id.as_str())
    }

    /// The per-chunk primary key.
    pub fn key(&self) -> (r: String)
        ensures
            r@ == key_of(self.deep_view()),
    {
        record_key(
            self.source.as_str(),
            self.target.as_str(),
            self.item_id.as_str(),
            self.seq,
        )
    }
}

impl<T: Copy> VectorRecord<T> {
    /// A copy of the record.
    pub fn copy(&self) -> (r: VectorRecord<T>)
        ensures
            r.deep_view() == self.deep_view(),
    {
        let mut vector: Vec<T> = Vec::new();
        for i in 0..self.vector.len()
            invariant
                vector@ == self.vector@.take(i as int),
        {
            vector.push(self.vector[i]);
            assert(vector@ =~= self.vector@.take(i + 1));
        }
        assert(self.vector@.take(self.vector@.len() as int) =~= self.vector@);
        VectorRecord {
            source: self.source.clone(),
            target: self.target.clone(),
            item_id: self.item_id.clone(),
            seq: self.seq,
            text: self.text.clone(),
            vector,
        }
    }
}

/// A key determines the grouping key and the number that it was made from.
pub proof fn law_keys_are_injective(t1: Seq<char>, n1: nat, t2: Seq<char>, n2: nat)
    requires
        key_text(t1, n1) == key_text(t2, n2),
    ensures
        t1 == t2,
        n1 == n2,
{
    let k = key_text(t1, n1);
    let d1 = decimal(n1);
    let d2 = decimal(n2);
    lemma_decimal_is_digits(n1);
    lemma_decimal_is_digits(n2);
    assert(k.len() == t1.len() + 1 + d1.len());
    assert(k.len() == t2.len() + 1 + d2.len());
    assert(k[t1.len() as int] == SEP);
    assert(key_text(t2, n2)[t2.len() as int] == SEP);
    if t1.len() < t2.len() {
        assert(k[t2.len() as int] == d1[t2.len() - t1.len() - 1]);
    }
    if t2.len() < t1.len() {
        assert(key_text(t2, n2)[t1.len() as int] == d2[t1.len() - t2.len() - 1]);
    }
    assert(t1.len() == t2.len());
    assert(k.take(t1.len() as int) =~= t1);
    assert(key_text(t2, n2).take(t2.len() as int) =~= t2);
    assert(k.skip(t1.len() as int + 1) =~= d1);
    assert(key_text(t2, n2).skip(t2.len() as int + 1) =~= d2);
    lemma_decimal_injective(n1, n2);
}

/// Where none of the parts holds the separator, a grouping key determines them.
pub proof fn law_triples_are_injective(
    s1: Seq<char>,
    t1: Seq<char>,
    i1: Seq<char>,
    s2: Seq<char>,
    t2: Seq<char>,
    i2: Seq<char>,
)
    requires
        triple_text(s1, t1, i1) == triple_text(s2, t2, i2),
        !s1.contains(SEP) && !t1.contains(SEP) && !i1.contains(SEP),
        !s2.contains(SEP) && !t2.contains(SEP) && !i2.contains(SEP),
    ensures
        s1 == s2,
        t1 == t2,
        i1 == i2,
{
    let a = triple_text(s1, t1, i1);
    let b = triple_text(s2, t2, i2);
    assert(a[s1.len() as int] == SEP);
    assert(b[s2.len() as int] == SEP);
    if s1.len() < s2.len() {
        assert(b[s1.len() as int] == s2[s1.len() as int]);
        assert(s2.contains(s2[s1.len() as int]));
    }
    if s2.len() < s1.len() {
        assert(a[s2.len() as int] == s1[s2.len() as int]);
        assert(s1.contains(s1[s2.len() as int]));
    }
    let n = s1.len() as int;
    assert(a.take(n) =~= s1 && b.take(n) =~= s2);
    let p = n + 1 + t1.len();
    let q = n + 1 + t2.len();
    assert(a[p] == SEP);
    assert(b[q] == SEP);
    if p < q {
        assert(b[p] == t2[p - n - 1]);
        assert(t2.contains(t2[p - n - 1]));
    }
    if q < p {
        assert(a[q] == t1[q - n - 1]);
        assert(t1.contains(t1[q - n - 1]));
    }
    assert(a.subrange(n + 1, p) =~= t1);
    assert(b.subrange(n + 1, p) =~= t2);
    assert(a.skip(p + 1) =~= i1);
    assert(b.skip(p + 1) =~= i2);
}

/// The first occurrence of each item of `xs`, in order.
pub open spec fn firsts<A>(xs: Seq<A>) -> Seq<A>
    decreases xs.len(),
{
    if xs.len() == 0 {
        xs
    } else {
        let before = firsts(xs.drop_last());
        if before.contains(xs.last()) {
            before
        } else {
            before.push(xs.last())
        }
    }
}

/// The distinct items of `xs` are those of `xs`, each once.
pub proof fn lemma_firsts<A>(xs: Seq<A>)
    ensures
        forall|a: A| #[trigger] firsts(xs).contains(a) <==> xs.contains(a),
        firsts(xs).no_duplicates(),
    decreases xs.len(),
{
    if xs.len() > 0 {
        let init = xs.drop_last();
        lemma_firsts(init);
        assert forall|a: A| #[trigger] firsts(xs).contains(a) <==> xs.contains(a) by {
            assert(firsts(init).contains(a) <==> init.contains(a));
            if init.contains(a) {
                let i = choose|i: int| 0 <= i < init.len() && init[i] == a;
                assert(xs[i] == a);
                let k = choose|k: int| 0 <= k < firsts(init).len() && firsts(init)[k] == a;
                assert(firsts(xs)[k] == a);
            }
            if xs.contains(a) && !init.contains(a) {
                let i = choose|i: int| 0 <= i < xs.len() && xs[i] == a;
                if i < xs.len() - 1 {
                    assert(init[i] == a);
                }
                assert(a == xs.last());
                assert(firsts(xs)[firsts(xs).len() - 1] == a);
            }
            if firsts(xs).contains(a) && !firsts(init).contains(a) {
                let k = choose|k: int| 0 <= k < firsts(xs).len() && firsts(xs)[k] == a;
                if k < firsts(init).len() {
                    assert(firsts(init)[k] == a);
                }
                assert(xs[xs.len() - 1] == a);
            }
        }
        assert(firsts(xs).no_duplicates()) by {
            if !firsts(init).contains(xs.last()) {
                assert forall|i: int, j: int|
                    0 <= i < firsts(xs).len() && 0 <= j < firsts(xs).len() && i != j implies firsts(
                    xs,
                )[i] != firsts(xs)[j] by {
                    if i == firsts(init).len() {
                        assert(firsts(init).contains(firsts(init)[j]));
                    } else if j == firsts(init).len() {
                        assert(firsts(init).contains(firsts(init)[i]));
                    }
                }
            }
        }
    }
}

/// The grouping keys of a batch.
pub open spec fn triples_of<T>(records: Seq<RecordV<T>>) -> Seq<Seq<char>> {
    records.map_values(|r: RecordV<T>| triple_of(r))
}

/// Distinct grouping keys of a batch, in first-seen order.
pub fn distinct_triples<T>(records: &Vec<VectorRecord<T>>) -> (r: Vec<String>)
    ensures
        r.deep_view() == firsts(triples_of(records.deep_view())),
{
    let ghost all = triples_of(records.deep_view());
    let mut out: Vec<String> = Vec::new();
    assert(out.deep_view() =~= firsts(all.take(0)));
    for i in 0..records.len()
        invariant
            all == triples_of(records.deep_view()),
            out.deep_view() == firsts(all.take(i as int)),
    {
        let ghost before = out.deep_view();
        assert(all.take(i + 1).drop_last() =~= all.take(i as int));
        let t = records[i].triple();
        assert(all[i as int] == t@);
        if !contains_text(&out, t.as_str()) {
            out.push(t);
            assert(out.deep_view() =~= before.push(t@));
        }
    }
    assert(all.take(all.len() as int) =~= all);
    out
}

} // verus!
