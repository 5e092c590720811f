//! In-memory vector store: the reference implementation of the upsert contract.
//!
//! For every grouping key in a batch, an upsert first removes the rows that
//! there are and then inserts the new ones. So re-scrapes of the same target
//! overwrite rather than duplicate, even when they yield another number of
//! chunks.

use crate::collect::{
    collected, lemma_collected_from, lemma_collected_has, lemma_collected_step,
};
use crate::json::{keys_ascend, lemma_with_member, with_member};
use crate::text::{contains_text, le, same, text_le};
use crate::vector::record::{
    distinct_triples, firsts, key_of, law_keys_are_injective, lemma_firsts,
    triple_of, triples_of, RecordV, VectorRecord,
};
use vstd::prelude::*;

verus! {

// ---------------------------------------------------------------------------
// The model
// ---------------------------------------------------------------------------

/// The rows of `m` that belong to none of the groups `triples`.
pub open spec fn without_triples<T>(
    m: Map<Seq<char>, RecordV<T>>,
    triples: Seq<Seq<char>>,
) -> Map<Seq<char>, RecordV<T>> {
    Map::new(
        |k: Seq<char>| m.contains_key(k) && !triples.contains(triple_of(m[k])),
        |k: Seq<char>| m[k],
    )
}

/// `m` with all of `records`, each under its key; later ones replace earlier
/// ones.
pub open spec fn with_records<T>(
    m: Map<Seq<char>, RecordV<T>>,
    records: Seq<RecordV<T>>,
) -> Map<Seq<char>, RecordV<T>>
    decreases records.len(),
{
    if records.len() == 0 {
        m
    } else {
        with_records(m, records.drop_last()).insert(key_of(records.last()), records.last())
    }
}

/// `m` after an upsert of `records`.
pub open spec fn upserted<T>(
    m: Map<Seq<char>, RecordV<T>>,
    records: Seq<RecordV<T>>,
) -> Map<Seq<char>, RecordV<T>> {
    with_records(without_triples(m, triples_of(records)), records)
}

/// Every row stands under its own key.
pub open spec fn keyed<T>(m: Map<Seq<char>, RecordV<T>>) -> bool {
    forall|k: Seq<char>| #[trigger] m.contains_key(k) ==> key_of(m[k]) == k
}

// ---------------------------------------------------------------------------
// Laws
// ---------------------------------------------------------------------------

/// What `with_records` holds under a key: the last record with that key, else
/// what was there.
proof fn lemma_with_records<T>(
    m: Map<Seq<char>, RecordV<T>>,
    records: Seq<RecordV<T>>,
    k: Seq<char>,
)
    ensures
        with_records(m, records).contains_key(k) <==> m.contains_key(k) || exists|i: int|
            0 <= i < records.len() && key_of(#[trigger] records[i]) == k,
        with_records(m, records).contains_key(k) ==> (with_records(m, records)[k] == m[k] && (
        forall|i: int| 0 <= i < records.len() ==> key_of(#[trigger] records[i]) != k)) || exists|
            i: int,
        |
            0 <= i < records.len() && key_of(#[trigger] records[i]) == k && with_records(m, records)[k]
                == records[i] && forall|j: int|
                i < j < records.len() ==> key_of(#[trigger] records[j]) != k,
    decreases records.len(),
{
    if records.len() > 0 {
        let init = records.drop_last();
        lemma_with_records(m, init, k);
        let before = with_records(m, init);
        let last = records.last();
        assert(records[records.len() - 1] == last);
        if key_of(last) == k {
            assert(with_records(m, records)[k] == records[records.len() - 1]);
        } else {
            assert(with_records(m, records).contains_key(k) == before.contains_key(k));
            if exists|i: int| 0 <= i < records.len() && key_of(#[trigger] records[i]) == k {
                let i = choose|i: int| 0 <= i < records.len() && key_of(#[trigger] records[i]) == k;
                assert(init[i] == records[i]);
            }
            if exists|i: int| 0 <= i < init.len() && key_of(#[trigger] init[i]) == k {
                let i = choose|i: int| 0 <= i < init.len() && key_of(#[trigger] init[i]) == k;
                assert(records[i] == init[i]);
            }
            if before.contains_key(k) {
                if forall|i: int| 0 <= i < init.len() ==> key_of(#[trigger] init[i]) != k {
                    assert forall|i: int| 0 <= i < records.len() implies key_of(
                        #[trigger] records[i],
                    ) != k by {
                        if i < init.len() {
                            assert(init[i] == records[i]);
                        }
                    }
                } else {
                    let i = choose|i: int|
                        0 <= i < init.len() && key_of(#[trigger] init[i]) == k && before[k]
                            == init[i] && forall|j: int|
                            i < j < init.len() ==> key_of(#[trigger] init[j]) != k;
                    assert(records[i] == init[i]);
                    assert forall|j: int| i < j < records.len() implies key_of(
                        #[trigger] records[j],
                    ) != k by {
                        if j < init.len() {
                            assert(init[j] == records[j]);
                        }
                    }
                }
            }
        }
    }
}

/// What an upsert holds under a key: the last record of the batch with that key,
/// else what was there, unless it is of a group of the batch.
pub proof fn lemma_upserted<T>(
    m: Map<Seq<char>, RecordV<T>>,
    records: Seq<RecordV<T>>,
    k: Seq<char>,
)
    requires
        upserted(m, records).contains_key(k),
    ensures
        (forall|i: int| 0 <= i < records.len() ==> key_of(#[trigger] records[i]) != k)
            ==> m.contains_key(k) && upserted(m, records)[k] == m[k] && !triples_of(
            records,
        ).contains(triple_of(m[k])),
        (exists|i: int| 0 <= i < records.len() && key_of(#[trigger] records[i]) == k) ==> exists|
            i: int,
        |
            0 <= i < records.len() && key_of(#[trigger] records[i]) == k && upserted(m, records)[k]
                == records[i] && forall|j: int|
                i < j < records.len() ==> key_of(#[trigger] records[j]) != k,
{
    lemma_with_records(without_triples(m, triples_of(records)), records, k);
}

/// An upsert keeps every row under its own key.
pub proof fn law_upsert_keeps_keys<T>(m: Map<Seq<char>, RecordV<T>>, records: Seq<RecordV<T>>)
    requires
        keyed(m),
    ensures
        keyed(upserted(m, records)),
{
    let kept = without_triples(m, triples_of(records));
    assert forall|k: Seq<char>| #[trigger] upserted(m, records).contains_key(k) implies key_of(
        upserted(m, records)[k],
    ) == k by {
        lemma_with_records(kept, records, k);
        assert(kept.contains_key(k) ==> m.contains_key(k));
    }
}

/// Rows of other groups are untouched.
pub proof fn law_other_groups_survive<T>(
    m: Map<Seq<char>, RecordV<T>>,
    records: Seq<RecordV<T>>,
    k: Seq<char>,
)
    requires
        keyed(m),
        m.contains_key(k),
        !triples_of(records).contains(triple_of(m[k])),
    ensures
        upserted(m, records).contains_key(k),
        upserted(m, records)[k] == m[k],
{
    let kept = without_triples(m, triples_of(records));
    lemma_with_records(kept, records, k);
    assert forall|i: int| 0 <= i < records.len() implies key_of(#[trigger] records[i]) != k by {
        if key_of(records[i]) == k {
            law_keys_are_injective(
                triple_of(records[i]),
                records[i].seq,
                triple_of(m[k]),
                m[k].seq,
            );
            assert(triples_of(records)[i] == triple_of(m[k]));
        }
    }
}

/// Stale chunks are gone: a row of a group in the batch is one of the batch.
pub proof fn law_stale_chunks_are_removed<T>(
    m: Map<Seq<char>, RecordV<T>>,
    records: Seq<RecordV<T>>,
    k: Seq<char>,
)
    requires
        upserted(m, records).contains_key(k),
        triples_of(records).contains(triple_of(upserted(m, records)[k])),
    ensures
        exists|i: int|
            0 <= i < records.len() && key_of(#[trigger] records[i]) == k && upserted(m, records)[k]
                == records[i],
{
    let kept = without_triples(m, triples_of(records));
    lemma_with_records(kept, records, k);
    if forall|i: int| 0 <= i < records.len() ==> key_of(#[trigger] records[i]) != k {
        assert(kept.contains_key(k));
        assert(kept[k] == m[k]);
    }
}

/// The batch is stored: each of its records, unless a later one of the batch has
/// the same key.
pub proof fn law_batch_is_stored<T>(
    m: Map<Seq<char>, RecordV<T>>,
    records: Seq<RecordV<T>>,
    i: int,
)
    requires
        0 <= i < records.len(),
        forall|j: int| i < j < records.len() ==> key_of(#[trigger] records[j]) != key_of(
            records[i],
        ),
    ensures
        upserted(m, records).contains_key(key_of(records[i])),
        upserted(m, records)[key_of(records[i])] == records[i],
{
    let k = key_of(records[i]);
    lemma_with_records(without_triples(m, triples_of(records)), records, k);
    let l = choose|l: int|
        0 <= l < records.len() && key_of(#[trigger] records[l]) == k && upserted(m, records)[k]
            == records[l] && forall|j: int|
            l < j < records.len() ==> key_of(#[trigger] records[j]) != k;
    assert(l == i);
}

/// Upserting a batch twice is upserting it once.
pub proof fn law_upsert_is_idempotent<T>(
    m: Map<Seq<char>, RecordV<T>>,
    records: Seq<RecordV<T>>,
)
    requires
        keyed(m),
    ensures
        upserted(upserted(m, records), records) == upserted(m, records),
{
    let ts = triples_of(records);
    let once = upserted(m, records);
    let kept = without_triples(m, ts);
    let again = without_triples(once, ts);
    assert(again =~= kept) by {
        assert forall|k: Seq<char>| again.contains_key(k) <==> kept.contains_key(k) by {
            lemma_with_records(kept, records, k);
            if again.contains_key(k) {
                if exists|i: int| 0 <= i < records.len() && key_of(#[trigger] records[i]) == k
                    && once[k] == records[i] {
                    let i = choose|i: int|
                        0 <= i < records.len() && key_of(#[trigger] records[i]) == k && once[k]
                            == records[i];
                    assert(ts[i] == triple_of(once[k]));
                }
            }
            if kept.contains_key(k) {
                law_other_groups_survive(m, records, k);
            }
        }
        assert forall|k: Seq<char>| again.contains_key(k) implies again[k] == kept[k] by {
            assert(kept.contains_key(k));
            law_other_groups_survive(m, records, k);
        }
    }
}

// ---------------------------------------------------------------------------
// Sorted rows as a map
// ---------------------------------------------------------------------------

/// The map of entries with distinct keys.
pub open spec fn as_map<V>(es: Seq<(Seq<char>, V)>) -> Map<Seq<char>, V>
    decreases es.len(),
{
    if es.len() == 0 {
        Map::empty()
    } else {
        as_map(es.drop_last()).insert(es.last().0, es.last().1)
    }
}

proof fn lemma_ascend_init<V>(es: Seq<(Seq<char>, V)>)
    requires
        keys_ascend(es),
        es.len() > 0,
    ensures
        keys_ascend(es.drop_last()),
{
    let init = es.drop_last();
    assert forall|a: int, b: int| 0 <= a < b < init.len() implies text_le(
        (#[trigger] init[a]).0,
        (#[trigger] init[b]).0,
    ) && init[a].0 != init[b].0 by {
        assert(text_le(es[a].0, es[b].0));
    }
}

proof fn lemma_as_map<V>(es: Seq<(Seq<char>, V)>)
    requires
        keys_ascend(es),
    ensures
        forall|i: int|
            0 <= i < es.len() ==> as_map(es).contains_key((#[trigger] es[i]).0) && as_map(
                es,
            )[es[i].0] == es[i].1,
        forall|k: Seq<char>| #[trigger]
            as_map(es).contains_key(k) ==> exists|i: int| 0 <= i < es.len() && (#[trigger] es[i]).0 == k,
        as_map(es).dom().finite(),
        as_map(es).len() == es.len(),
    decreases es.len(),
{
    if es.len() > 0 {
        let init = es.drop_last();
        lemma_ascend_init(es);
        lemma_as_map(init);
        assert forall|i: int| 0 <= i < es.len() implies as_map(es).contains_key(
            (#[trigger] es[i]).0,
        ) && as_map(es)[es[i].0] == es[i].1 by {
            if i < init.len() {
                assert(init[i] == es[i]);
                assert(es[i].0 != es[es.len() - 1].0);
            }
        }
        assert forall|k: Seq<char>| #[trigger] as_map(es).contains_key(k) implies exists|i: int|
            0 <= i < es.len() && (#[trigger] es[i]).0 == k by {
            if k == es.last().0 {
                assert(es[es.len() - 1].0 == k);
            } else {
                assert(as_map(init).contains_key(k));
                let i = choose|i: int| 0 <= i < init.len() && (#[trigger] init[i]).0 == k;
                assert(es[i].0 == k);
            }
        }
        assert(!as_map(init).contains_key(es.last().0)) by {
            if as_map(init).contains_key(es.last().0) {
                let i = choose|i: int|
                    0 <= i < init.len() && (#[trigger] init[i]).0 == es.last().0;
                assert(es[i].0 != es[es.len() - 1].0);
            }
        }
        assert(as_map(es).dom() =~= as_map(init).dom().insert(es.last().0));
    } else {
        assert(as_map(es).dom() =~= Set::<Seq<char>>::empty());
    }
}

proof fn lemma_as_map_with<V>(es: Seq<(Seq<char>, V)>, key: Seq<char>, value: V, j: int)
    requires
        keys_ascend(es),
        0 <= j <= es.len(),
        forall|k: int| j <= k < es.len() ==> !text_le((#[trigger] es[k]).0, key),
        j > 0 ==> text_le(es[j - 1].0, key),
    ensures
        keys_ascend(with_member(es, key, value)),
        as_map(with_member(es, key, value)) == as_map(es).insert(key, value),
{
    lemma_with_member(es, key, value, j);
    let out = with_member(es, key, value);
    lemma_as_map(es);
    lemma_as_map(out);
    let a = as_map(out);
    let b = as_map(es).insert(key, value);
    let replaced = j > 0 && es[j - 1].0 == key;
    if replaced {
        assert(out[j - 1] == (key, value));
    } else {
        assert(out[j] == (key, value));
    }
    assert forall|k: Seq<char>| a.contains_key(k) implies b.contains_key(k) && a[k] == b[k] by {
        let i = choose|i: int| 0 <= i < out.len() && (#[trigger] out[i]).0 == k;
        if replaced {
            if i != j - 1 {
                assert(out[i] == es[i]);
                assert(es[i].0 != es[j - 1].0);
            }
        } else if i < j {
            assert(out[i] == es[i]);
            assert(out[i].0 != out[j].0);
        } else if i > j {
            assert(out[i] == es[i - 1]);
            assert(out[j].0 != out[i].0);
        }
    }
    assert forall|k: Seq<char>| b.contains_key(k) implies a.contains_key(k) by {
        if k == key {
            if replaced {
                assert(a.contains_key(out[j - 1].0));
            } else {
                assert(a.contains_key(out[j].0));
            }
        } else {
            let i = choose|i: int| 0 <= i < es.len() && (#[trigger] es[i]).0 == k;
            if replaced {
                assert(i != j - 1);
                assert(out[i] == es[i]);
                assert(a.contains_key(out[i].0));
            } else if i < j {
                assert(out[i] == es[i]);
                assert(a.contains_key(out[i].0));
            } else {
                assert(out[i + 1] == es[i]);
                assert(a.contains_key(out[i + 1].0));
            }
        }
    }
    assert(a =~= b);
}

/// A row, if it belongs to none of the groups.
pub open spec fn kept_row<T>(e: (Seq<char>, RecordV<T>), ts: Seq<Seq<char>>) -> Option<
    (Seq<char>, RecordV<T>),
> {
    if ts.contains(triple_of(e.1)) {
        None
    } else {
        Some(e)
    }
}

proof fn lemma_kept_ascend<T>(es: Seq<(Seq<char>, RecordV<T>)>, ts: Seq<Seq<char>>)
    requires
        keys_ascend(es),
    ensures
        keys_ascend(collected(es, |e: (Seq<char>, RecordV<T>)| kept_row(e, ts))),
    decreases es.len(),
{
    let f = |e: (Seq<char>, RecordV<T>)| kept_row(e, ts);
    if es.len() > 0 {
        let init = es.drop_last();
        lemma_ascend_init(es);
        lemma_kept_ascend(init, ts);
        let before = collected(init, f);
        let out = collected(es, f);
        if f(es.last()) is Some {
            assert forall|a: int, b: int| 0 <= a < b < out.len() implies text_le(
                (#[trigger] out[a]).0,
                (#[trigger] out[b]).0,
            ) && out[a].0 != out[b].0 by {
                if b == before.len() {
                    assert(before.contains(before[a]));
                    let i = lemma_collected_from(init, f, before[a]);
                    assert(es[i] == before[a]);
                    assert(text_le(es[i].0, es[es.len() - 1].0));
                } else {
                    assert(text_le(before[a].0, before[b].0));
                }
            }
        }
    }
}

proof fn lemma_kept_map<T>(es: Seq<(Seq<char>, RecordV<T>)>, ts: Seq<Seq<char>>)
    requires
        keys_ascend(es),
    ensures
        keys_ascend(collected(es, |e: (Seq<char>, RecordV<T>)| kept_row(e, ts))),
        as_map(collected(es, |e: (Seq<char>, RecordV<T>)| kept_row(e, ts))) == without_triples(
            as_map(es),
            ts,
        ),
{
    let f = |e: (Seq<char>, RecordV<T>)| kept_row(e, ts);
    let kept = collected(es, f);
    lemma_kept_ascend(es, ts);
    lemma_as_map(es);
    lemma_as_map(kept);
    let a = as_map(kept);
    let b = without_triples(as_map(es), ts);
    assert forall|k: Seq<char>| a.contains_key(k) implies b.contains_key(k) && a[k] == b[k] by {
        let i = choose|i: int| 0 <= i < kept.len() && (#[trigger] kept[i]).0 == k;
        assert(kept.contains(kept[i]));
        let n = lemma_collected_from(es, f, kept[i]);
        assert(es[n] == kept[i]);
    }
    assert forall|k: Seq<char>| b.contains_key(k) implies a.contains_key(k) by {
        assert(as_map(es).contains_key(k));
        let n = choose|n: int| 0 <= n < es.len() && (#[trigger] es[n]).0 == k;
        assert(f(es[n]) == Some(es[n]));
        lemma_collected_has(es, f, n);
        let i = choose|i: int| 0 <= i < kept.len() && kept[i] == es[n];
        assert(a.contains_key(kept[i].0));
    }
    assert(a =~= b);
}

// ---------------------------------------------------------------------------
// The store
// ---------------------------------------------------------------------------

/// A process-local vector store. Rows are kept by key.
#[derive(Debug)]
pub struct MemoryStore<T> {
    rows: Vec<(String, VectorRecord<T>)>,
}

/// The model of rows.
pub open spec fn row_views<T>(rows: Seq<(String, VectorRecord<T>)>) -> Seq<
    (Seq<char>, RecordV<T>),
> {
    rows.map_values(|e: (String, VectorRecord<T>)| (e.0@, e.1.deep_view()))
}

/// Records, each with its key.
pub open spec fn with_keys<T>(records: Seq<RecordV<T>>) -> Seq<(Seq<char>, RecordV<T>)> {
    records.map_values(|r: RecordV<T>| (key_of(r), r))
}

impl<T> View for MemoryStore<T> {
    type V = Map<Seq<char>, RecordV<T>>;

    closed spec fn view(&self) -> Map<Seq<char>, RecordV<T>> {
        as_map(row_views(self.rows@))
    }
}

impl<T> MemoryStore<T> {
    #[verifier::type_invariant]
    spec fn sorted(self) -> bool {
        &&& keys_ascend(row_views(self.rows@))
        &&& forall|i: int|
            0 <= i < self.rows@.len() ==> key_of((#[trigger] self.rows@[i]).1.deep_view())
                == self.rows@[i].0@
    }
}

impl<T: Copy> Default for MemoryStore<T> {
    fn default() -> (r: MemoryStore<T>)
        ensures
            r@ == Map::<Seq<char>, RecordV<T>>::empty(),
    {
        MemoryStore::new()
    }
}

impl<T: Copy> MemoryStore<T> {
    pub fn new() -> (r: MemoryStore<T>)
        ensures
            r@ == Map::<Seq<char>, RecordV<T>>::empty(),
    {
        let r = MemoryStore { rows: Vec::new() };
        assert(row_views(r.rows@) =~= Seq::<(Seq<char>, RecordV<T>)>::empty());
        r
    }

    /// Total number of rows. Every row stands under its own key.
    pub fn count(&self) -> (n: usize)
        ensures
            self@.dom().finite(),
            n == self@.len(),
            keyed(self@),
    {
        proof {
            use_type_invariant(self);
            let es = row_views(self.rows@);
            lemma_as_map(es);
            assert forall|k: Seq<char>| #[trigger] self@.contains_key(k) implies key_of(self@[k])
                == k by {
                let i = choose|i: int| 0 <= i < es.len() && (#[trigger] es[i]).0 == k;
                assert(key_of(self.rows@[i].1.deep_view()) == self.rows@[i].0@);
            }
        }
        self.rows.len()
    }

    /// All stored records, in the order of their keys.
    pub fn rows(&self) -> (r: Vec<VectorRecord<T>>)
        ensures
            keys_ascend(with_keys(r.deep_view())),
            as_map(with_keys(r.deep_view())) == self@,
    {
        proof {
            use_type_invariant(self);
        }
        let mut out: Vec<VectorRecord<T>> = Vec::new();
        for i in 0..self.rows.len()
            invariant
                out@.len() == i,
                forall|k: int|
                    0 <= k < i ==> (#[trigger] out@[k]).deep_view() == self.rows@[k].1.deep_view(),
        {
            out.push(self.rows[i].1.copy());
        }
        assert(with_keys(out.deep_view()) =~= row_views(self.rows@)) by {
            assert forall|i: int| 0 <= i < out@.len() implies with_keys(out.deep_view())[i]
                == row_views(self.rows@)[i] by {
                assert(out.deep_view()[i] == out@[i].deep_view());
                assert(key_of(self.rows@[i].1.deep_view()) == self.rows@[i].0@);
            }
        }
        out
    }

    /// Upsert a batch: delete the rows of its groups, then insert its records.
    pub fn upsert(&mut self, records: &Vec<VectorRecord<T>>)
        ensures
            final(self)@ == upserted(old(self)@, records.deep_view()),
            keyed(old(self)@) && keyed(final(self)@),
    {
        let ghost before = self@;
        let ghost es = row_views(self.rows@);
        let ghost rs = records.deep_view();
        let ghost ts = triples_of(rs);
        proof {
            use_type_invariant(&*self);
            lemma_as_map(es);
            assert forall|k: Seq<char>| #[trigger] before.contains_key(k) implies key_of(before[k])
                == k by {
                let i = choose|i: int| 0 <= i < es.len() && (#[trigger] es[i]).0 == k;
                assert(key_of(self.rows@[i].1.deep_view()) == self.rows@[i].0@);
            }
            law_upsert_keeps_keys(before, rs);
        }
        let triples = distinct_triples(records);
        proof {
            lemma_firsts(ts);
        }
        let ghost old_rows = self.rows@;
        let mut rows: Vec<(String, VectorRecord<T>)> = Vec::new();
        std::mem::swap(&mut rows, &mut self.rows);
        let mut kept: Vec<(String, VectorRecord<T>)> = Vec::new();
        let ghost f = |e: (Seq<char>, RecordV<T>)| kept_row(e, ts);
        assert(row_views(kept@) =~= collected(es.take(0), f));
        for row in it: rows
            invariant
                it.seq() == old_rows,
                es == row_views(old_rows),
                triples.deep_view() == firsts(ts),
                forall|a: Seq<char>| #[trigger] firsts(ts).contains(a) <==> ts.contains(a),
                f == (|e: (Seq<char>, RecordV<T>)| kept_row(e, ts)),
                forall|i: int|
                    0 <= i < old_rows.len() ==> key_of((#[trigger] old_rows[i]).1.deep_view())
                        == old_rows[i].0@,
                forall|i: int|
                    0 <= i < kept@.len() ==> key_of((#[trigger] kept@[i]).1.deep_view())
                        == kept@[i].0@,
                row_views(kept@) == collected(es.take(it.index()), f),
        {
            proof {
                lemma_collected_step(es, f, it.index());
            }
            let ghost now = row_views(kept@);
            assert(es[it.index()] == (row.0@, row.1.deep_view()));
            assert(old_rows[it.index()] == row);
            let t = row.1.triple();
            if !contains_text(&triples, t.as_str()) {
                kept.push(row);
                assert(row_views(kept@) =~= now.push((row.0@, row.1.deep_view())));
            }
        }
        proof {
            assert(es.take(es.len() as int) =~= es);
            lemma_kept_map(es, ts);
        }
        let ghost start = as_map(row_views(kept@));
        for n in 0..records.len()
            invariant
                rs == records.deep_view(),
                keys_ascend(row_views(kept@)),
                forall|i: int|
                    0 <= i < kept@.len() ==> key_of((#[trigger] kept@[i]).1.deep_view())
                        == kept@[i].0@,
                as_map(row_views(kept@)) == with_records(start, rs.take(n as int)),
        {
            let ghost now = row_views(kept@);
            let record = records[n].copy();
            let key = record.key();
            let mut j: usize = kept.len();
            while j > 0 && !le(kept[j - 1].0.as_str(), key.as_str())
                invariant
                    j <= kept@.len(),
                    now == row_views(kept@),
                    forall|k: int| j <= k < now.len() ==> !text_le((#[trigger] now[k]).0, key@),
                decreases j,
            {
                j = j - 1;
            }
            proof {
                lemma_as_map_with(now, key@, record.deep_view(), j as int);
                lemma_with_member(now, key@, record.deep_view(), j as int);
                assert(rs.take(n + 1).drop_last() =~= rs.take(n as int));
                assert(rs[n as int] == record.deep_view());
            }
            if j > 0 && same(kept[j - 1].0.as_str(), key.as_str()) {
                kept.set(j - 1, (key, record));
            } else {
                kept.insert(j, (key, record));
            }
            assert(row_views(kept@) =~= with_member(now, key@, record.deep_view()));
        }
        assert(rs.take(rs.len() as int) =~= rs);
        self.rows = kept;
    }
}

} // verus!
