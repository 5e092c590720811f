//! What chunks, records and stores guarantee, in terms of what is given to them.

use crate::artifact::{ArtifactV, ItemV};
use crate::digest::{blake3_digest, hex_text};
use crate::json::keys_ascend;
use crate::text::{decimal, join, lowercase, occurs_at, text_le, white_space};
use crate::text_laws::{law_flattened_of_parts, lemma_join_stands, lemma_stands_around, stands_in};
use crate::vector::backend::{doubled, literal, point_id, predicate_text, width_text};
use crate::vector::chunk::{
    artifact_chunks, body_of, chunk_end, chunks_from, chunks_of, law_chunks_stand_in_steps, step_of,
    ChunkConfig, ChunkV,
};
use crate::vector::embed::{buckets_of, lemma_word_end, word_end, words};
use crate::vector::error::{vector_error_text, VectorError};
use crate::vector::memory::{
    as_map, keyed, law_batch_is_stored, law_other_groups_survive, upserted, with_keys,
};
use crate::vector::pipeline::{mismatch_text, records_of, texts_of_chunks};
use crate::vector::record::{
    firsts, key_of, law_keys_are_injective, law_triples_are_injective, lemma_firsts, triple_of,
    triples_of, RecordV,
};
use crate::vector::uri::{effective_uri, first_slash, uri_of, without_slashes, StoreUriV};
use vstd::prelude::*;

verus! {

// ---------------------------------------------------------------------------
// Chunks
// ---------------------------------------------------------------------------

/// What of an item is embedded: its title and a blank line where it has a title,
/// and its text.
pub open spec fn embedded(item: ItemV) -> Seq<char> {
    if item.title is Some && item.title->0.len() > 0 {
        item.title->0 + seq!['\n', '\n'] + item.text
    } else {
        item.text
    }
}

proof fn lemma_body(item: ItemV)
    ensures
        body_of(item) == embedded(item),
{
    reveal_strlit("\n\n");
    assert("\n\n"@ =~= seq!['\n', '\n']);
}

proof fn lemma_chunk_count(body: Seq<char>, start: int, cfg: ChunkConfig, step: int)
    requires
        0 <= start < body.len(),
        cfg.max_chars > 0,
        step == step_of(cfg),
    ensures
        ({
            let n = chunks_from(body, start, cfg).len();
            &&& n > 0
            &&& start + (n - 1) * step + cfg.max_chars >= body.len()
            &&& forall|k: int|
                0 <= k < n - 1 ==> start + #[trigger] (k * step) + cfg.max_chars < body.len()
        }),
    decreases body.len() - start,
{
    let n = chunks_from(body, start, cfg).len();
    let end = chunk_end(body.len() as int, start, cfg);
    if end == body.len() {
        assert(n == 1);
        assert((n - 1) * step == 0) by (nonlinear_arith)
            requires
                n == 1,
        ;
    } else {
        assert(start + step < body.len());
        lemma_chunk_count(body, start + step, cfg, step);
        let rest = chunks_from(body, start + step, cfg).len();
        assert(n == rest + 1);
        assert(start + (n - 1) * step == start + step + (rest - 1) * step) by (nonlinear_arith)
            requires
                n == rest + 1,
        ;
        assert forall|k: int| 0 <= k < n - 1 implies start + #[trigger] (k * step) + cfg.max_chars
            < body.len() by {
            if k == 0 {
                assert(k * step == 0) by (nonlinear_arith)
                    requires
                        k == 0,
                ;
            } else {
                let j = k - 1;
                assert(start + step + j * step + cfg.max_chars < body.len());
                assert(start + k * step == start + step + j * step) by (nonlinear_arith)
                    requires
                        j == k - 1,
                ;
            }
        }
    }
}

/// The chunk number `k` of an item carries the item's id and its own number, and
/// starts `k` times as far in as a chunk is longer than the overlap (one character
/// where it is not longer). All but the last are as long as chunks may be, and the
/// last one ends with the text.
pub proof fn law_chunks_of_an_item(item: ItemV, cfg: ChunkConfig, k: int, step: int)
    requires
        0 <= k < chunks_of(item, cfg).len(),
        step == (if cfg.max_chars > cfg.overlap {
            cfg.max_chars - cfg.overlap
        } else {
            1
        }),
        cfg.max_chars > 0,
        embedded(item).len() > 0,
    ensures
        ({
            let body = embedded(item);
            let c = chunks_of(item, cfg)[k];
            let from = k * step;
            &&& c.item_id == item.id
            &&& c.seq == k
            &&& 0 <= from < body.len()
            &&& k < chunks_of(item, cfg).len() - 1 ==> from + cfg.max_chars < body.len() && c.text
                == body.subrange(from, from + cfg.max_chars)
            &&& k == chunks_of(item, cfg).len() - 1 ==> from + cfg.max_chars >= body.len()
                && c.text == body.subrange(from, body.len() as int)
        }),
{
    let body = embedded(item);
    lemma_body(item);
    law_chunks_stand_in_steps(body, cfg, k);
    lemma_chunk_count(body, 0, cfg, step);
    assert(0 <= k * step) by (nonlinear_arith)
        requires
            0 <= k,
            0 < step,
    ;
}

/// An item without anything to embed has one chunk, which is empty.
pub proof fn law_empty_items_have_one_chunk(item: ItemV, cfg: ChunkConfig)
    requires
        embedded(item).len() == 0,
    ensures
        chunks_of(item, cfg) == seq![ChunkV { item_id: item.id, seq: 0, text: Seq::empty() }],
{
    lemma_body(item);
    assert(chunks_of(item, cfg) =~= seq![
        ChunkV { item_id: item.id, seq: 0, text: Seq::<char>::empty() },
    ]);
}

/// Of two neighbouring chunks the first one ends with as many characters as the
/// overlap asks for, the second one starts with the same characters, and it starts
/// just so far behind the first one that these are the only ones they share.
pub proof fn law_chunks_overlap(item: ItemV, cfg: ChunkConfig, k: int)
    requires
        0 <= k,
        k + 1 < chunks_of(item, cfg).len(),
        cfg.max_chars > cfg.overlap,
    ensures
        ({
            let a = chunks_of(item, cfg)[k].text;
            let b = chunks_of(item, cfg)[k + 1].text;
            let from = k * (cfg.max_chars - cfg.overlap);
            &&& a.len() == cfg.max_chars
            &&& b.len() > cfg.overlap
            &&& a.skip(cfg.max_chars - cfg.overlap) == b.take(cfg.overlap as int)
            &&& a == embedded(item).subrange(from, from + cfg.max_chars)
            &&& b == embedded(item).subrange(
                from + cfg.max_chars - cfg.overlap,
                from + cfg.max_chars - cfg.overlap + b.len(),
            )
        }),
{
    let body = embedded(item);
    let step = cfg.max_chars - cfg.overlap;
    lemma_body(item);
    if body.len() == 0 {
        law_empty_items_have_one_chunk(item, cfg);
    }
    law_chunks_of_an_item(item, cfg, k, step);
    law_chunks_of_an_item(item, cfg, k + 1, step);
    let from = k * step;
    assert((k + 1) * step == from + step) by (nonlinear_arith)
        requires
            from == k * step,
    ;
    let a = chunks_of(item, cfg)[k].text;
    let b = chunks_of(item, cfg)[k + 1].text;
    assert(a.skip(step) =~= b.take(cfg.overlap as int));
}

/// The chunks of an artifact are those of its items, item by item.
pub proof fn law_artifacts_are_chunked_item_by_item(
    a: ArtifactV,
    b: ArtifactV,
    both: ArtifactV,
    one: ArtifactV,
    item: ItemV,
    cfg: ChunkConfig,
)
    requires
        both.items == a.items + b.items,
        one.items == seq![item],
    ensures
        artifact_chunks(both, cfg) == artifact_chunks(a, cfg) + artifact_chunks(b, cfg),
        artifact_chunks(one, cfg) == chunks_of(item, cfg),
        a.items.len() == 0 ==> artifact_chunks(a, cfg).len() == 0,
{
    law_flattened_of_parts(a.items, b.items, item, |it: ItemV| chunks_of(it, cfg));
}

// ---------------------------------------------------------------------------
// Records
// ---------------------------------------------------------------------------

/// The record number `i` of a build is the chunk number `i` of the artifact with
/// the vector number `i`.
pub proof fn law_records_pair_chunks_with_vectors<T>(
    a: ArtifactV,
    chunks: Seq<ChunkV>,
    vectors: Seq<Seq<T>>,
    i: int,
)
    requires
        0 <= i < chunks.len(),
    ensures
        records_of(a, chunks, vectors).len() == chunks.len(),
        ({
            let r = records_of(a, chunks, vectors)[i];
            &&& r.source == a.source
            &&& r.target == a.target
            &&& r.item_id == chunks[i].item_id
            &&& chunks[i].seq >= 0 ==> r.seq == chunks[i].seq
            &&& r.text == chunks[i].text
            &&& r.vector == vectors[i]
        }),
{
}

/// The parts by which records are grouped hold no unit separator.
pub open spec fn plain_parts<T>(r: RecordV<T>) -> bool {
    !r.source.contains('\u{1f}') && !r.target.contains('\u{1f}') && !r.item_id.contains('\u{1f}')
}

/// Two records are of the same item of the same target of the same source.
pub open spec fn same_item<T>(a: RecordV<T>, b: RecordV<T>) -> bool {
    a.source == b.source && a.target == b.target && a.item_id == b.item_id
}

proof fn lemma_same_triple<T>(a: RecordV<T>, b: RecordV<T>)
    requires
        plain_parts(a),
        plain_parts(b),
    ensures
        triple_of(a) == triple_of(b) <==> same_item(a, b),
        key_of(a) == key_of(b) <==> same_item(a, b) && a.seq == b.seq,
{
    if triple_of(a) == triple_of(b) {
        law_triples_are_injective(a.source, a.target, a.item_id, b.source, b.target, b.item_id);
    }
    if key_of(a) == key_of(b) {
        law_keys_are_injective(triple_of(a), a.seq, triple_of(b), b.seq);
    }
}

/// A row is in a store.
pub open spec fn holds<T>(m: Map<Seq<char>, RecordV<T>>, row: RecordV<T>) -> bool {
    exists|k: Seq<char>| #[trigger] m.contains_key(k) && m[k] == row
}

/// After an upsert a store holds a row just where it is the last of the batch with
/// its item and number, or was there before and no record of the batch is of its
/// item.
pub proof fn law_upsert_replaces_whole_items<T>(
    m: Map<Seq<char>, RecordV<T>>,
    records: Seq<RecordV<T>>,
    row: RecordV<T>,
)
    requires
        keyed(m),
        plain_parts(row),
        forall|i: int| 0 <= i < records.len() ==> plain_parts(#[trigger] records[i]),
    ensures
        holds(upserted(m, records), row) <==> {
            ||| exists|i: int|
                0 <= i < records.len() && #[trigger] records[i] == row && forall|j: int|
                    i < j < records.len() ==> !(same_item(#[trigger] records[j], row)
                        && records[j].seq == row.seq)
            ||| holds(m, row) && forall|i: int|
                0 <= i < records.len() ==> !same_item(#[trigger] records[i], row)
        },
{
    let after = upserted(m, records);
    if exists|i: int|
        0 <= i < records.len() && #[trigger] records[i] == row && forall|j: int|
            i < j < records.len() ==> !(same_item(#[trigger] records[j], row) && records[j].seq
                == row.seq) {
        let i = choose|i: int|
            0 <= i < records.len() && #[trigger] records[i] == row && forall|j: int|
                i < j < records.len() ==> !(same_item(#[trigger] records[j], row)
                    && records[j].seq == row.seq);
        assert forall|j: int| i < j < records.len() implies key_of(#[trigger] records[j])
            != key_of(records[i]) by {
            lemma_same_triple(records[j], row);
        }
        law_batch_is_stored(m, records, i);
        assert(after.contains_key(key_of(row)));
    } else if holds(m, row) && forall|i: int|
        0 <= i < records.len() ==> !same_item(#[trigger] records[i], row) {
        let k = choose|k: Seq<char>| #[trigger] m.contains_key(k) && m[k] == row;
        assert(!triples_of(records).contains(triple_of(row))) by {
            if triples_of(records).contains(triple_of(row)) {
                let i = choose|i: int|
                    0 <= i < triples_of(records).len() && triples_of(records)[i] == triple_of(row);
                lemma_same_triple(records[i], row);
                assert(same_item(records[i], row));
            }
        }
        law_other_groups_survive(m, records, k);
    }
    if holds(after, row) {
        let k = choose|k: Seq<char>| #[trigger] after.contains_key(k) && after[k] == row;
        crate::vector::memory::lemma_upserted(m, records, k);
        if exists|i: int| 0 <= i < records.len() && same_item(#[trigger] records[i], row) {
            let i = choose|i: int| 0 <= i < records.len() && same_item(#[trigger] records[i], row);
            lemma_same_triple(records[i], row);
            assert(triples_of(records)[i] == triple_of(row));
            assert(triples_of(records).contains(triple_of(row)));
            let j = choose|j: int|
                0 <= j < records.len() && key_of(#[trigger] records[j]) == k && after[k]
                    == records[j] && forall|l: int|
                    j < l < records.len() ==> key_of(#[trigger] records[l]) != k;
            assert(records[j] == row);
            assert forall|l: int| j < l < records.len() implies !(same_item(
                #[trigger] records[l],
                row,
            ) && records[l].seq == row.seq) by {
                lemma_same_triple(records[l], row);
                assert(key_of(records[l]) != k);
            }
        } else {
            assert forall|i: int| 0 <= i < records.len() implies key_of(#[trigger] records[i])
                != k by {
                if key_of(records[i]) == k {
                    lemma_same_triple(records[i], row);
                    crate::vector::memory::law_upsert_keeps_keys(m, records);
                    assert(key_of(after[k]) == k);
                    assert(same_item(records[i], row));
                }
            }
            assert(m.contains_key(k) && m[k] == row);
        }
    }
}

/// The condition by which a table drops the rows of a batch names the group of
/// every record, in quotes, and each group once.
pub proof fn law_predicates_name_every_group<T>(records: Seq<RecordV<T>>, i: int)
    requires
        0 <= i < records.len(),
    ensures
        stands_in(
            predicate_text(records),
            seq!['\''] + doubled(
                records[i].source + seq!['\u{1f}'] + records[i].target + seq!['\u{1f}']
                    + records[i].item_id,
            ) + seq!['\''],
        ),
        exists|groups: Seq<Seq<char>>|
            #![trigger groups.no_duplicates()]
            groups.no_duplicates() && (forall|t: Seq<char>| #[trigger]
                groups.contains(t) <==> exists|k: int|
                    0 <= k < records.len() && t == (#[trigger] records[k]).source + seq!['\u{1f}']
                        + records[k].target + seq!['\u{1f}'] + records[k].item_id)
                && predicate_text(records) == "triple IN ("@ + join(
                groups.map_values(|t: Seq<char>| seq!['\''] + doubled(t) + seq!['\'']),
                ", "@,
            ) + ")"@,
{
    reveal_strlit("'");
    let groups = firsts(triples_of(records));
    lemma_firsts(triples_of(records));
    let quoted = |t: Seq<char>| seq!['\''] + doubled(t) + seq!['\''];
    assert("'"@ =~= seq!['\'']);
    let parts = groups.map_values(|t: Seq<char>| literal(t));
    assert(parts =~= groups.map_values(quoted));
    assert forall|t: Seq<char>| #[trigger] groups.contains(t) <==> exists|k: int|
        0 <= k < records.len() && t == (#[trigger] records[k]).source + seq!['\u{1f}']
            + records[k].target + seq!['\u{1f}'] + records[k].item_id by {
        if groups.contains(t) {
            let k = choose|k: int| 0 <= k < triples_of(records).len() && triples_of(records)[k] == t;
            assert(triple_of(records[k]) == t);
        }
        if exists|k: int|
            0 <= k < records.len() && t == (#[trigger] records[k]).source + seq!['\u{1f}']
                + records[k].target + seq!['\u{1f}'] + records[k].item_id {
            let k = choose|k: int|
                0 <= k < records.len() && t == (#[trigger] records[k]).source + seq!['\u{1f}']
                    + records[k].target + seq!['\u{1f}'] + records[k].item_id;
            assert(triples_of(records)[k] == t);
            assert(triples_of(records).contains(t));
        }
    }
    let t = triple_of(records[i]);
    assert(triples_of(records)[i] == t);
    assert(groups.contains(t));
    let g = choose|g: int| 0 <= g < groups.len() && groups[g] == t;
    lemma_join_stands(parts, ", "@, g);
    lemma_stands_around("triple IN ("@, join(parts, ", "@), ")"@, parts[g]);
    assert(groups.no_duplicates());
}

/// The identifier of a point has the usual form of one, and names the first
/// sixteen bytes of the digest of its key.
pub proof fn law_points_are_named_by_the_digest(key: Seq<char>)
    requires
        blake3_digest(key).len() == 32,
    ensures
        ({
            let id = point_id(key);
            let d = blake3_digest(key);
            &&& id.len() == 36
            &&& id[8] == '-' && id[13] == '-' && id[18] == '-' && id[23] == '-'
            &&& id.subrange(0, 8) + id.subrange(9, 13) + id.subrange(14, 18) + id.subrange(19, 23)
                + id.subrange(24, 36) == hex_text(d.take(16))
        }),
{
    reveal_strlit("-");
    let d = blake3_digest(key);
    let a = d.subrange(0, 4);
    let b = d.subrange(4, 6);
    let c = d.subrange(6, 8);
    let e = d.subrange(8, 10);
    let f = d.subrange(10, 16);
    lemma_hex_sum(a, b);
    lemma_hex_sum(a + b, c);
    lemma_hex_sum(a + b + c, e);
    lemma_hex_sum(a + b + c + e, f);
    lemma_hex_len(a);
    lemma_hex_len(b);
    lemma_hex_len(c);
    lemma_hex_len(e);
    lemma_hex_len(f);
    assert(d.take(16) =~= a + b + c + e + f);
    let id = point_id(key);
    assert(id.subrange(0, 8) =~= hex_text(a));
    assert(id.subrange(9, 13) =~= hex_text(b));
    assert(id.subrange(14, 18) =~= hex_text(c));
    assert(id.subrange(19, 23) =~= hex_text(e));
    assert(id.subrange(24, 36) =~= hex_text(f));
}

proof fn lemma_hex_len(a: Seq<u8>)
    ensures
        hex_text(a).len() == 2 * a.len(),
    decreases a.len(),
{
    if a.len() > 0 {
        lemma_hex_len(a.drop_last());
    }
}

proof fn lemma_hex_sum(a: Seq<u8>, b: Seq<u8>)
    ensures
        hex_text(a + b) == hex_text(a) + hex_text(b),
    decreases b.len(),
{
    if b.len() == 0 {
        assert(a + b =~= a);
        assert(hex_text(a) + hex_text(b) =~= hex_text(a));
    } else {
        lemma_hex_sum(a, b.drop_last());
        assert((a + b).drop_last() =~= a + b.drop_last());
        assert(hex_text(a + b) =~= hex_text(a) + hex_text(b));
    }
}

// ---------------------------------------------------------------------------
// Words
// ---------------------------------------------------------------------------

/// What stands between white space is a word, and white space parts words.
pub proof fn law_words_stand_between_white_space(a: Seq<char>, c: char, b: Seq<char>, w: Seq<char>)
    requires
        white_space(c),
        w.len() > 0,
        forall|i: int| 0 <= i < w.len() ==> !white_space(#[trigger] w[i]),
    ensures
        words(a + seq![c] + b) == words(a) + words(b),
        words(w) == seq![w],
        words(Seq::<char>::empty()).len() == 0,
{
    lemma_words_part(a, c, b);
    lemma_whole_word(w, Seq::empty());
    assert(w + Seq::<char>::empty() =~= w);
    assert(w.take(w.len() as int) =~= w);
    assert(!white_space(w[0]));
    reveal_with_fuel(words, 2);
    assert(w.skip(w.len() as int).len() == 0);
    assert(words(w) =~= seq![w]);
}

/// The end of a first word that stands before white space or the end.
proof fn lemma_whole_word(w: Seq<char>, rest: Seq<char>)
    requires
        forall|i: int| 0 <= i < w.len() ==> !white_space(#[trigger] w[i]),
        rest.len() > 0 ==> white_space(rest[0]),
    ensures
        word_end(w + rest) == w.len(),
    decreases w.len(),
{
    if w.len() == 0 {
        assert(w + rest =~= rest);
    } else {
        assert(!white_space(w[0]));
        let tail = w.drop_first();
        assert forall|i: int| 0 <= i < tail.len() implies !white_space(#[trigger] tail[i]) by {
            assert(!white_space(w[i + 1]));
        }
        lemma_whole_word(tail, rest);
        assert((w + rest).drop_first() =~= tail + rest);
    }
}

proof fn lemma_word_is_whole(s: Seq<char>)
    ensures
        0 <= word_end(s) <= s.len(),
        forall|i: int| 0 <= i < word_end(s) ==> !white_space(#[trigger] s[i]),
        word_end(s) < s.len() ==> white_space(s[word_end(s)]),
    decreases s.len(),
{
    if s.len() > 0 && !white_space(s[0]) {
        let rest = s.drop_first();
        lemma_word_is_whole(rest);
        assert forall|i: int| 0 <= i < word_end(s) implies !white_space(#[trigger] s[i]) by {
            if i > 0 {
                assert(rest[i - 1] == s[i]);
            }
        }
        if word_end(s) < s.len() {
            assert(rest[word_end(rest)] == s[word_end(s)]);
        }
    }
}

proof fn lemma_words_part(a: Seq<char>, c: char, b: Seq<char>)
    requires
        white_space(c),
    ensures
        words(a + seq![c] + b) == words(a) + words(b),
    decreases a.len(),
{
    let s = a + seq![c] + b;
    if a.len() == 0 {
        assert(s[0] == c);
        assert(s.drop_first() =~= b);
        assert(words(a) + words(b) =~= words(b));
    } else if white_space(a[0]) {
        assert(s[0] == a[0]);
        assert(s.drop_first() =~= a.drop_first() + seq![c] + b);
        lemma_words_part(a.drop_first(), c, b);
    } else {
        let k = word_end(a);
        lemma_word_is_whole(a);
        lemma_word_end(a.drop_first());
        let w = a.take(k);
        let tail = a.skip(k);
        let rest = tail + seq![c] + b;
        assert forall|i: int| 0 <= i < w.len() implies !white_space(#[trigger] w[i]) by {
            assert(a[i] == w[i]);
        }
        if k < a.len() {
            assert(rest[0] == a[k]);
        } else {
            assert(rest[0] == c);
        }
        assert(s =~= w + rest);
        lemma_whole_word(w, rest);
        assert(word_end(s) == k);
        assert(s.take(k) =~= w);
        assert(s.skip(k) =~= rest);
        lemma_words_part(tail, c, b);
        assert(words(s) =~= words(a) + words(b));
    }
}

/// Each word is counted in one bucket, the one that the first four bytes of the
/// digest of its lower-case form fall into.
pub proof fn law_words_fall_into_buckets(text: Seq<char>, dim: nat, i: int)
    requires
        dim > 0,
        0 <= i < words(text).len(),
    ensures
        buckets_of(text, dim).len() == words(text).len(),
        0 <= buckets_of(text, dim)[i] < dim,
        ({
            let d = blake3_digest(lowercase(words(text)[i]));
            buckets_of(text, dim)[i] == (d[0] as int + d[1] as int * 0x100 + d[2] as int * 0x10000
                + d[3] as int * 0x1000000) % (dim as int)
        }),
{
}

// ---------------------------------------------------------------------------
// Addresses of stores
// ---------------------------------------------------------------------------

/// `lance://` and a path is a directory, kept as it is; without a path it is
/// nothing.
pub proof fn law_lance_addresses(path: Seq<char>)
    ensures
        path.len() > 0 ==> uri_of("lance://"@ + path) == Some(StoreUriV::Lance { path }),
        path.len() == 0 ==> uri_of("lance://"@ + path) is None,
        effective_uri("lance://"@ + path) == "lance://"@ + path,
        effective_uri(Seq::<char>::empty()) == "lance://./vec"@,
{
    reveal_strlit("lance://");
    let s = "lance://"@ + path;
    assert(s.subrange(0, 8) =~= "lance://"@);
    assert(s.skip(8) =~= path);
}

/// An address is taken as it is given; without one the default store is meant.
pub proof fn law_addresses_are_taken_as_given(s: Seq<char>)
    ensures
        s.len() > 0 ==> effective_uri(s) == s,
        s.len() == 0 ==> effective_uri(s) == "lance://./vec"@,
{
}

/// `qdrant://`, a server and a collection behind a slash name both; without a
/// collection the default one is meant, and slashes behind the server are
/// dropped. Without a server it is nothing.
pub proof fn law_qdrant_addresses(server: Seq<char>, collection: Seq<char>, slashes: Seq<char>)
    requires
        !server.contains('/'),
        forall|i: int| 0 <= i < slashes.len() ==> #[trigger] slashes[i] == '/',
        slashes.len() <= 1,
    ensures
        server.len() > 0 && collection.len() > 0 ==> uri_of(
            "qdrant://"@ + server + seq!['/'] + collection,
        ) == Some(StoreUriV::Qdrant { url: "http://"@ + server, collection }),
        server.len() > 0 ==> uri_of("qdrant://"@ + server + slashes) == Some(
            StoreUriV::Qdrant { url: "http://"@ + server, collection: "ncrawler"@ },
        ),
        server.len() == 0 && collection.len() > 0 ==> uri_of(
            "qdrant://"@ + server + seq!['/'] + collection,
        ) is None,
        server.len() == 0 ==> uri_of("qdrant://"@ + server + slashes) is None,
{
    reveal_strlit("qdrant://");
    reveal_strlit("lance://");
    let a = "qdrant://"@ + server + seq!['/'] + collection;
    let b = "qdrant://"@ + server + slashes;
    assert(a.subrange(0, 9) =~= "qdrant://"@);
    assert(b.subrange(0, 9) =~= "qdrant://"@);
    assert(a[0] == 'q' && b[0] == 'q');
    assert(!occurs_at(a, "lance://"@, 0)) by {
        if a.len() >= 8 {
            assert(a.subrange(0, 8)[0] == 'q');
        }
    }
    assert(!occurs_at(b, "lance://"@, 0)) by {
        if b.len() >= 8 {
            assert(b.subrange(0, 8)[0] == 'q');
        }
    }
    let x = server + seq!['/'] + collection;
    let y = server + slashes;
    assert(a.skip(9) =~= x);
    assert(b.skip(9) =~= y);
    lemma_first_slash(server, seq!['/'] + collection);
    assert(x =~= server + (seq!['/'] + collection));
    lemma_first_slash(server, slashes);
    assert(x.take(server.len() as int) =~= server);
    assert(x.skip(server.len() as int + 1) =~= collection);
    lemma_without_slashes(server, slashes);
}

proof fn lemma_first_slash(server: Seq<char>, rest: Seq<char>)
    requires
        !server.contains('/'),
        rest.len() > 0 ==> rest[0] == '/',
    ensures
        first_slash(server + rest) == server.len(),
    decreases server.len(),
{
    let s = server + rest;
    if server.len() == 0 {
        assert(s =~= rest);
    } else {
        assert(server.contains(server[0]));
        let tail = server.drop_first();
        assert(!tail.contains('/')) by {
            if tail.contains('/') {
                let i = choose|i: int| 0 <= i < tail.len() && tail[i] == '/';
                assert(server[i + 1] == '/');
            }
        }
        lemma_first_slash(tail, rest);
        assert(s.drop_first() =~= tail + rest);
    }
}

proof fn lemma_without_slashes(server: Seq<char>, slashes: Seq<char>)
    requires
        !server.contains('/'),
        forall|i: int| 0 <= i < slashes.len() ==> #[trigger] slashes[i] == '/',
    ensures
        without_slashes(server + slashes) == server,
    decreases slashes.len(),
{
    let s = server + slashes;
    if slashes.len() == 0 {
        assert(s =~= server);
        if server.len() > 0 {
            assert(server.contains(server.last()));
        }
    } else {
        assert(slashes[slashes.len() - 1] == '/');
        assert(s.drop_last() =~= server + slashes.drop_last());
        lemma_without_slashes(server, slashes.drop_last());
    }
}

/// An address of another kind is none.
pub proof fn law_other_addresses_are_none(s: Seq<char>)
    requires
        !("lance://"@.len() <= s.len() && s.take("lance://"@.len() as int) == "lance://"@),
        !("qdrant://"@.len() <= s.len() && s.take("qdrant://"@.len() as int) == "qdrant://"@),
    ensures
        uri_of(s) is None,
{
    if occurs_at(s, "lance://"@, 0) {
        assert(s.take("lance://"@.len() as int) =~= s.subrange(0, "lance://"@.len() as int));
    }
    if occurs_at(s, "qdrant://"@, 0) {
        assert(s.take("qdrant://"@.len() as int) =~= s.subrange(0, "qdrant://"@.len() as int));
    }
}

/// Where a chunk may hold nothing, there is an empty one for each character.
pub proof fn law_chunks_of_nothing_are_empty(item: ItemV, cfg: ChunkConfig, k: int)
    requires
        cfg.max_chars == 0,
        embedded(item).len() > 0,
    ensures
        chunks_of(item, cfg).len() == embedded(item).len(),
        0 <= k < chunks_of(item, cfg).len() ==> chunks_of(item, cfg)[k] == (ChunkV {
            item_id: item.id,
            seq: k,
            text: Seq::empty(),
        }),
{
    let body = embedded(item);
    lemma_body(item);
    lemma_empty_chunks(body, 0, cfg);
    if 0 <= k < chunks_of(item, cfg).len() {
        assert(chunks_from(body, 0, cfg)[k].len() == 0);
        assert(chunks_from(body, 0, cfg)[k] =~= Seq::<char>::empty());
    }
}

proof fn lemma_empty_chunks(body: Seq<char>, start: int, cfg: ChunkConfig)
    requires
        cfg.max_chars == 0,
        0 <= start <= body.len(),
    ensures
        chunks_from(body, start, cfg).len() == body.len() - start,
        forall|k: int|
            0 <= k < body.len() - start ==> (#[trigger] chunks_from(body, start, cfg)[k]).len()
                == 0,
    decreases body.len() - start,
{
    if start < body.len() {
        lemma_empty_chunks(body, start + 1, cfg);
        let rest = chunks_from(body, start + 1, cfg);
        let all = chunks_from(body, start, cfg);
        assert(all == seq![body.subrange(start, start)] + rest);
        assert forall|k: int| 0 <= k < body.len() - start implies (#[trigger] all[k]).len() == 0 by {
            if k > 0 {
                assert(all[k] == rest[k - 1]);
            }
        }
    }
}

/// What is embedded is the texts of the chunks, in their order.
pub proof fn law_texts_of_chunks_are_embedded(chunks: Seq<ChunkV>, i: int)
    requires
        0 <= i < chunks.len(),
    ensures
        texts_of_chunks(chunks).len() == chunks.len(),
        texts_of_chunks(chunks)[i] == chunks[i].text,
{
}

/// A record is kept under its source, target, item and number, with a unit
/// separator between them.
pub proof fn law_keys_are_made_of_parts<T>(r: RecordV<T>)
    ensures
        key_of(r) == r.source + seq!['\u{1f}'] + r.target + seq!['\u{1f}'] + r.item_id + seq![
            '\u{1f}',
        ] + decimal(r.seq),
        triple_of(r) == r.source + seq!['\u{1f}'] + r.target + seq!['\u{1f}'] + r.item_id,
{
}

/// In a literal a quote is doubled, and all else stays.
pub proof fn law_quotes_are_doubled(a: Seq<char>, b: Seq<char>, c: char)
    ensures
        doubled(a + b) == doubled(a) + doubled(b),
        doubled(seq![c]) == (if c == '\'' {
            seq!['\'', '\'']
        } else {
            seq![c]
        }),
        doubled(Seq::<char>::empty()).len() == 0,
    decreases b.len(),
{
    reveal_with_fuel(doubled, 2);
    assert(seq![c].drop_last() =~= Seq::<char>::empty());
    assert(doubled(seq![c]) =~= (if c == '\'' {
        seq!['\'', '\'']
    } else {
        seq![c]
    }));
    if b.len() == 0 {
        assert(a + b =~= a);
        assert(doubled(a) + doubled(b) =~= doubled(a));
    } else {
        law_quotes_are_doubled(a, b.drop_last(), c);
        assert((a + b).drop_last() =~= a + b.drop_last());
        assert(doubled(a + b) =~= doubled(a) + doubled(b));
    }
}

/// A byte is written by two hexadecimal digits, the higher one first, in small
/// letters.
pub proof fn law_bytes_are_written_in_hex(a: Seq<u8>, b: u8)
    ensures
        hex_text(a.push(b)) == hex_text(a) + seq![small_hex(b as int / 16), small_hex(b as int % 16)],
        hex_text(Seq::<u8>::empty()).len() == 0,
{
    assert(a.push(b).drop_last() =~= a);
    assert(hex_text(a.push(b)) =~= hex_text(a) + seq![
        small_hex(b as int / 16),
        small_hex(b as int % 16),
    ]);
}

/// The hexadecimal digits, by their value.
pub open spec fn small_hex(d: int) -> char {
    if d == 0 {
        '0'
    } else if d == 1 {
        '1'
    } else if d == 2 {
        '2'
    } else if d == 3 {
        '3'
    } else if d == 4 {
        '4'
    } else if d == 5 {
        '5'
    } else if d == 6 {
        '6'
    } else if d == 7 {
        '7'
    } else if d == 8 {
        '8'
    } else if d == 9 {
        '9'
    } else if d == 10 {
        'a'
    } else if d == 11 {
        'b'
    } else if d == 12 {
        'c'
    } else if d == 13 {
        'd'
    } else if d == 14 {
        'e'
    } else {
        'f'
    }
}

/// What went wrong is told in words.
pub proof fn law_vector_errors_are_told(e: VectorError, a: nat, b: nat)
    ensures
        vector_error_text(e) == (match e {
            VectorError::Embed(s) => "embedding failed: "@ + s@,
            VectorError::Store(s) => "vector store error: "@ + s@,
            VectorError::BadUri(s) => "unsupported or malformed store uri: "@ + s@,
            VectorError::Cancelled => "operation cancelled"@,
            VectorError::Io(s) => s@,
        }),
        width_text(a, b) == "vector width "@ + decimal(a) + " != store dim "@ + decimal(b),
        mismatch_text(a, b) == "embedder returned "@ + decimal(a) + " vectors for "@ + decimal(b)
            + " chunks"@,
{
}

/// The rows of a store are what it holds, each once, by key.
pub proof fn law_rows_are_what_is_held<T>(
    m: Map<Seq<char>, RecordV<T>>,
    rows: Seq<RecordV<T>>,
    row: RecordV<T>,
    i: int,
    j: int,
)
    requires
        keys_ascend(with_keys(rows)),
        as_map(with_keys(rows)) == m,
    ensures
        holds(m, row) <==> rows.contains(row),
        0 <= i < j < rows.len() ==> key_of(rows[i]) != key_of(rows[j]) && text_le(
            key_of(rows[i]),
            key_of(rows[j]),
        ),
        m.len() == rows.len(),
{
    let es = with_keys(rows);
    lemma_as_map(es);
    if holds(m, row) {
        let k = choose|k: Seq<char>| #[trigger] m.contains_key(k) && m[k] == row;
        let n = choose|n: int| 0 <= n < es.len() && (#[trigger] es[n]).0 == k;
        assert(es[n].1 == row);
        assert(rows[n] == row);
    }
    if rows.contains(row) {
        let n = choose|n: int| 0 <= n < rows.len() && rows[n] == row;
        assert(es[n].1 == row);
        assert(m.contains_key(es[n].0));
    }
    if 0 <= i < j < rows.len() {
        assert(text_le(es[i].0, es[j].0) && es[i].0 != es[j].0);
    }
}

proof fn lemma_as_map<V>(es: Seq<(Seq<char>, V)>)
    requires
        keys_ascend(es),
    ensures
        as_map(es).dom().finite(),
        as_map(es).len() == es.len(),
        forall|k: Seq<char>| #[trigger]
            as_map(es).contains_key(k) <==> exists|n: int|
                0 <= n < es.len() && (#[trigger] es[n]).0 == k,
        forall|n: int|
            0 <= n < es.len() ==> as_map(es).contains_key((#[trigger] es[n]).0) && as_map(
                es,
            )[es[n].0] == es[n].1,
    decreases es.len(),
{
    if es.len() > 0 {
        let init = es.drop_last();
        let last = es.last();
        assert(keys_ascend(init)) by {
            assert forall|i: int, j: int| 0 <= i < j < init.len() implies text_le(
                (#[trigger] init[i]).0,
                (#[trigger] init[j]).0,
            ) && init[i].0 != init[j].0 by {
                assert(text_le(es[i].0, es[j].0) && es[i].0 != es[j].0);
            }
        }
        lemma_as_map(init);
        assert(!as_map(init).contains_key(last.0)) by {
            if as_map(init).contains_key(last.0) {
                let n = choose|n: int| 0 <= n < init.len() && (#[trigger] init[n]).0 == last.0;
                assert(es[n].0 != es[es.len() - 1].0);
            }
        }
        assert forall|k: Seq<char>| #[trigger] as_map(es).contains_key(k) <==> exists|n: int|
            0 <= n < es.len() && (#[trigger] es[n]).0 == k by {
            if as_map(es).contains_key(k) {
                if k == last.0 {
                    assert(es[es.len() - 1].0 == k);
                } else {
                    assert(as_map(init).contains_key(k));
                    let n = choose|n: int| 0 <= n < init.len() && (#[trigger] init[n]).0 == k;
                    assert(es[n].0 == k);
                }
            }
            if exists|n: int| 0 <= n < es.len() && (#[trigger] es[n]).0 == k {
                let n = choose|n: int| 0 <= n < es.len() && (#[trigger] es[n]).0 == k;
                if n < init.len() {
                    assert(init[n].0 == k);
                }
            }
        }
        assert forall|n: int| 0 <= n < es.len() implies as_map(es).contains_key(
            (#[trigger] es[n]).0,
        ) && as_map(es)[es[n].0] == es[n].1 by {
            if n < init.len() {
                assert(init[n] == es[n]);
                assert(es[n].0 != es[es.len() - 1].0);
            }
        }
    }
}

} // verus!
