//! What the persistent stores need of a batch: its columns, the predicate that
//! selects the rows it replaces, and the ids of its points.

use crate::collect::{flattened, lemma_flattened_step};
use crate::digest::{blake3_digest, digest, hex_of, hex_text};
use crate::text::{chars_of, decimal, decimal_usize, join, join_texts};
use crate::vector::error::VectorError;
use crate::vector::record::{
    distinct_triples, firsts, key_of, triple_of, triples_of, RecordV, VectorRecord,
};
use vstd::prelude::*;

verus! {

// ---------------------------------------------------------------------------
// Vector width
// ---------------------------------------------------------------------------

/// The message on a vector of another width than the store's.
pub open spec fn width_text(width: nat, dim: nat) -> Seq<char> {
    "vector width "@ + decimal(width) + " != store dim "@ + decimal(dim)
}

/// Check that every vector of a batch has the store's width; the first one that
/// has not is reported.
pub fn check_width<T>(records: &Vec<VectorRecord<T>>, dim: usize) -> (r: Result<(), VectorError>)
    ensures
        match r {
            Ok(_) => forall|i: int|
                0 <= i < records@.len() ==> (#[trigger] records@[i]).vector@.len() == dim,
            Err(e) => exists|i: int|
                0 <= i < records@.len() && (#[trigger] records@[i]).vector@.len() != dim && (
                forall|j: int| 0 <= j < i ==> (#[trigger] records@[j]).vector@.len() == dim) && (e
                    matches VectorError::Store(s) && s@ == width_text(
                    records@[i].vector@.len(),
                    dim as nat,
                )),
        },
{
    for i in 0..records.len()
        invariant
            forall|j: int| 0 <= j < i ==> (#[trigger] records@[j]).vector@.len() == dim,
    {
        let width: usize = records[i].vector.len();
        if width != dim {
            let mut s = "vector width ".to_owned();
            s.append(decimal_usize(width).as_str());
            s.append(" != store dim ");
            s.append(decimal_usize(dim).as_str());
            assert(records@[i as int].vector@.len() != dim);
            return Err(VectorError::Store(s));
        }
    }
    Ok(())
}

// ---------------------------------------------------------------------------
// The predicate of the rows that a batch replaces
// ---------------------------------------------------------------------------

/// `s` with each single quote doubled.
pub open spec fn doubled(s: Seq<char>) -> Seq<char>
    decreases s.len(),
{
    if s.len() == 0 {
        s
    } else if s.last() == '\'' {
        doubled(s.drop_last()).push('\'').push('\'')
    } else {
        doubled(s.drop_last()).push(s.last())
    }
}

/// `d` with each pair of single quotes read as one.
pub open spec fn undoubled(d: Seq<char>) -> Seq<char>
    decreases d.len(),
{
    if d.len() == 0 {
        d
    } else if d.len() >= 2 && d.last() == '\'' && d[d.len() - 2] == '\'' {
        undoubled(d.drop_last().drop_last()).push('\'')
    } else {
        undoubled(d.drop_last()).push(d.last())
    }
}

/// Reading a quoted text gives the text back: quoting loses nothing, and no
/// quote in a text ends it.
pub proof fn law_quoting_reads_back(s: Seq<char>)
    ensures
        undoubled(doubled(s)) == s,
    decreases s.len(),
{
    if s.len() > 0 {
        law_quoting_reads_back(s.drop_last());
        let init = doubled(s.drop_last());
        let d = doubled(s);
        if s.last() == '\'' {
            assert(d.drop_last().drop_last() =~= init);
        } else {
            assert(d.drop_last() =~= init);
        }
        assert(s =~= s.drop_last().push(s.last()));
    }
}

/// A text as an SQL string literal.
pub open spec fn literal(s: Seq<char>) -> Seq<char> {
    "'"@ + doubled(s) + "'"@
}

/// The predicate of the rows of the groups of a batch.
pub open spec fn predicate_text<T>(records: Seq<RecordV<T>>) -> Seq<char> {
    "triple IN ("@ + join(
        firsts(triples_of(records)).map_values(|t: Seq<char>| literal(t)),
        ", "@,
    ) + ")"@
}

fn quote(s: &str) -> (r: String)
    ensures
        r@ == literal(s@),
{
    let v = chars_of(s);
    let mut body = String::new();
    for i in 0..v.len()
        invariant
            body@ == doubled(v@.take(i as int)),
    {
        assert(v@.take(i + 1).drop_last() =~= v@.take(i as int));
        body.push(v[i]);
        if v[i] == '\'' {
            body.push('\'');
        }
    }
    assert(v@.take(v@.len() as int) =~= v@);
    let mut out = "'".to_owned();
    out.append(body.as_str());
    out.append("'");
    out
}

/// `triple IN ('a', 'b', ...)` over the groups of a batch, with single quotes
/// doubled.
pub fn triple_in_predicate<T>(records: &Vec<VectorRecord<T>>) -> (r: String)
    ensures
        r@ == predicate_text(records.deep_view()),
{
    let triples = distinct_triples(records);
    let mut parts: Vec<String> = Vec::new();
    for i in 0..triples.len()
        invariant
            parts@.len() == i,
            forall|k: int| 0 <= k < i ==> (#[trigger] parts@[k])@ == literal(triples@[k]@),
    {
        parts.push(quote(triples[i].as_str()));
    }
    assert(parts.deep_view() =~= triples.deep_view().map_values(|t: Seq<char>| literal(t)));
    let mut out = "triple IN (".to_owned();
    out.append(join_texts(&parts, ", ").as_str());
    out.append(")");
    out
}

/// What an upsert into a table does.
pub enum TableUpsert {
    /// The batch is empty: nothing.
    Nothing,
    /// Delete the rows that the predicate selects, then add the batch.
    Replace { predicate: String },
    /// There is no table yet: create it with the batch.
    Create,
}

/// Plan an upsert into a table of vectors of width `dim`.
pub fn plan_upsert<T>(records: &Vec<VectorRecord<T>>, dim: usize, table_exists: bool) -> (r: Result<
    TableUpsert,
    VectorError,
>)
    ensures
        records@.len() == 0 ==> r == Ok::<TableUpsert, VectorError>(TableUpsert::Nothing),
        records@.len() > 0 && (forall|i: int|
            0 <= i < records@.len() ==> (#[trigger] records@[i]).vector@.len() == dim) ==> (
        if table_exists {
            r matches Ok(TableUpsert::Replace { predicate }) && predicate@ == predicate_text(
                records.deep_view(),
            )
        } else {
            r == Ok::<TableUpsert, VectorError>(TableUpsert::Create)
        }),
        (exists|i: int| 0 <= i < records@.len() && (#[trigger] records@[i]).vector@.len() != dim)
            ==> r is Err && exists|i: int|
            0 <= i < records@.len() && (#[trigger] records@[i]).vector@.len() != dim && (forall|
                j: int,
            | 0 <= j < i ==> (#[trigger] records@[j]).vector@.len() == dim) && (
            r->Err_0 matches VectorError::Store(s) && s@ == width_text(
                records@[i].vector@.len(),
                dim as nat,
            )),
{
    if records.len() == 0 {
        return Ok(TableUpsert::Nothing);
    }
    match check_width(records, dim) {
        Err(e) => Err(e),
        Ok(_) => if table_exists {
            Ok(TableUpsert::Replace { predicate: triple_in_predicate(records) })
        } else {
            Ok(TableUpsert::Create)
        },
    }
}

// ---------------------------------------------------------------------------
// Columns
// ---------------------------------------------------------------------------

/// A batch, column by column; the vectors one after the other.
pub struct Columns<T> {
    pub keys: Vec<String>,
    pub triples: Vec<String>,
    pub sources: Vec<String>,
    pub targets: Vec<String>,
    pub item_ids: Vec<String>,
    pub seqs: Vec<u32>,
    pub texts: Vec<String>,
    pub values: Vec<T>,
}

/// Take a batch apart into columns.
pub fn columns<T: Copy>(records: &Vec<VectorRecord<T>>) -> (r: Columns<T>)
    ensures
        r.keys.deep_view() == records.deep_view().map_values(|x: RecordV<T>| key_of(x)),
        r.triples.deep_view() == records.deep_view().map_values(|x: RecordV<T>| triple_of(x)),
        r.sources.deep_view() == records.deep_view().map_values(|x: RecordV<T>| x.source),
        r.targets.deep_view() == records.deep_view().map_values(|x: RecordV<T>| x.target),
        r.item_ids.deep_view() == records.deep_view().map_values(|x: RecordV<T>| x.item_id),
        r.seqs@ == records@.map_values(|x: VectorRecord<T>| x.seq as u32),
        r.texts.deep_view() == records.deep_view().map_values(|x: RecordV<T>| x.text),
        r.values@ == flattened(records.deep_view(), |x: RecordV<T>| x.vector),
{
    let ghost all = records.deep_view();
    let ghost f = |x: RecordV<T>| x.vector;
    let mut keys: Vec<String> = Vec::new();
    let mut triples: Vec<String> = Vec::new();
    let mut sources: Vec<String> = Vec::new();
    let mut targets: Vec<String> = Vec::new();
    let mut item_ids: Vec<String> = Vec::new();
    let mut seqs: Vec<u32> = Vec::new();
    let mut texts: Vec<String> = Vec::new();
    let mut values: Vec<T> = Vec::new();
    assert(values@ =~= flattened(all.take(0), f));
    for i in 0..records.len()
        invariant
            all == records.deep_view(),
            f == (|x: RecordV<T>| x.vector),
            keys@.len() == i,
            triples@.len() == i,
            sources@.len() == i,
            targets@.len() == i,
            item_ids@.len() == i,
            seqs@.len() == i,
            texts@.len() == i,
            forall|k: int| 0 <= k < i ==> (#[trigger] keys@[k])@ == key_of(all[k]),
            forall|k: int| 0 <= k < i ==> (#[trigger] triples@[k])@ == triple_of(all[k]),
            forall|k: int| 0 <= k < i ==> (#[trigger] sources@[k])@ == all[k].source,
            forall|k: int| 0 <= k < i ==> (#[trigger] targets@[k])@ == all[k].target,
            forall|k: int| 0 <= k < i ==> (#[trigger] item_ids@[k])@ == all[k].item_id,
            forall|k: int| 0 <= k < i ==> #[trigger] seqs@[k] == records@[k].seq as u32,
            forall|k: int| 0 <= k < i ==> (#[trigger] texts@[k])@ == all[k].text,
            values@ == flattened(all.take(i as int), f),
    {
        proof {
            lemma_flattened_step(all, f, i as int);
        }
        let x = &records[i];
        assert(all[i as int] == x.deep_view());
        keys.push(x.key());
        triples.push(x.triple());
        sources.push(x.source.clone());
        targets.push(x.target.clone());
        item_ids.push(x.item_id.clone());
        seqs.push(#[verifier::truncate] (x.seq as u32));
        texts.push(x.text.clone());
        let ghost before = values@;
        assert(before + x.vector@.take(0) =~= before);
        for n in 0..x.vector.len()
            invariant
                values@ == before + x.vector@.take(n as int),
        {
            let ghost now = values@;
            values.push(x.vector[n]);
            assert(x.vector@.take(n + 1) =~= x.vector@.take(n as int).push(x.vector@[n as int]));
            assert(values@ =~= before + x.vector@.take(n + 1));
        }
        assert(x.vector@.take(x.vector@.len() as int) =~= x.vector@);
    }
    assert(all.take(all.len() as int) =~= all);
    assert(keys.deep_view() =~= all.map_values(|x: RecordV<T>| key_of(x)));
    assert(triples.deep_view() =~= all.map_values(|x: RecordV<T>| triple_of(x)));
    assert(sources.deep_view() =~= all.map_values(|x: RecordV<T>| x.source));
    assert(targets.deep_view() =~= all.map_values(|x: RecordV<T>| x.target));
    assert(item_ids.deep_view() =~= all.map_values(|x: RecordV<T>| x.item_id));
    assert(seqs@ =~= records@.map_values(|x: VectorRecord<T>| x.seq as u32));
    assert(texts.deep_view() =~= all.map_values(|x: RecordV<T>| x.text));
    Columns { keys, triples, sources, targets, item_ids, seqs, texts, values }
}

// ---------------------------------------------------------------------------
// Point ids
// ---------------------------------------------------------------------------

/// The id of the point of a key: the first 16 bytes of its digest, grouped like
/// a UUID.
pub open spec fn point_id(key: Seq<char>) -> Seq<char> {
    let d = blake3_digest(key);
    hex_text(d.subrange(0, 4)) + "-"@ + hex_text(d.subrange(4, 6)) + "-"@ + hex_text(
        d.subrange(6, 8),
    ) + "-"@ + hex_text(d.subrange(8, 10)) + "-"@ + hex_text(d.subrange(10, 16))
}

fn hex_range(d: &Vec<u8>, from: usize, to: usize) -> (r: String)
    requires
        from <= to <= d@.len(),
    ensures
        r@ == hex_text(d@.subrange(from as int, to as int)),
{
    let mut part: Vec<u8> = Vec::new();
    let mut i: usize = from;
    while i < to
        invariant
            from <= i <= to <= d@.len(),
            part@ == d@.subrange(from as int, i as int),
        decreases to - i,
    {
        part.push(d[i]);
        i = i + 1;
        assert(part@ =~= d@.subrange(from as int, i as int));
    }
    hex_of(&part)
}

/// Deterministic id from a chunk key, so that the same chunk always maps to the
/// same point.
pub fn uuid_from_key(key: &str) -> (r: String)
    ensures
        r@ == point_id(key@),
{
    let d = digest(key);
    let mut s = hex_range(&d, 0, 4);
    s.append("-");
    s.append(hex_range(&d, 4, 6).as_str());
    s.append("-");
    s.append(hex_range(&d, 6, 8).as_str());
    s.append("-");
    s.append(hex_range(&d, 8, 10).as_str());
    s.append("-");
    s.append(hex_range(&d, 10, 16).as_str());
    s
}

} // verus!
