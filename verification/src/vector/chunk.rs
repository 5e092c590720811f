//! Splitting items into embedding-sized chunks.
//!
//! Chunking is deterministic: the same item always yields the same chunks, so
//! re-embedding an unchanged item produces identical records.

use crate::artifact::{Artifact, ArtifactV, Item, ItemV};
use crate::collect::{flattened, lemma_flattened_step};
use crate::text::{chars_of, slice_text};
use vstd::prelude::*;

verus! {

/// A single embedding-sized slice of an item's text.
#[derive(Debug, Clone, PartialEq, Eq)]
pub struct Chunk {
    /// The id of the item it belongs to.
    pub item_id: String,
    /// 0-based index of this chunk within the item.
    pub seq: usize,
    pub text: String,
}

/// The model of a [`Chunk`].
pub struct ChunkV {
    pub item_id: Seq<char>,
    pub seq: int,
    pub text: Seq<char>,
}

impl DeepView for Chunk {
    type V = ChunkV;

    open spec fn deep_view(&self) -> ChunkV {
        ChunkV { item_id: self.item_id@, seq: self.seq as int, text: self.text@ }
    }
}

/// Chunking parameters, in characters.
#[derive(Debug, Clone, Copy)]
pub struct ChunkConfig {
    /// Maximum characters per chunk.
    pub max_chars: usize,
    /// Characters of overlap carried from the end of one chunk into the next.
    pub overlap: usize,
}

impl Default for ChunkConfig {
    fn default() -> (r: ChunkConfig)
        ensures
            r.max_chars == 2000,
            r.overlap == 200,
    {
        ChunkConfig { max_chars: 2000, overlap: 200 }
    }
}

/// How far a chunk starts behind the one before it: at least one character, so
/// that chunking always advances.
pub open spec fn step_of(cfg: ChunkConfig) -> int {
    if cfg.max_chars > cfg.overlap {
        cfg.max_chars - cfg.overlap
    } else {
        1
    }
}

impl ChunkConfig {
    fn step(&self) -> (r: usize)
        ensures
            r == step_of(*self),
    {
        if self.max_chars > self.overlap {
            self.max_chars - self.overlap
        } else {
            1
        }
    }
}

/// Where a chunk that starts at `start` ends.
pub open spec fn chunk_end(len: int, start: int, cfg: ChunkConfig) -> int {
    if start + cfg.max_chars <= len {
        start + cfg.max_chars
    } else {
        len
    }
}

/// The chunks of `body` from `start` on.
pub open spec fn chunks_from(body: Seq<char>, start: int, cfg: ChunkConfig) -> Seq<Seq<char>>
    decreases body.len() - start,
{
    if start < 0 || start >= body.len() {
        Seq::empty()
    } else {
        let end = chunk_end(body.len() as int, start, cfg);
        seq![body.subrange(start, end)] + (if end == body.len() {
            Seq::empty()
        } else {
            chunks_from(body, start + step_of(cfg), cfg)
        })
    }
}

/// The texts that a body is split into; an empty body is one empty text.
pub open spec fn chunk_texts(body: Seq<char>, cfg: ChunkConfig) -> Seq<Seq<char>> {
    if body.len() == 0 {
        seq![Seq::empty()]
    } else {
        chunks_from(body, 0, cfg)
    }
}

/// The text of an item that is embedded: its title, if it has one, and its body.
pub open spec fn body_of(item: ItemV) -> Seq<char> {
    match item.title {
        Some(t) => if t.len() > 0 {
            t + "\n\n"@ + item.text
        } else {
            item.text
        },
        None => item.text,
    }
}

/// The chunks of an item, numbered from 0.
pub open spec fn chunks_of(item: ItemV, cfg: ChunkConfig) -> Seq<ChunkV> {
    let texts = chunk_texts(body_of(item), cfg);
    Seq::new(texts.len(), |i: int| ChunkV { item_id: item.id, seq: i, text: texts[i] })
}

/// The chunks of an artifact, item by item.
pub open spec fn artifact_chunks(a: ArtifactV, cfg: ChunkConfig) -> Seq<ChunkV> {
    flattened(a.items, |it: ItemV| chunks_of(it, cfg))
}

fn render_item(item: &Item) -> (r: String)
    ensures
        r@ == body_of(item.deep_view()),
{
    match &item.title {
        Some(t) => if chars_of(t.as_str()).len() > 0 {
            let mut s = t.clone();
            s.append("\n\n");
            s.append(item.text.as_str());
            s
        } else {
            item.text.clone()
        },
        None => item.text.clone(),
    }
}

/// Chunk one item. An item with empty text yields a single empty chunk, so it
/// still has a presence (and a stable key) in the store.
pub fn chunk_item(item: &Item, cfg: ChunkConfig) -> (r: Vec<Chunk>)
    ensures
        r.deep_view() == chunks_of(item.deep_view(), cfg),
{
    let body = render_item(item);
    let chars = chars_of(body.as_str());
    let ghost goal = chunk_texts(body@, cfg);
    let mut chunks: Vec<Chunk> = Vec::new();
    if chars.len() == 0 {
        chunks.push(Chunk { item_id: item.id.clone(), seq: 0, text: String::new() });
        assert(chunks.deep_view() =~= chunks_of(item.deep_view(), cfg));
        return chunks;
    }
    let mut start: usize = 0;
    let mut more = true;
    let step: usize = cfg.step();
    while more && start < chars.len()
        invariant
            chars@ == body@,
            chars@.len() > 0,
            step == step_of(cfg),
            goal == chunks_from(body@, 0, cfg),
            start <= chars.len(),
            chunks@.len() <= goal.len(),
            forall|k: int|
                0 <= k < chunks@.len() ==> (#[trigger] chunks@[k]).deep_view() == (ChunkV {
                    item_id: item.id@,
                    seq: k,
                    text: goal[k],
                }),
            more ==> goal.skip(chunks@.len() as int) == chunks_from(body@, start as int, cfg),
            !more ==> chunks@.len() == goal.len(),
        decreases (if more { 1int } else { 0int }), chars@.len() - start,
    {
        let end: usize = if cfg.max_chars <= chars.len() - start {
            start + cfg.max_chars
        } else {
            chars.len()
        };
        let text = slice_text(&chars, start, end);
        proof {
            let n = chunks@.len() as int;
            assert(goal.skip(n).len() > 0);
            assert(goal.skip(n)[0] == goal[n]);
            assert(goal.skip(n + 1) =~= goal.skip(n).drop_first());
            assert(text@ == body@.subrange(start as int, end as int));
            let rest = if end == body@.len() {
                Seq::<Seq<char>>::empty()
            } else {
                chunks_from(body@, start + step, cfg)
            };
            assert(goal.skip(n) == seq![text@] + rest);
            assert(goal.skip(n).drop_first() =~= rest);
            if end == body@.len() {
                assert(goal.skip(n).len() == 1);
            }
        }
        let seq: usize = chunks.len();
        chunks.push(Chunk { item_id: item.id.clone(), seq, text });
        if end == chars.len() {
            more = false;
        } else {
            start = start + step;
        }
    }
    proof {
        if more {
            assert(goal.skip(chunks@.len() as int).len() == 0);
        }
        assert(chunks.deep_view() =~= chunks_of(item.deep_view(), cfg));
    }
    chunks
}

/// Chunk every item in an artifact, in item order.
pub fn chunk_artifact(artifact: &Artifact, cfg: ChunkConfig) -> (r: Vec<Chunk>)
    ensures
        r.deep_view() == artifact_chunks(artifact.deep_view(), cfg),
{
    let ghost all = artifact.deep_view().items;
    let ghost f = |it: ItemV| chunks_of(it, cfg);
    let mut out: Vec<Chunk> = Vec::new();
    assert(out.deep_view() =~= flattened(all.take(0), f));
    for i in 0..artifact.items.len()
        invariant
            all == artifact.items.deep_view(),
            f == (|it: ItemV| chunks_of(it, cfg)),
            out.deep_view() == flattened(all.take(i as int), f),
    {
        proof {
            lemma_flattened_step(all, f, i as int);
        }
        assert(all[i as int] == artifact.items@[i as int].deep_view());
        let ghost before = out.deep_view();
        let mut more = chunk_item(&artifact.items[i], cfg);
        let ghost added = more.deep_view();
        out.append(&mut more);
        assert(out.deep_view() =~= before + added);
    }
    assert(all.take(all.len() as int) =~= all);
    out
}


// ---------------------------------------------------------------------------
// Laws
// ---------------------------------------------------------------------------

proof fn lemma_chunk_at(body: Seq<char>, start: int, cfg: ChunkConfig, k: int)
    requires
        0 <= start,
        0 <= k < chunks_from(body, start, cfg).len(),
    ensures
        start + k * step_of(cfg) < body.len(),
        chunks_from(body, start, cfg)[k] == body.subrange(
            start + k * step_of(cfg),
            chunk_end(body.len() as int, start + k * step_of(cfg), cfg),
        ),
    decreases k,
{
    let step = step_of(cfg);
    if k > 0 {
        lemma_chunk_at(body, start + step, cfg, k - 1);
        assert(start + step + (k - 1) * step == start + k * step) by (nonlinear_arith);
        assert(chunks_from(body, start, cfg)[k] == chunks_from(body, start + step, cfg)[k - 1]);
    } else {
        assert(k * step == 0) by (nonlinear_arith)
            requires
                k == 0,
        ;
    }
}

/// The chunk number `k` starts `k` steps into the text and holds at most the
/// maximum of characters.
pub proof fn law_chunks_stand_in_steps(body: Seq<char>, cfg: ChunkConfig, k: int)
    requires
        body.len() > 0,
        0 <= k < chunk_texts(body, cfg).len(),
    ensures
        k * step_of(cfg) < body.len(),
        chunk_texts(body, cfg)[k] == body.subrange(
            k * step_of(cfg),
            chunk_end(body.len() as int, k * step_of(cfg), cfg),
        ),
        chunk_texts(body, cfg)[k].len() <= cfg.max_chars,
{
    lemma_chunk_at(body, 0, cfg, k);
    assert(0 <= k * step_of(cfg)) by (nonlinear_arith)
        requires
            0 <= k,
            1 <= step_of(cfg),
    ;
}

proof fn lemma_covered(body: Seq<char>, start: int, cfg: ChunkConfig, p: int) -> (k: int)
    requires
        0 <= start <= p < body.len(),
        cfg.max_chars > 0,
    ensures
        0 <= k < chunks_from(body, start, cfg).len(),
        start + k * step_of(cfg) <= p < chunk_end(
            body.len() as int,
            start + k * step_of(cfg),
            cfg,
        ),
    decreases body.len() - start,
{
    let step = step_of(cfg);
    let end = chunk_end(body.len() as int, start, cfg);
    assert(0 * step == 0) by (nonlinear_arith);
    if p < end {
        0
    } else {
        let j = lemma_covered(body, start + step, cfg, p);
        assert(start + step + j * step == start + (j + 1) * step) by (nonlinear_arith);
        j + 1
    }
}

/// Nothing is left out: every character of the text stands in some chunk.
pub proof fn law_chunks_cover(body: Seq<char>, cfg: ChunkConfig, p: int)
    requires
        0 <= p < body.len(),
        cfg.max_chars > 0,
    ensures
        exists|k: int|
            0 <= k < chunk_texts(body, cfg).len() && #[trigger] (k * step_of(cfg)) <= p
                < chunk_end(body.len() as int, k * step_of(cfg), cfg),
{
    let k = lemma_covered(body, 0, cfg, p);
    assert(k * step_of(cfg) <= p);
}

/// Every item has a chunk, so that it has a presence in the store.
pub proof fn law_every_item_has_a_chunk(item: ItemV, cfg: ChunkConfig)
    ensures
        chunks_of(item, cfg).len() > 0,
{
}

} // verus!
