//! The vector build pipeline: chunk, embed, upsert.

use crate::artifact::{Artifact, ArtifactV};
use crate::text::{decimal, decimal_usize};
use crate::vector::chunk::{artifact_chunks, chunk_artifact, Chunk, ChunkConfig, ChunkV};
use crate::vector::error::VectorError;
use crate::vector::record::{RecordV, VectorRecord};
use vstd::prelude::*;

verus! {

/// What a build produced.
#[derive(Debug, Clone, Copy, PartialEq, Eq, Structural)]
pub struct BuildSummary {
    pub items: usize,
    pub chunks: usize,
    pub dim: usize,
}

/// Wires an embedder and a store into a pipeline.
pub struct VectorPipeline<E, S> {
    embedder: E,
    store: S,
    chunk: ChunkConfig,
}

/// What a build needs next.
pub enum PipelineStep {
    /// It is done, without anything to embed.
    Done(Result<BuildSummary, VectorError>),
    /// The texts of these chunks are to be embedded.
    Embed { chunks: Vec<Chunk>, texts: Vec<String> },
}

/// The texts of chunks.
pub open spec fn texts_of_chunks(chunks: Seq<ChunkV>) -> Seq<Seq<char>> {
    chunks.map_values(|c: ChunkV| c.text)
}

/// The record of a chunk with its vector.
pub open spec fn record_of<T>(a: ArtifactV, c: ChunkV, vector: Seq<T>) -> RecordV<T> {
    RecordV {
        source: a.source,
        target: a.target,
        item_id: c.item_id,
        seq: c.seq as nat,
        text: c.text,
        vector,
    }
}

/// The records of chunks with their vectors.
pub open spec fn records_of<T>(a: ArtifactV, chunks: Seq<ChunkV>, vectors: Seq<Seq<T>>) -> Seq<
    RecordV<T>,
> {
    Seq::new(chunks.len(), |i: int| record_of(a, chunks[i], vectors[i]))
}

/// The error of an embedder that returned another number of vectors than asked
/// for.
pub open spec fn mismatch_text(vectors: nat, chunks: nat) -> Seq<char> {
    "embedder returned "@ + decimal(vectors) + " vectors for "@ + decimal(chunks) + " chunks"@
}

/// The model of a list of vectors.
pub open spec fn vector_views<T>(vectors: Seq<Vec<T>>) -> Seq<Seq<T>> {
    vectors.map_values(|v: Vec<T>| v@)
}

impl<E, S> VectorPipeline<E, S> {
    pub closed spec fn config(&self) -> ChunkConfig {
        self.chunk
    }

    pub closed spec fn parts(&self) -> (E, S) {
        (self.embedder, self.store)
    }

    /// A pipeline with the default chunking.
    pub fn new(embedder: E, store: S) -> (r: VectorPipeline<E, S>)
        ensures
            r.parts() == (embedder, store),
            r.config().max_chars == 2000,
            r.config().overlap == 200,
    {
        VectorPipeline { embedder, store, chunk: ChunkConfig::default() }
    }

    /// Override the chunking configuration.
    pub fn with_chunk_config(self, chunk: ChunkConfig) -> (r: VectorPipeline<E, S>)
        ensures
            r.config() == chunk,
            r.parts() == self.parts(),
    {
        VectorPipeline { embedder: self.embedder, store: self.store, chunk }
    }

    pub fn embedder(&self) -> (r: &E)
        ensures
            *r == self.parts().0,
    {
        &self.embedder
    }

    pub fn store(&self) -> (r: &S)
        ensures
            *r == self.parts().1,
    {
        &self.store
    }

    /// The first part of a build: chunk the artifact. A cancelled build ends
    /// here, and so does one without chunks; `dim` is the embedder's width.
    pub fn build(&self, artifact: &Artifact, cancelled: bool, dim: usize) -> (r: PipelineStep)
        ensures
            ({
                let chunks = artifact_chunks(artifact.deep_view(), self.config());
                if cancelled {
                    r matches PipelineStep::Done(Err(VectorError::Cancelled))
                } else if chunks.len() == 0 {
                    r == PipelineStep::Done(
                        Ok(BuildSummary { items: 0, chunks: 0, dim }),
                    )
                } else {
                    r matches PipelineStep::Embed { chunks: c, texts: t } && c.deep_view()
                        == chunks && t.deep_view() == texts_of_chunks(chunks)
                }
            }),
    {
        let chunks = chunk_artifact(artifact, self.chunk);
        assert(chunks.deep_view().len() == chunks@.len());
        if cancelled {
            return PipelineStep::Done(Err(VectorError::Cancelled));
        }
        if chunks.len() == 0 {
            return PipelineStep::Done(Ok(BuildSummary { items: 0, chunks: 0, dim }));
        }
        let mut texts: Vec<String> = Vec::new();
        for i in 0..chunks.len()
            invariant
                texts@.len() == i,
                forall|k: int| 0 <= k < i ==> (#[trigger] texts@[k]) == chunks@[k].text,
        {
            texts.push(chunks[i].text.clone());
        }
        assert(texts.deep_view() =~= texts_of_chunks(chunks.deep_view()));
        PipelineStep::Embed { chunks, texts }
    }

    /// The second part of a build: pair the chunks with their vectors. Fails when
    /// their numbers differ, and when the build was cancelled meanwhile.
    pub fn pair_records<T>(
        &self,
        artifact: &Artifact,
        chunks: Vec<Chunk>,
        vectors: Vec<Vec<T>>,
        cancelled: bool,
        dim: usize,
    ) -> (r: Result<(Vec<VectorRecord<T>>, BuildSummary), VectorError>)
        ensures
            if vectors@.len() != chunks@.len() {
                r matches Err(VectorError::Embed(s)) && s@ == mismatch_text(
                    vectors@.len(),
                    chunks@.len(),
                )
            } else if cancelled {
                r matches Err(VectorError::Cancelled)
            } else {
                r matches Ok((records, summary)) && records.deep_view() == records_of(
                    artifact.deep_view(),
                    chunks.deep_view(),
                    vector_views(vectors@),
                ) && summary == (BuildSummary {
                    items: artifact.items.len(),
                    chunks: chunks.len(),
                    dim,
                })
            },
    {
        if vectors.len() != chunks.len() {
            let mut s = "embedder returned ".to_owned();
            s.append(decimal_usize(vectors.len()).as_str());
            s.append(" vectors for ");
            s.append(decimal_usize(chunks.len()).as_str());
            s.append(" chunks");
            return Err(VectorError::Embed(s));
        }
        if cancelled {
            return Err(VectorError::Cancelled);
        }
        let summary = BuildSummary { items: artifact.items.len(), chunks: chunks.len(), dim };
        let ghost goal = records_of(
            artifact.deep_view(),
            chunks.deep_view(),
            vector_views(vectors@),
        );
        let ghost given = vectors@;
        let mut records: Vec<VectorRecord<T>> = Vec::new();
        for vector in it: vectors
            invariant
                it.seq() == given,
                given.len() == chunks@.len(),
                goal == records_of(
                    artifact.deep_view(),
                    chunks.deep_view(),
                    vector_views(given),
                ),
                records@.len() == it.index(),
                forall|k: int|
                    0 <= k < records@.len() ==> (#[trigger] records@[k]).deep_view() == goal[k],
        {
            let i: usize = records.len();
            let c = &chunks[i];
            assert(chunks.deep_view()[i as int] == c.deep_view());
            let record = VectorRecord {
                source: artifact.source.clone(),
                target: artifact.target.clone(),
                item_id: c.item_id.clone(),
                seq: c.seq,
                text: c.text.clone(),
                vector,
            };
            assert(record.deep_view() == goal[i as int]);
            records.push(record);
        }
        assert(records.deep_view() =~= goal);
        Ok((records, summary))
    }
}

} // verus!
