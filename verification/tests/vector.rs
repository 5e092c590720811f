//! The vector builder.

use ncrawler::artifact::{Artifact, Item, ItemKind};
use ncrawler::time::Timestamp;
use ncrawler::vector::backend::{
    check_width, columns, plan_upsert, triple_in_predicate, uuid_from_key, TableUpsert,
};
use ncrawler::vector::chunk::{chunk_artifact, chunk_item, ChunkConfig};
use ncrawler::vector::embed::HashEmbedder;
use ncrawler::vector::error::VectorError;
use ncrawler::vector::memory::MemoryStore;
use ncrawler::vector::pipeline::{BuildSummary, PipelineStep, VectorPipeline};
use ncrawler::vector::record::{distinct_triples, record_key, triple_key, VectorRecord};
use ncrawler::vector::uri::{StoreUri, DEFAULT_STORE_URI};

fn entry(id: &str, title: Option<&str>, text: &str) -> Item {
    Item {
        id: id.into(),
        kind: ItemKind::Panel,
        title: title.map(Into::into),
        text: text.into(),
        data: None,
        tags: vec![],
    }
}

// Chunks

#[test]
fn short_item_is_one_chunk_with_title_prefixed() {
    let chunks = chunk_item(
        &entry("p1", Some("CPU"), "usage high"),
        ChunkConfig::default(),
    );
    assert_eq!(chunks.len(), 1);
    assert_eq!(chunks[0].seq, 0);
    assert_eq!(chunks[0].item_id, "p1");
    assert!(chunks[0].text.starts_with("CPU"));
    assert!(chunks[0].text.contains("usage high"));
}

#[test]
fn empty_item_still_yields_one_chunk() {
    let chunks = chunk_item(&entry("p1", None, ""), ChunkConfig::default());
    assert_eq!(chunks.len(), 1);
    assert_eq!(chunks[0].text, "");
}

#[test]
fn long_item_splits_with_overlap_and_is_deterministic() {
    let body: String = "x".repeat(50);
    let cfg = ChunkConfig {
        max_chars: 20,
        overlap: 5,
    };
    let it = entry("p1", None, &body);
    let a = chunk_item(&it, cfg);
    let b = chunk_item(&it, cfg);
    assert_eq!(a, b, "chunking must be deterministic");
    assert!(a.len() > 1);
    // seqs are contiguous from 0.
    for (i, c) in a.iter().enumerate() {
        assert_eq!(c.seq, i);
    }
    // step = max_chars - overlap = 15; chunk 1 starts at char 15.
    assert_eq!(a[0].text.len(), 20);
}

#[test]
fn multibyte_text_never_panics() {
    let body: String = "é".repeat(40);
    let cfg = ChunkConfig {
        max_chars: 10,
        overlap: 2,
    };
    let chunks = chunk_item(&entry("p1", None, &body), cfg);
    assert!(chunks.iter().all(|c| !c.text.is_empty()));
}

#[test]
fn chunks_step_by_the_width_less_the_overlap() {
    let cfg = ChunkConfig {
        max_chars: 4,
        overlap: 1,
    };
    let texts: Vec<String> = chunk_item(&entry("p", None, "abcdefghij"), cfg)
        .into_iter()
        .map(|c| c.text)
        .collect();
    assert_eq!(texts, vec!["abcd", "defg", "ghij"]);
    // An overlap as wide as the chunk still steps on.
    let cfg = ChunkConfig {
        max_chars: 2,
        overlap: 9,
    };
    let texts: Vec<String> = chunk_item(&entry("p", None, "abcd"), cfg)
        .into_iter()
        .map(|c| c.text)
        .collect();
    assert_eq!(texts, vec!["ab", "bc", "cd"]);
}

#[test]
fn an_artifact_is_chunked_item_by_item() {
    let art = artifact(vec![entry("a", None, "abcde"), entry("b", Some("T"), "x")]);
    let cfg = ChunkConfig {
        max_chars: 3,
        overlap: 0,
    };
    let got: Vec<(String, usize)> = chunk_artifact(&art, cfg)
        .into_iter()
        .map(|c| (c.item_id, c.seq))
        .collect();
    assert_eq!(got[0], ("a".to_string(), 0));
    assert_eq!(got[1], ("a".to_string(), 1));
    assert_eq!(got[2], ("b".to_string(), 0));
}

// Embedding

/// Word counts as a unit vector.
fn embed(embedder: &HashEmbedder, texts: &[String]) -> Vec<Vec<f32>> {
    texts
        .iter()
        .map(|t| {
            let counts = embedder.bucket_counts(t);
            let norm = counts.iter().map(|c| (c * c) as f32).sum::<f32>().sqrt();
            counts
                .iter()
                .map(|c| if norm > 0.0 { *c as f32 / norm } else { 0.0 })
                .collect()
        })
        .collect()
}

#[test]
fn hash_embedder_is_deterministic_and_normalised() {
    let e = HashEmbedder::new(32);
    let a = embed(&e, &["cpu usage high".into()]);
    let b = embed(&e, &["cpu usage high".into()]);
    assert_eq!(a, b);
    assert_eq!(a[0].len(), 32);
    let norm: f32 = a[0].iter().map(|x| x * x).sum::<f32>().sqrt();
    assert!((norm - 1.0).abs() < 1e-5);
}

#[test]
fn batch_returns_one_vector_per_input() {
    let e = HashEmbedder::new(16);
    let out = embed(&e, &["a".into(), "b".into(), "c".into()]);
    assert_eq!(out.len(), 3);
    assert!(out.iter().all(|v| v.len() == 16));
}

#[test]
fn words_are_counted_in_their_bucket() {
    let e = HashEmbedder::new(7);
    let text = "CPU  cpu\tload\u{a0}CPU";
    let mut want = vec![0usize; 7];
    for word in ["cpu", "cpu", "load", "cpu"] {
        let hash = blake3::hash(word.as_bytes());
        let bytes = hash.as_bytes();
        let n = u32::from_le_bytes([bytes[0], bytes[1], bytes[2], bytes[3]]);
        want[n as usize % 7] += 1;
    }
    assert_eq!(e.bucket_counts(text), want);
    assert_eq!(e.bucket_counts(" \n"), vec![0; 7]);
    assert_eq!(HashEmbedder::new(0).dim(), 1);
    assert_eq!(HashEmbedder::default().dim(), 64);
}

#[test]
fn bucket_counts_depend_on_the_words_alone() {
    let e = HashEmbedder::new(7);
    let counts = e.bucket_counts("cpu load High");
    assert_eq!(e.bucket_counts("  HIGH\n\ncpu\u{a0}Load "), counts);
    assert_eq!(e.clone().bucket_counts("load cpu high"), counts);
    assert_eq!(counts.iter().sum::<usize>(), 3);
}

#[test]
fn only_blank_texts_count_nothing() {
    let e = HashEmbedder::new(5);
    for text in ["", " ", "\u{a0}\n\t"] {
        assert!(e.bucket_counts(text).iter().all(|c| *c == 0));
    }
    assert!(e.bucket_counts(" \u{200b}\n").iter().any(|c| *c > 0));
}

// The in-memory store

fn rec(item_id: &str, seq: usize, text: &str) -> VectorRecord<f32> {
    VectorRecord {
        source: "grafana".into(),
        target: "abc123".into(),
        item_id: item_id.into(),
        seq,
        text: text.into(),
        vector: vec![0.1, 0.2, 0.3],
    }
}

#[test]
fn upsert_is_idempotent_on_repeat() {
    let mut s = MemoryStore::new();
    let batch = vec![rec("panel-1", 0, "a"), rec("panel-1", 1, "b")];
    s.upsert(&batch);
    s.upsert(&batch);
    assert_eq!(s.count(), 2, "re-upsert must not duplicate");
}

#[test]
fn rescrape_overwrites_content_for_same_triple() {
    let mut s = MemoryStore::new();
    s.upsert(&vec![rec("panel-1", 0, "old")]);
    s.upsert(&vec![rec("panel-1", 0, "new")]);
    let rows = s.rows();
    assert_eq!(rows.len(), 1);
    assert_eq!(rows[0].text, "new");
}

#[test]
fn rescrape_with_fewer_chunks_drops_stale() {
    let mut s = MemoryStore::new();
    s.upsert(&vec![
        rec("panel-1", 0, "a"),
        rec("panel-1", 1, "b"),
        rec("panel-1", 2, "c"),
    ]);
    assert_eq!(s.count(), 3);
    // Re-scrape now only yields one chunk for the same panel.
    s.upsert(&vec![rec("panel-1", 0, "a-merged")]);
    assert_eq!(s.count(), 1, "stale chunks must be removed");
}

#[test]
fn distinct_triples_are_independent() {
    let mut s = MemoryStore::new();
    s.upsert(&vec![rec("panel-1", 0, "a"), rec("panel-2", 0, "b")]);
    // Re-scrape panel-1 only; panel-2 must survive untouched.
    s.upsert(&vec![rec("panel-1", 0, "a2")]);
    assert_eq!(s.count(), 2);
}

#[test]
fn rows_come_in_key_order_and_the_last_of_a_key_stays() {
    let mut s = MemoryStore::new();
    s.upsert(&vec![
        rec("b", 0, "b0"),
        rec("a", 0, "first"),
        rec("a", 0, "second"),
    ]);
    let texts: Vec<String> = s.rows().into_iter().map(|r| r.text).collect();
    assert_eq!(texts, vec!["second", "b0"]);
}

#[test]
fn keys_tell_records_apart() {
    assert_eq!(triple_key("s", "t", "i"), "s\u{1f}t\u{1f}i");
    assert_eq!(record_key("s", "t", "i", 10), "s\u{1f}t\u{1f}i\u{1f}10");
    let r = rec("i", 3, "x");
    assert_eq!(r.triple(), triple_key("grafana", "abc123", "i"));
    assert_eq!(r.key(), record_key("grafana", "abc123", "i", 3));
    let batch = vec![rec("b", 0, ""), rec("a", 0, ""), rec("b", 1, "")];
    assert_eq!(
        distinct_triples(&batch),
        vec![
            triple_key("grafana", "abc123", "b"),
            triple_key("grafana", "abc123", "a")
        ]
    );
}

// The pipeline

fn artifact(items: Vec<Item>) -> Artifact {
    let mut a = Artifact::new("grafana", "abc123", Timestamp::new(0, 0).unwrap());
    a.items = items;
    a
}

fn panel(id: &str, text: &str) -> Item {
    entry(id, Some(id), text)
}

/// A build, with its records written to `store`.
fn run(
    pipeline: &VectorPipeline<HashEmbedder, ()>,
    store: &mut MemoryStore<f32>,
    artifact: &Artifact,
) -> BuildSummary {
    let dim: usize = pipeline.embedder().dim();
    match pipeline.build(artifact, false, dim) {
        PipelineStep::Done(summary) => summary.unwrap(),
        PipelineStep::Embed { chunks, texts } => {
            let vectors = embed(pipeline.embedder(), &texts);
            let (records, summary) = pipeline
                .pair_records(artifact, chunks, vectors, false, dim)
                .unwrap();
            store.upsert(&records);
            summary
        }
    }
}

#[test]
fn build_then_rebuild_same_target_is_idempotent() {
    let pipeline = VectorPipeline::new(HashEmbedder::new(16), ());
    let mut store = MemoryStore::new();
    let art = artifact(vec![
        panel("panel-1", "cpu high"),
        panel("panel-2", "mem ok"),
    ]);

    let s1 = run(&pipeline, &mut store, &art);
    let count1 = store.count();
    let s2 = run(&pipeline, &mut store, &art);
    let count2 = store.count();

    assert_eq!(s1, s2);
    assert_eq!(
        count1, count2,
        "re-build of same target must not grow the store"
    );
    assert_eq!(s1.items, 2);
}

#[test]
fn empty_artifact_builds_nothing() {
    let pipeline = VectorPipeline::new(HashEmbedder::new(8), ());
    let mut store = MemoryStore::new();
    let summary = run(&pipeline, &mut store, &artifact(vec![]));
    assert_eq!(summary.chunks, 0);
    assert_eq!(store.count(), 0);
}

#[test]
fn a_cancelled_build_stops() {
    let pipeline = VectorPipeline::new((), ()).with_chunk_config(ChunkConfig {
        max_chars: 2,
        overlap: 0,
    });
    let art = artifact(vec![panel("p", "abc")]);
    assert!(matches!(
        pipeline.build(&art, true, 3),
        PipelineStep::Done(Err(VectorError::Cancelled))
    ));
    let PipelineStep::Embed { chunks, texts } = pipeline.build(&art, false, 3) else {
        panic!("expected chunks");
    };
    assert_eq!(chunks.len(), texts.len());
    let vectors: Vec<Vec<u8>> = texts.iter().map(|_| vec![0; 3]).collect();
    assert!(matches!(
        pipeline.pair_records(&art, chunks, vectors, true, 3),
        Err(VectorError::Cancelled)
    ));
}

#[test]
fn an_embedder_must_answer_every_text() {
    let pipeline = VectorPipeline::new((), ());
    let art = artifact(vec![panel("p", "abc")]);
    let PipelineStep::Embed { chunks, .. } = pipeline.build(&art, false, 3) else {
        panic!("expected chunks");
    };
    let vectors: Vec<Vec<u8>> = vec![];
    assert!(matches!(
        pipeline.pair_records(&art, chunks, vectors, false, 3),
        Err(VectorError::Embed(_))
    ));
}

// Store addresses

#[test]
fn default_uri_is_lance_dir() {
    assert_eq!(
        StoreUri::parse("").unwrap(),
        StoreUri::Lance {
            path: "./vec".into()
        }
    );
    assert_eq!(
        StoreUri::parse(DEFAULT_STORE_URI).unwrap(),
        StoreUri::parse("").unwrap()
    );
}

#[test]
fn lance_path_is_preserved() {
    assert_eq!(
        StoreUri::parse("lance:///abs/path").unwrap(),
        StoreUri::Lance {
            path: "/abs/path".into()
        }
    );
}

#[test]
fn qdrant_with_and_without_collection() {
    assert_eq!(
        StoreUri::parse("qdrant://localhost:6334/panels").unwrap(),
        StoreUri::Qdrant {
            url: "http://localhost:6334".into(),
            collection: "panels".into()
        }
    );
    assert_eq!(
        StoreUri::parse("qdrant://localhost:6334").unwrap(),
        StoreUri::Qdrant {
            url: "http://localhost:6334".into(),
            collection: "ncrawler".into()
        }
    );
}

#[test]
fn unknown_scheme_is_rejected() {
    assert!(StoreUri::parse("redis://x").is_err());
    assert!(StoreUri::parse("lance://").is_err());
}

// Database backends

#[test]
fn vectors_of_another_width_are_refused() {
    assert!(check_width(&vec![rec("a", 0, "")], 3).is_ok());
    assert!(matches!(
        check_width(&vec![rec("a", 0, "")], 4),
        Err(VectorError::Store(s)) if s == "vector width 3 != store dim 4"
    ));
    assert!(check_width(&Vec::<VectorRecord<f32>>::new(), 4).is_ok());
}

#[test]
fn an_upsert_replaces_the_groups_of_its_batch() {
    let empty: Vec<VectorRecord<f32>> = vec![];
    assert!(matches!(
        plan_upsert(&empty, 3, true),
        Ok(TableUpsert::Nothing)
    ));
    let batch = vec![rec("it's", 0, "")];
    assert!(matches!(
        plan_upsert(&batch, 3, false),
        Ok(TableUpsert::Create)
    ));
    assert!(plan_upsert(&batch, 2, true).is_err());
    match plan_upsert(&batch, 3, true) {
        Ok(TableUpsert::Replace { predicate }) => {
            assert_eq!(predicate, triple_in_predicate(&batch));
            assert_eq!(
                predicate,
                "triple IN ('grafana\u{1f}abc123\u{1f}it''s')"
            );
        }
        _ => panic!("expected a replacement"),
    }
}

#[test]
fn a_batch_is_laid_out_in_columns() {
    let c = columns(&vec![rec("a", 0, "x"), rec("b", 1, "y")]);
    assert_eq!(c.item_ids, vec!["a", "b"]);
    assert_eq!(c.seqs, vec![0, 1]);
    assert_eq!(c.texts, vec!["x", "y"]);
    assert_eq!(c.sources, vec!["grafana", "grafana"]);
    assert_eq!(c.targets, vec!["abc123", "abc123"]);
    assert_eq!(c.values, vec![0.1, 0.2, 0.3, 0.1, 0.2, 0.3]);
    assert_eq!(c.keys[1], record_key("grafana", "abc123", "b", 1));
    assert_eq!(c.triples[0], triple_key("grafana", "abc123", "a"));
}

#[test]
fn a_key_has_a_stable_identifier() {
    let hash = blake3::hash(b"key").to_hex();
    let hex = hash.as_str();
    let want = format!(
        "{}-{}-{}-{}-{}",
        &hex[0..8],
        &hex[8..12],
        &hex[12..16],
        &hex[16..20],
        &hex[20..32]
    );
    assert_eq!(uuid_from_key("key"), want);
    assert_ne!(uuid_from_key("key"), uuid_from_key("key2"));
}

#[test]
fn vector_errors_have_messages() {
    assert_eq!(
        VectorError::Embed("e".into()).message(),
        "embedding failed: e"
    );
    assert_eq!(
        VectorError::Store("e".into()).message(),
        "vector store error: e"
    );
    assert_eq!(
        VectorError::BadUri("e".into()).message(),
        "unsupported or malformed store uri: e"
    );
    assert_eq!(VectorError::Cancelled.message(), "operation cancelled");
    assert_eq!(VectorError::Io("e".into()).message(), "e");
}
