use docrag::embedding::{EmbeddingError, DIMENSION};
use docrag::ingest::{
    classify, Action, Config, Event, EventKind, FsEvent, Intent, Notice, NoticeKind, Orchestrator,
    Segmenter, SkipReason,
};
use docrag::score::Score;
use docrag::segment::SegmentError;
use docrag::store::{ChunkStore, StoreError};

fn config(segmenter: Segmenter, embed_names: bool) -> Config {
    Config { segmenter, embed_names }
}

fn windows(size: usize) -> Config {
    config(Segmenter::FixedWindow { size }, false)
}

fn fs(kind: EventKind, paths: &[&str]) -> Event {
    Event::Filesystem(FsEvent { kind, paths: paths.iter().map(|p| p.to_string()).collect() })
}

fn note(kind: NoticeKind, path: &str) -> Notice {
    Notice { kind, path: path.to_string() }
}

fn vector_for(text: &str) -> Vec<u32> {
    let mut v = vec![0.0f32; DIMENSION];
    for (i, b) in text.bytes().enumerate() {
        v[(i * 31 + b as usize) % DIMENSION] += 1.0 + (b as f32) / 256.0;
    }
    v.into_iter().map(f32::to_bits).collect()
}

fn euclidean(a: &Vec<u32>, b: &Vec<u32>) -> Score {
    let mut sum = 0.0f64;
    for i in 0..a.len() {
        let d = f32::from_bits(a[i]) as f64 - f32::from_bits(b[i]) as f64;
        sum += d * d;
    }
    Score::from_bits(sum.sqrt().to_bits())
}

fn step(m: Orchestrator, event: Event) -> (Orchestrator, Vec<Notice>) {
    let r = m.react(event);
    (r.machine, r.notices)
}

#[test]
fn kinds_of_events_are_classified() {
    assert_eq!(classify(EventKind::Create), Some(Intent::Ingest));
    assert_eq!(classify(EventKind::RenameTo), Some(Intent::Ingest));
    assert_eq!(classify(EventKind::Remove), Some(Intent::Remove));
    assert_eq!(classify(EventKind::RenameFrom), Some(Intent::Remove));
    assert_eq!(classify(EventKind::Other), None);
}

#[test]
fn a_new_orchestrator_waits_for_an_event() {
    let m = Orchestrator::new(windows(100));
    assert_eq!(m.pending(), Action::Await);
    assert!(!m.halted());
}

#[test]
fn an_event_of_another_kind_is_ignored() {
    let m = Orchestrator::new(windows(100));
    let (m, notices) = step(m, fs(EventKind::Other, &["/docs/a.pdf"]));
    assert!(notices.is_empty());
    assert_eq!(m.pending(), Action::Await);
}

#[test]
fn a_file_that_is_no_document_is_passed_over() {
    let m = Orchestrator::new(windows(100));
    let (m, notices) = step(m, fs(EventKind::Create, &["/docs/notes.txt", "/docs/a.pdf", "/docs/b"]));
    assert_eq!(
        notices,
        vec![note(NoticeKind::NotADocument, "/docs/notes.txt"), note(NoticeKind::NotADocument, "/docs/b")]
    );
    assert_eq!(m.pending(), Action::ReadDocument { path: "/docs/a.pdf".into() });
    let (m, notices) = step(m, Event::Extracted(Some(String::new())));
    assert_eq!(
        notices,
        vec![note(NoticeKind::Segmented { chunks: 0 }, "/docs/a.pdf"), note(NoticeKind::Ingested, "/docs/a.pdf")]
    );
    assert_eq!(m.pending(), Action::Await);
}

#[test]
fn a_document_is_ingested_chunk_by_chunk() {
    let m = Orchestrator::new(windows(2));
    let (m, _) = step(m, fs(EventKind::Create, &["/docs/a.pdf"]));
    assert_eq!(m.pending(), Action::ReadDocument { path: "/docs/a.pdf".into() });
    let (m, notices) = step(m, Event::Extracted(Some("one two  three\nfour five".into())));
    assert_eq!(notices, vec![note(NoticeKind::Segmented { chunks: 3 }, "/docs/a.pdf")]);

    let mut m = m;
    let mut stored = ChunkStore::new();
    for expected in ["one two", "three four", "five"] {
        assert_eq!(m.pending(), Action::Embed { text: expected.into() });
        let (next, notices) = step(m, Event::Embedded(Some(vector_for(expected))));
        assert!(notices.is_empty());
        let chunk = match next.pending() {
            Action::Insert { chunk } => chunk,
            other => panic!("expected an insert, got {:?}", other),
        };
        assert_eq!(chunk.text, expected);
        assert_eq!(chunk.document_name, "a.pdf");
        assert_eq!(chunk.embedding.components(), &vector_for(expected));
        assert_eq!(chunk.name_embedding, None);
        let outcome = stored.insert_chunk(
            chunk.text.clone(),
            chunk.embedding.components().clone(),
            chunk.document_name.clone(),
            None,
        );
        let (next, notices) = step(next, Event::Inserted(outcome));
        assert_eq!(notices[0], note(NoticeKind::ChunkStored, "/docs/a.pdf"));
        if expected == "five" {
            assert_eq!(notices.len(), 2);
            assert_eq!(notices[1], note(NoticeKind::Ingested, "/docs/a.pdf"));
        } else {
            assert_eq!(notices.len(), 1);
        }
        m = next;
    }
    assert_eq!(m.pending(), Action::Await);
    assert_eq!(stored.len(), 3);
}

#[test]
fn chunks_get_an_embedding_of_the_name_when_asked_for() {
    let m = Orchestrator::new(config(Segmenter::Paragraphs, true));
    let (m, _) = step(m, fs(EventKind::RenameTo, &["in/report.pdf"]));
    let (m, _) = step(m, Event::Extracted(Some("only paragraph".into())));
    assert_eq!(m.pending(), Action::Embed { text: "only paragraph".into() });
    let (m, _) = step(m, Event::Embedded(Some(vector_for("only paragraph"))));
    assert_eq!(m.pending(), Action::Embed { text: "report.pdf".into() });
    let (m, notices) = step(m, Event::Embedded(Some(vector_for("report.pdf"))));
    assert!(notices.is_empty());
    match m.pending() {
        Action::Insert { chunk } => {
            assert_eq!(chunk.text, "only paragraph");
            assert_eq!(chunk.document_name, "report.pdf");
            assert_eq!(chunk.embedding.components(), &vector_for("only paragraph"));
            assert_eq!(chunk.name_embedding.unwrap().components(), &vector_for("report.pdf"));
        }
        other => panic!("expected an insert, got {:?}", other),
    }
}

#[test]
fn a_chunk_that_cannot_be_embedded_is_skipped_and_the_next_is_taken_up() {
    let m = Orchestrator::new(windows(1));
    let (m, _) = step(m, fs(EventKind::Create, &["a.pdf"]));
    let (m, _) = step(m, Event::Extracted(Some("x y z".into())));
    assert_eq!(m.pending(), Action::Embed { text: "x".into() });
    let (m, notices) = step(m, Event::Embedded(None));
    assert_eq!(
        notices,
        vec![note(NoticeKind::ChunkSkipped(SkipReason::Embedding(EmbeddingError::ModelFailure)), "a.pdf")]
    );
    assert_eq!(m.pending(), Action::Embed { text: "y".into() });
    let (m, notices) = step(m, Event::Embedded(Some(vec![0u32; 10])));
    assert_eq!(
        notices,
        vec![note(NoticeKind::ChunkSkipped(SkipReason::Embedding(EmbeddingError::DimensionMismatch)), "a.pdf")]
    );
    assert_eq!(m.pending(), Action::Embed { text: "z".into() });
    let (m, notices) = step(m, Event::Embedded(None));
    assert_eq!(notices.len(), 2);
    assert_eq!(notices[1], note(NoticeKind::Ingested, "a.pdf"));
    assert_eq!(m.pending(), Action::Await);
    assert!(!m.halted());
}

#[test]
fn a_name_that_cannot_be_embedded_skips_the_chunk() {
    let m = Orchestrator::new(config(Segmenter::Paragraphs, true));
    let (m, _) = step(m, fs(EventKind::Create, &["a.pdf"]));
    let (m, _) = step(m, Event::Extracted(Some("first\n\nsecond".into())));
    let (m, _) = step(m, Event::Embedded(Some(vector_for("first"))));
    assert_eq!(m.pending(), Action::Embed { text: "a.pdf".into() });
    let (m, notices) = step(m, Event::Embedded(None));
    assert_eq!(
        notices,
        vec![note(NoticeKind::ChunkSkipped(SkipReason::NameEmbedding(EmbeddingError::ModelFailure)), "a.pdf")]
    );
    assert_eq!(m.pending(), Action::Embed { text: "second".into() });
}

#[test]
fn a_chunk_that_the_store_refuses_is_skipped_and_the_next_is_taken_up() {
    let m = Orchestrator::new(windows(1));
    let (m, _) = step(m, fs(EventKind::Create, &["a.pdf"]));
    let (m, _) = step(m, Event::Extracted(Some("x y".into())));
    let (m, _) = step(m, Event::Embedded(Some(vector_for("x"))));
    let (m, notices) = step(m, Event::Inserted(Err(StoreError::Unavailable)));
    assert_eq!(
        notices,
        vec![note(NoticeKind::ChunkSkipped(SkipReason::Store(StoreError::Unavailable)), "a.pdf")]
    );
    assert!(!m.halted());
    assert_eq!(m.pending(), Action::Embed { text: "y".into() });
}

#[test]
fn a_file_without_text_is_passed_over_and_the_next_path_is_taken_up() {
    let m = Orchestrator::new(windows(100));
    let (m, _) = step(m, fs(EventKind::Create, &["a.pdf", "b.pdf"]));
    assert_eq!(m.pending(), Action::ReadDocument { path: "a.pdf".into() });
    let (m, notices) = step(m, Event::Extracted(None));
    assert_eq!(notices, vec![note(NoticeKind::ExtractFailed, "a.pdf")]);
    assert_eq!(m.pending(), Action::ReadDocument { path: "b.pdf".into() });
    let (m, _) = step(m, Event::Extracted(None));
    assert_eq!(m.pending(), Action::Await);
}

#[test]
fn a_window_of_no_words_cannot_segment() {
    let m = Orchestrator::new(windows(0));
    let (m, _) = step(m, fs(EventKind::Create, &["a.pdf"]));
    let (m, notices) = step(m, Event::Extracted(Some("some words".into())));
    assert_eq!(notices, vec![note(NoticeKind::SegmentFailed(SegmentError::EmptyWindow), "a.pdf")]);
    assert_eq!(m.pending(), Action::Await);
}

#[test]
fn removal_deletes_by_the_name_of_the_document() {
    let m = Orchestrator::new(windows(100));
    let (m, notices) = step(m, fs(EventKind::Remove, &["/docs/a.pdf", "/docs/sub/b.txt"]));
    assert!(notices.is_empty());
    assert_eq!(m.pending(), Action::Delete { document_name: "a.pdf".into() });
    let (m, notices) = step(m, Event::Deleted(Ok(4)));
    assert_eq!(notices, vec![note(NoticeKind::Removed { rows: 4 }, "/docs/a.pdf")]);
    assert_eq!(m.pending(), Action::Delete { document_name: "b.txt".into() });
    let (m, notices) = step(m, Event::Deleted(Ok(0)));
    assert_eq!(notices, vec![note(NoticeKind::Removed { rows: 0 }, "/docs/sub/b.txt")]);
    assert_eq!(m.pending(), Action::Await);
}

#[test]
fn a_deletion_that_fails_stops_the_orchestrator() {
    let m = Orchestrator::new(windows(100));
    let (m, _) = step(m, fs(EventKind::RenameFrom, &["/docs/a.pdf", "/docs/b.pdf"]));
    let (m, notices) = step(m, Event::Deleted(Err(StoreError::Unavailable)));
    assert!(notices.is_empty());
    assert!(m.halted());
    assert_eq!(m.pending(), Action::Halt { error: StoreError::Unavailable });
    let (m, notices) = step(m, fs(EventKind::Create, &["/docs/c.pdf"]));
    assert!(notices.is_empty());
    assert_eq!(m.pending(), Action::Halt { error: StoreError::Unavailable });
    let (m, _) = step(m, Event::Deleted(Ok(1)));
    assert!(m.halted());
}

#[test]
fn an_event_that_answers_nothing_changes_nothing() {
    let m = Orchestrator::new(windows(100));
    let (m, notices) = step(m, Event::Embedded(Some(vector_for("x"))));
    assert!(notices.is_empty());
    assert_eq!(m.pending(), Action::Await);
    let (mut m, _) = step(m, fs(EventKind::Create, &["a.pdf"]));
    for event in [
        fs(EventKind::Create, &["b.pdf"]),
        Event::Embedded(None),
        Event::Inserted(Ok(())),
        Event::Deleted(Ok(1)),
        Event::Scored(None),
    ] {
        let r = m.react(event);
        assert!(r.notices.is_empty());
        assert_eq!(r.machine.pending(), Action::ReadDocument { path: "a.pdf".into() });
        m = r.machine;
    }
    let (m, _) = step(m, Event::Extracted(Some("x".into())));
    for event in [Event::Extracted(None), Event::Inserted(Ok(())), Event::Deleted(Ok(1))] {
        let r = Orchestrator::new(windows(100)).react(event);
        assert!(r.notices.is_empty());
        assert_eq!(r.machine.pending(), Action::Await);
    }
    assert_eq!(m.pending(), Action::Embed { text: "x".into() });
}

#[test]
fn similar_paragraphs_are_merged_once_they_are_scored() {
    let m = Orchestrator::new(config(Segmenter::SimilarityMerged, false));
    let (m, _) = step(m, fs(EventKind::Create, &["a.pdf"]));
    let (m, notices) = step(m, Event::Extracted(Some("A\n\nB\n\nC".into())));
    assert!(notices.is_empty());
    assert_eq!(m.pending(), Action::ScoreParagraphs { paragraphs: vec!["A".into(), "B".into(), "C".into()] });
    let s = |x: f64| Score::from_bits(x.to_bits());
    let scores = vec![
        vec![s(1.0), s(0.8), s(0.3)],
        vec![s(0.8), s(1.0), s(0.1)],
        vec![s(0.3), s(0.1), s(1.0)],
    ];
    let (m, notices) = step(m, Event::Scored(Some(scores)));
    assert_eq!(notices, vec![note(NoticeKind::Segmented { chunks: 3 }, "a.pdf")]);
    assert_eq!(m.pending(), Action::Embed { text: "A\nB".into() });
    let (m, _) = step(m, Event::Embedded(None));
    assert_eq!(m.pending(), Action::Embed { text: "B".into() });
    let (m, _) = step(m, Event::Embedded(None));
    assert_eq!(m.pending(), Action::Embed { text: "C".into() });
}

#[test]
fn paragraphs_that_cannot_be_scored_give_the_document_up() {
    let m = Orchestrator::new(config(Segmenter::SimilarityMerged, false));
    let (m, _) = step(m, fs(EventKind::Create, &["a.pdf", "b.pdf"]));
    let (m, _) = step(m, Event::Extracted(Some("A\n\nB".into())));
    let (m, notices) = step(m, Event::Scored(None));
    assert_eq!(notices, vec![note(NoticeKind::ScoringFailed, "a.pdf")]);
    assert_eq!(m.pending(), Action::ReadDocument { path: "b.pdf".into() });
    let (m, _) = step(m, Event::Extracted(Some("A\n\nB".into())));
    let (m, notices) = step(m, Event::Scored(Some(vec![vec![Score::zero()]])));
    assert_eq!(notices, vec![note(NoticeKind::SegmentFailed(SegmentError::ScoreShape), "b.pdf")]);
    assert_eq!(m.pending(), Action::Await);
    let m2 = Orchestrator::new(config(Segmenter::SimilarityMerged, false));
    let (m2, _) = step(m2, fs(EventKind::Create, &["c.pdf"]));
    let (m2, notices) = step(m2, Event::Extracted(Some(" \n ".into())));
    assert_eq!(notices.len(), 2);
    assert_eq!(m2.pending(), Action::Await);
}

fn run(m: Orchestrator, store: &mut ChunkStore, event: Event, text_of: &dyn Fn(&str) -> Option<String>) -> Orchestrator {
    let mut m = m.react(event).machine;
    loop {
        let outcome = match m.pending() {
            Action::Await => return m,
            Action::Halt { .. } => return m,
            Action::ReadDocument { path } => Event::Extracted(text_of(&path)),
            Action::ScoreParagraphs { .. } => Event::Scored(None),
            Action::Embed { text } => Event::Embedded(Some(vector_for(&text))),
            Action::Insert { chunk } => Event::Inserted(store.insert_chunk(
                chunk.text,
                chunk.embedding.components().clone(),
                chunk.document_name,
                chunk.name_embedding.map(|e| e.components().clone()),
            )),
            Action::Delete { document_name } => Event::Deleted(Ok(store.delete_by_document_name(&document_name))),
        };
        m = m.react(outcome).machine;
    }
}

#[test]
fn a_document_that_was_dropped_in_is_found_and_one_that_was_removed_is_not() {
    let text_of = |path: &str| -> Option<String> {
        match path {
            "/watched/cats.pdf" => Some("cats purr softly at night\n\ncats chase mice in barns".into()),
            "/watched/ships.pdf" => Some("ships sail across the wide sea".into()),
            _ => None,
        }
    };
    let mut store = ChunkStore::new();
    let m = Orchestrator::new(config(Segmenter::Paragraphs, true));
    let m = run(m, &mut store, fs(EventKind::Create, &["/watched/cats.pdf", "/watched/readme.md"]), &text_of);
    let m = run(m, &mut store, fs(EventKind::Create, &["/watched/ships.pdf"]), &text_of);
    assert_eq!(store.len(), 3);

    let phrase = "cats chase mice in barns";
    let hits = store.query_nearest(&vector_for(phrase), 3, euclidean, &None).unwrap();
    assert!(hits.iter().any(|h| h.text.contains(phrase)));
    assert_eq!(hits[0].text, phrase);

    let m = run(m, &mut store, fs(EventKind::Remove, &["/watched/cats.pdf"]), &text_of);
    assert_eq!(m.pending(), Action::Await);
    assert_eq!(store.len(), 1);
    assert!(store.chunks().iter().all(|c| c.document_name != "cats.pdf"));
    let hits = store.query_nearest(&vector_for(phrase), 3, euclidean, &None).unwrap();
    assert_eq!(hits.len(), 1);
    assert_eq!(hits[0].text, "ships sail across the wide sea");
}

#[test]
fn ingesting_again_without_a_removal_stores_the_chunks_again() {
    let text_of = |_: &str| -> Option<String> { Some("same text".into()) };
    let mut store = ChunkStore::new();
    let m = Orchestrator::new(windows(100));
    let m = run(m, &mut store, fs(EventKind::Create, &["d.pdf"]), &text_of);
    let _ = run(m, &mut store, fs(EventKind::Create, &["d.pdf"]), &text_of);
    assert_eq!(store.len(), 2);
    assert_eq!(store.delete_by_document_name("d.pdf"), 2);
}
