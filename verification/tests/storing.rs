use docrag::embedding::DIMENSION;
use docrag::rank::{Hit, NameFilter};
use docrag::score::Score;
use docrag::store::{ChunkStore, StoreError};

fn vector(values: &[f32]) -> Vec<u32> {
    let mut v = vec![0.0f32.to_bits(); DIMENSION];
    for (i, x) in values.iter().enumerate() {
        v[i] = x.to_bits();
    }
    v
}

fn euclidean(a: &Vec<u32>, b: &Vec<u32>) -> Score {
    let mut sum = 0.0f64;
    for i in 0..a.len() {
        let d = f32::from_bits(a[i]) as f64 - f32::from_bits(b[i]) as f64;
        sum += d * d;
    }
    Score::from_bits(sum.sqrt().to_bits())
}

fn cosine_distance(a: &Vec<u32>, b: &Vec<u32>) -> Score {
    let (mut dot, mut na, mut nb) = (0.0f64, 0.0f64, 0.0f64);
    for i in 0..a.len() {
        let x = f32::from_bits(a[i]) as f64;
        let y = f32::from_bits(b[i]) as f64;
        dot += x * y;
        na += x * x;
        nb += y * y;
    }
    Score::from_bits((1.0 - dot / (na.sqrt() * nb.sqrt())).to_bits())
}

fn filled() -> ChunkStore {
    let mut store = ChunkStore::new();
    store
        .insert_chunk("alpha one".into(), vector(&[1.0, 0.0]), "alpha.pdf".into(), Some(vector(&[0.0, 0.0, 1.0])))
        .unwrap();
    store
        .insert_chunk("beta one".into(), vector(&[0.0, 1.0]), "beta.pdf".into(), Some(vector(&[0.0, 0.0, 3.0])))
        .unwrap();
    store
        .insert_chunk("alpha two".into(), vector(&[2.0, 0.0]), "alpha.pdf".into(), Some(vector(&[0.0, 0.0, 1.0])))
        .unwrap();
    store
}

#[test]
fn a_new_store_is_empty() {
    let store = ChunkStore::new();
    assert_eq!(store.len(), 0);
    assert!(store.chunks().is_empty());
    assert_eq!(store.query_nearest(&vector(&[1.0]), 3, euclidean, &None), Ok(Vec::new()));
}

#[test]
fn a_stored_chunk_is_the_first_hit_of_a_query_with_its_own_embedding() {
    let mut store = filled();
    let v = vector(&[0.25, 0.5, 0.75]);
    store.insert_chunk("the new one".into(), v.clone(), "gamma.pdf".into(), None).unwrap();
    assert_eq!(store.len(), 4);
    let hits = store.query_nearest(&v, 1, euclidean, &None).unwrap();
    assert_eq!(hits, vec![Hit { text: "the new one".into(), distance: Score::from_bits(0.0f64.to_bits()) }]);
    let hits = store.query_nearest(&v, 1, cosine_distance, &None).unwrap();
    assert_eq!(hits.len(), 1);
    assert_eq!(hits[0].text, "the new one");
    assert!(f64::from_bits(hits[0].distance.to_bits()).abs() < 1e-9);
}

#[test]
fn chunks_are_kept_in_the_order_of_their_insertion() {
    let store = filled();
    let texts: Vec<&str> = store.chunks().iter().map(|c| c.text.as_str()).collect();
    assert_eq!(texts, vec!["alpha one", "beta one", "alpha two"]);
    assert_eq!(store.chunks()[1].document_name, "beta.pdf");
    assert_eq!(store.chunks()[1].embedding.components(), &vector(&[0.0, 1.0]));
    assert_eq!(store.chunks()[1].name_embedding.as_ref().unwrap().components(), &vector(&[0.0, 0.0, 3.0]));
}

#[test]
fn a_vector_of_another_dimension_is_not_stored() {
    let mut store = filled();
    let short = vec![1.0f32.to_bits(); DIMENSION - 1];
    let long = vec![1.0f32.to_bits(); DIMENSION + 1];
    assert_eq!(
        store.insert_chunk("t".into(), short.clone(), "d.pdf".into(), None),
        Err(StoreError::SchemaMismatch)
    );
    assert_eq!(
        store.insert_chunk("t".into(), long.clone(), "d.pdf".into(), None),
        Err(StoreError::SchemaMismatch)
    );
    assert_eq!(
        store.insert_chunk("t".into(), vector(&[1.0]), "d.pdf".into(), Some(short.clone())),
        Err(StoreError::SchemaMismatch)
    );
    assert_eq!(store, filled());
    assert_eq!(store.query_nearest(&short, 3, euclidean, &None), Err(StoreError::SchemaMismatch));
    assert_eq!(store.query_nearest(&long, 3, euclidean, &None), Err(StoreError::SchemaMismatch));
}

#[test]
fn deleting_a_document_removes_its_chunks_and_no_others() {
    let mut store = filled();
    assert_eq!(store.delete_by_document_name("alpha.pdf"), 2);
    assert_eq!(store.len(), 1);
    assert_eq!(store.chunks()[0].text, "beta one");
}

#[test]
fn deleting_twice_removes_nothing_the_second_time() {
    let mut store = filled();
    assert_eq!(store.delete_by_document_name("alpha.pdf"), 2);
    let after_first = store.chunks().iter().map(|c| c.text.clone()).collect::<Vec<String>>();
    assert_eq!(store.delete_by_document_name("alpha.pdf"), 0);
    let after_second = store.chunks().iter().map(|c| c.text.clone()).collect::<Vec<String>>();
    assert_eq!(after_first, after_second);
}

#[test]
fn deleting_an_unknown_document_is_no_error() {
    let mut store = filled();
    assert_eq!(store.delete_by_document_name("missing.pdf"), 0);
    assert_eq!(store.delete_by_document_name(""), 0);
    assert_eq!(store.delete_by_document_name("alpha"), 0);
    assert_eq!(store, filled());
}

#[test]
fn a_deleted_document_is_not_returned_any_more() {
    let mut store = filled();
    let q = vector(&[1.0, 0.0]);
    let before = store.query_nearest(&q, 3, euclidean, &None).unwrap();
    assert_eq!(before[0].text, "alpha one");
    store.delete_by_document_name("alpha.pdf");
    let after = store.query_nearest(&q, 3, euclidean, &None).unwrap();
    assert_eq!(after.len(), 1);
    assert_eq!(after[0].text, "beta one");
}

#[test]
fn queries_rank_by_the_distance_function_they_are_given() {
    let store = filled();
    let q = vector(&[3.0, 0.1]);
    let by_l2: Vec<String> =
        store.query_nearest(&q, 3, euclidean, &None).unwrap().into_iter().map(|h| h.text).collect();
    assert_eq!(by_l2, vec!["alpha two", "alpha one", "beta one"]);
    let by_cos: Vec<String> =
        store.query_nearest(&q, 3, cosine_distance, &None).unwrap().into_iter().map(|h| h.text).collect();
    assert_eq!(by_cos, vec!["alpha one", "alpha two", "beta one"]);
}

#[test]
fn the_filter_on_names_is_judged_by_the_same_distance_function() {
    let store = filled();
    let q = vector(&[1.0, 0.0, 1.0]);
    let filter = Some(NameFilter { threshold: Score::from_bits(1.5f64.to_bits()) });
    let hits = store.query_nearest(&q, 3, euclidean, &filter).unwrap();
    let texts: Vec<&str> = hits.iter().map(|h| h.text.as_str()).collect();
    assert_eq!(texts, vec!["beta one"]);
}

#[test]
fn scoring_gives_one_candidate_for_each_chunk() {
    let store = filled();
    let q = vector(&[1.0, 0.0]);
    let cands = store.score_chunks(&q, &euclidean);
    assert_eq!(cands.len(), 3);
    assert_eq!(cands[0].text, "alpha one");
    assert_eq!(cands[0].distance, Score::from_bits(0.0f64.to_bits()));
    assert_eq!(cands[2].distance, Score::from_bits(1.0f64.to_bits()));
    assert_eq!(cands[1].name_distance, Some(euclidean(&q, &vector(&[0.0, 0.0, 3.0]))));
}
