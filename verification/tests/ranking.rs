use rag_core::ranker::{
    check_shape, find_closest_match, find_relevant_documents, rank_all, top_k, RankError,
};
use rag_core::similarity::{ranks_before, Similarity};
use rag_core::store::{RawRecord, VectorStore};

fn score(value: f32) -> Similarity {
    Similarity::from_bits(value.to_bits())
}

fn cosine(a: &[f32], b: &[f32]) -> f32 {
    let dot: f32 = a.iter().zip(b.iter()).map(|(x, y)| x * y).sum();
    let na: f32 = a.iter().map(|x| x * x).sum::<f32>().sqrt();
    let nb: f32 = b.iter().map(|x| x * x).sum::<f32>().sqrt();
    dot / (na * nb)
}

fn raw(id: &str, vector: &[f32], content: &str) -> RawRecord {
    RawRecord {
        id: id.to_string(),
        category: "docs".to_string(),
        timestamp: None,
        components: vector.iter().map(|x| Some(x.to_bits())).collect(),
        content: Some(content.to_string()),
    }
}

fn store_of(records: Vec<RawRecord>) -> VectorStore {
    VectorStore::load(Ok(records)).unwrap()
}

fn scores_for(store: &VectorStore, query: &[f32]) -> Vec<Similarity> {
    store
        .all()
        .iter()
        .map(|r| {
            let v: Vec<f32> = r.vector.iter().map(|b| f32::from_bits(*b)).collect();
            score(cosine(query, &v))
        })
        .collect()
}

#[test]
fn nearest_record_is_returned_with_its_score() {
    let store = store_of(vec![raw("a", &[1.0, 0.0], "doc A"), raw("b", &[0.0, 1.0], "doc B")]);
    let query = [0.9f32, 0.1];
    let scores = scores_for(&store, &query);
    let matches = top_k(&store, query.len(), &scores, 1).unwrap();
    assert_eq!(matches.len(), 1);
    assert_eq!(matches[0].index, 0);
    assert_eq!(matches[0].record.id, "a");
    assert_eq!(matches[0].record.content, "doc A");
    let s = f32::from_bits(matches[0].score.to_bits());
    assert!((s - 0.994).abs() < 0.001);
}

#[test]
fn empty_store_gives_no_matches() {
    let store = store_of(vec![]);
    let matches = top_k(&store, 3, &vec![], 5).unwrap();
    assert!(matches.is_empty());
    let matches = top_k(&store, 384, &vec![], 5).unwrap();
    assert!(matches.is_empty());
}

#[test]
fn rank_all_orders_descending_and_stably() {
    let scores: Vec<Similarity> =
        [0.5f32, 0.9, 0.5, -1.0, 1.0, 0.9].iter().map(|x| score(*x)).collect();
    assert_eq!(rank_all(&scores), vec![4, 1, 5, 0, 2, 3]);
}

#[test]
fn score_count_must_match_the_store() {
    let store = store_of(vec![raw("a", &[1.0, 0.0], "doc A")]);
    let res = find_closest_match(&store, &vec![], 1);
    assert_eq!(res.unwrap_err(), RankError::ScoreCount { expected: 1, found: 0 });
}

#[test]
fn top_k_returns_k_matches_in_non_increasing_order() {
    let store = store_of(vec![
        raw("a", &[1.0, 0.0], "A"),
        raw("b", &[0.0, 1.0], "B"),
        raw("c", &[1.0, 1.0], "C"),
        raw("d", &[-1.0, 0.5], "D"),
    ]);
    let query = [0.6f32, 0.8];
    let scores = scores_for(&store, &query);
    for k in 0..=4usize {
        let matches = top_k(&store, 2, &scores, k).unwrap();
        assert_eq!(matches.len(), k);
        for w in matches.windows(2) {
            let hi = f32::from_bits(w[0].score.to_bits());
            let lo = f32::from_bits(w[1].score.to_bits());
            assert!(hi >= lo);
        }
    }
    let all = top_k(&store, 2, &scores, 4).unwrap();
    let ids: Vec<&str> = all.iter().map(|m| m.record.id.as_str()).collect();
    assert_eq!(ids, vec!["c", "b", "a", "d"]);
}

#[test]
fn top_k_larger_than_store_returns_every_record() {
    let store = store_of(vec![raw("a", &[1.0, 0.0], "A"), raw("b", &[0.0, 1.0], "B")]);
    let scores = scores_for(&store, &[1.0, 0.0]);
    assert_eq!(top_k(&store, 2, &scores, 7).unwrap().len(), 2);
    assert_eq!(find_relevant_documents(&store, 2, &scores).unwrap().len(), 2);
}

#[test]
fn k_zero_returns_nothing() {
    let store = store_of(vec![raw("a", &[1.0, 0.0], "A")]);
    let scores = scores_for(&store, &[1.0, 0.0]);
    assert!(top_k(&store, 2, &scores, 0).unwrap().is_empty());
}

#[test]
fn find_relevant_documents_returns_five() {
    let records: Vec<RawRecord> = (0..8)
        .map(|i| raw(&format!("r{}", i), &[1.0, i as f32], "text"))
        .collect();
    let store = store_of(records);
    let scores = scores_for(&store, &[1.0, 0.0]);
    let matches = find_relevant_documents(&store, 2, &scores).unwrap();
    let ids: Vec<usize> = matches.iter().map(|m| m.index).collect();
    assert_eq!(ids, vec![0, 1, 2, 3, 4]);
}

#[test]
fn identical_record_ranks_first_whatever_the_load_order() {
    let query = [0.0f32, 1.0, 0.0];
    let same = || raw("same", &[0.0, 1.0, 0.0], "same");
    let x = || raw("x", &[1.0, 0.0, 0.0], "x");
    let z = || raw("z", &[0.0, 0.0, 1.0], "z");
    for records in [vec![same(), x(), z()], vec![x(), same(), z()], vec![x(), z(), same()]] {
        let store = store_of(records);
        let scores = scores_for(&store, &query);
        let matches = top_k(&store, 3, &scores, 3).unwrap();
        assert_eq!(matches[0].record.id, "same");
    }
}

#[test]
fn zero_vectors_rank_last_without_failing() {
    let store = store_of(vec![
        raw("zero", &[0.0, 0.0], "zero"),
        raw("far", &[-1.0, 0.0], "far"),
        raw("near", &[1.0, 0.0], "near"),
    ]);
    let scores = scores_for(&store, &[1.0, 0.0]);
    assert!(scores[0].is_nan());
    let matches = top_k(&store, 2, &scores, 3).unwrap();
    let ids: Vec<&str> = matches.iter().map(|m| m.record.id.as_str()).collect();
    assert_eq!(ids, vec!["near", "far", "zero"]);
    let best_two = top_k(&store, 2, &scores, 2).unwrap();
    assert!(best_two.iter().all(|m| !m.score.is_nan()));

    let zero_query = scores_for(&store, &[0.0, 0.0]);
    let matches = top_k(&store, 2, &zero_query, 3).unwrap();
    let order: Vec<usize> = matches.iter().map(|m| m.index).collect();
    assert_eq!(order, vec![0, 1, 2]);
}

#[test]
fn query_of_another_dimension_is_refused() {
    let store = store_of(vec![raw("a", &[1.0, 0.0], "A")]);
    let scores = vec![score(1.0)];
    assert_eq!(
        top_k(&store, 3, &scores, 1).unwrap_err(),
        RankError::ShapeMismatch { expected: 2, found: 3 }
    );
    assert_eq!(
        check_shape(&store, 5).unwrap_err(),
        RankError::ShapeMismatch { expected: 2, found: 5 }
    );
    assert!(check_shape(&store, 2).is_ok());
}

#[test]
fn rank_keys_follow_the_numbers() {
    assert_eq!(score(1.0).key(), 0x3f80_0000);
    assert_eq!(score(-1.0).key(), -0x3f80_0000);
    assert_eq!(score(0.0).key(), 0);
    assert_eq!(score(-0.0).key(), 0);
    assert_eq!(score(f32::INFINITY).key(), 0x7f80_0000);
    assert_eq!(score(f32::NEG_INFINITY).key(), -0x7f80_0000);
    assert_eq!(score(f32::NAN).key(), -0x7f80_0001);
    assert_eq!(Similarity::from_bits(0xffc0_0000).key(), -0x7f80_0001);
    assert!(score(f32::NAN).is_nan());
    assert!(!score(f32::INFINITY).is_nan());
    assert_eq!(score(0.5).to_bits(), 0x3f00_0000);
    let values = [-2.5f32, -1.0, -1e-30, 0.0, 1e-30, 0.25, 1.0, 3.0e10];
    for w in values.windows(2) {
        assert!(score(w[0]).key() < score(w[1]).key());
    }
}

#[test]
fn ranks_before_breaks_ties_by_position() {
    let scores = vec![score(0.5), score(0.5), score(0.7), score(f32::NAN), score(f32::NAN)];
    assert!(ranks_before(&scores, 0, 1));
    assert!(!ranks_before(&scores, 1, 0));
    assert!(ranks_before(&scores, 2, 0));
    assert!(ranks_before(&scores, 1, 3));
    assert!(ranks_before(&scores, 3, 4));
    assert!(!ranks_before(&scores, 4, 3));
    assert!(!ranks_before(&scores, 0, 0));
}

#[test]
fn signed_zeros_and_infinities_rank_as_numbers() {
    let scores = vec![
        score(-0.0),
        score(f32::NEG_INFINITY),
        score(0.0),
        score(f32::INFINITY),
        score(f32::NAN),
        score(-1.0),
    ];
    assert_eq!(rank_all(&scores), vec![3, 0, 2, 5, 1, 4]);
}
