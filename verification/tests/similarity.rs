use embeddings::error::EngineError;
use embeddings::ranking::rank_order;
use embeddings::record::EmbeddingRecord;
use embeddings::score::{finite_bits, key_of, settle_score, zero_vector, ZERO};
use embeddings::similarity::{check_dimensions, search, ScoredCandidate};

fn bits(values: &[f32]) -> Vec<u32> {
    values.iter().map(|x| x.to_bits()).collect()
}

fn cosine(a: &[f32], b: &[f32]) -> f32 {
    let dot = a.iter().zip(b.iter()).map(|(x, y)| x * y).sum::<f32>();
    let norm_a = a.iter().map(|x| x * x).sum::<f32>().sqrt();
    let norm_b = b.iter().map(|y| y * y).sum::<f32>().sqrt();
    dot / (norm_a * norm_b)
}

fn record(id: i64, reference: &str, vector: &[f32]) -> EmbeddingRecord {
    EmbeddingRecord {
        id: Some(id),
        reference: reference.to_string(),
        text: format!("text of {}", reference),
        vector: Some(bits(vector)),
    }
}

fn candidates(query: &[f32], vectors: &[(&str, Vec<f32>)]) -> Vec<ScoredCandidate> {
    let mut out = Vec::new();
    let mut id = 1;
    for (reference, vector) in vectors {
        out.push(ScoredCandidate {
            record: record(id, reference, vector),
            raw_score: cosine(query, vector).to_bits(),
        });
        id += 1;
    }
    out
}

fn references(set: &embeddings::record::SimilarityResultSet) -> Vec<String> {
    set.results.iter().map(|r| r.record.reference.clone()).collect()
}

fn scores(set: &embeddings::record::SimilarityResultSet) -> Vec<f32> {
    set.results.iter().map(|r| f32::from_bits(r.score)).collect()
}

#[test]
fn order_key_follows_the_numeric_order() {
    let values = [-3.5f32, -1.0, -1.0e-30, -0.0, 0.0, 1.0e-30, 0.5, 1.0, 2.0e9];
    for a in values {
        for b in values {
            let ka = key_of(a.to_bits());
            let kb = key_of(b.to_bits());
            assert_eq!(ka < kb, a < b);
            assert_eq!(ka == kb, a == b);
        }
    }
}

#[test]
fn order_key_exact_values() {
    assert_eq!(key_of(0), 0);
    assert_eq!(key_of(0x8000_0000), 0);
    assert_eq!(key_of(1.0f32.to_bits()), 0x3f80_0000);
    assert_eq!(key_of((-1.0f32).to_bits()), -0x3f80_0000);
    assert_eq!(key_of(0xffff_ffff), -0x7fff_ffff);
}

#[test]
fn finite_bits_tells_numbers_from_the_rest() {
    assert!(finite_bits(1.0f32.to_bits()));
    assert!(finite_bits((-0.0f32).to_bits()));
    assert!(finite_bits(f32::MAX.to_bits()));
    assert!(finite_bits(f32::MIN.to_bits()));
    assert!(!finite_bits(f32::INFINITY.to_bits()));
    assert!(!finite_bits(f32::NEG_INFINITY.to_bits()));
    assert!(!finite_bits(f32::NAN.to_bits()));
    assert!(!finite_bits(0xffc0_0000));
}

#[test]
fn zero_vector_knows_both_zeros() {
    assert!(zero_vector(&bits(&[0.0, -0.0, 0.0])));
    assert!(zero_vector(&Vec::new()));
    assert!(!zero_vector(&bits(&[0.0, 1.0e-40])));
    assert!(!zero_vector(&bits(&[f32::NAN])));
}

#[test]
fn zero_vector_scores_zero_against_any_query() {
    let zero = bits(&[0.0, 0.0]);
    for query in [[1.0f32, 0.0], [0.0, 0.0], [-3.0, 4.0], [1.0e-30, 1.0e30]] {
        let raw = cosine(&query, &[0.0, 0.0]);
        let score = settle_score(&bits(&query), &zero, raw.to_bits());
        assert_eq!(score, ZERO);
        assert_eq!(f32::from_bits(score), 0.0);
    }
    assert_eq!(settle_score(&bits(&[1.0, 0.0]), &zero, 0.75f32.to_bits()), ZERO);
}

#[test]
fn zero_query_scores_zero_against_any_candidate() {
    let raw = cosine(&[0.0, 0.0], &[1.0, 2.0]);
    assert!(raw.is_nan());
    assert_eq!(settle_score(&bits(&[0.0, -0.0]), &bits(&[1.0, 2.0]), raw.to_bits()), ZERO);
}

#[test]
fn raw_score_that_is_no_number_settles_at_zero() {
    let q = bits(&[1.0, 2.0]);
    let v = bits(&[2.0, 1.0]);
    assert_eq!(settle_score(&q, &v, f32::NAN.to_bits()), ZERO);
    assert_eq!(settle_score(&q, &v, f32::INFINITY.to_bits()), ZERO);
    assert_eq!(settle_score(&q, &v, f32::NEG_INFINITY.to_bits()), ZERO);
}

#[test]
fn vanishing_norm_settles_at_zero() {
    let tiny = [1.0e-30f32, 0.0];
    let raw = cosine(&tiny, &[1.0, 0.0]);
    assert!(!raw.is_finite());
    assert_eq!(settle_score(&bits(&tiny), &bits(&[1.0, 0.0]), raw.to_bits()), ZERO);
}

#[test]
fn finite_raw_score_stands() {
    let q = bits(&[1.0, 2.0]);
    let v = bits(&[2.0, 1.0]);
    let raw = cosine(&[1.0, 2.0], &[2.0, 1.0]);
    assert_eq!(raw, 0.8);
    assert_eq!(settle_score(&q, &v, raw.to_bits()), raw.to_bits());
    assert_eq!(settle_score(&q, &v, (-0.0f32).to_bits()), (-0.0f32).to_bits());
}

#[test]
fn rank_order_is_descending() {
    let order = rank_order(&bits(&[0.0, 1.0, -1.0, 0.5]));
    assert_eq!(order, vec![1, 3, 0, 2]);
}

#[test]
fn rank_order_keeps_ties_in_reading_order() {
    let order = rank_order(&bits(&[0.5, 1.0, 0.5, 1.0, 0.5]));
    assert_eq!(order, vec![1, 3, 0, 2, 4]);
}

#[test]
fn rank_order_takes_the_two_zeros_for_equal() {
    let order = rank_order(&bits(&[-0.0, 0.0, -0.0, 0.1, -0.1]));
    assert_eq!(order, vec![3, 0, 1, 2, 4]);
}

#[test]
fn rank_order_of_nothing_and_of_one() {
    assert_eq!(rank_order(&Vec::new()), Vec::<usize>::new());
    assert_eq!(rank_order(&bits(&[0.3])), vec![0]);
}

#[test]
fn rank_order_agrees_with_a_stable_sort() {
    let values: Vec<f32> = (0..200).map(|i| (((i * 37) % 23) as f32 - 11.0) / 11.0).collect();
    let mut expected: Vec<usize> = (0..values.len()).collect();
    expected.sort_by(|a, b| values[*b].partial_cmp(&values[*a]).unwrap());
    assert_eq!(rank_order(&bits(&values)), expected);
}

#[test]
fn search_ranks_known_vectors() {
    let q = [1.0f32, 0.0];
    let cands = candidates(
        &q,
        &[("v3", vec![-1.0, 0.0]), ("v1", vec![1.0, 0.0]), ("v2", vec![0.0, 1.0])],
    );
    let set = search("query", &bits(&q), &cands).unwrap();
    assert_eq!(set.query_text, "query");
    assert_eq!(references(&set), vec!["v1", "v2", "v3"]);
    assert_eq!(scores(&set), vec![1.0, 0.0, -1.0]);
}

#[test]
fn search_is_repeatable() {
    let q = [0.3f32, -0.7, 0.2];
    let cands = candidates(
        &q,
        &[
            ("a", vec![0.1, 0.2, 0.3]),
            ("b", vec![0.3, -0.7, 0.2]),
            ("c", vec![-0.3, 0.7, -0.2]),
            ("d", vec![0.1, 0.2, 0.3]),
            ("e", vec![0.0, 0.0, 0.0]),
        ],
    );
    let first = search("again", &bits(&q), &cands).unwrap();
    let second = search("again", &bits(&q), &cands).unwrap();
    assert_eq!(first, second);
    assert_eq!(references(&first)[0], "b");
    assert_eq!(references(&first)[4], "c");
    let a = references(&first).iter().position(|r| r == "a").unwrap();
    let d = references(&first).iter().position(|r| r == "d").unwrap();
    assert_eq!(d, a + 1);
}

#[test]
fn search_strips_vectors_and_keeps_identity() {
    let q = [1.0f32, 1.0];
    let cands = candidates(&q, &[("only", vec![2.0, 2.0])]);
    let set = search("q", &bits(&q), &cands).unwrap();
    assert_eq!(set.results.len(), 1);
    let result = &set.results[0];
    assert_eq!(result.record.vector, None);
    assert_eq!(result.record.id, Some(1));
    assert_eq!(result.record.reference, "only");
    assert_eq!(result.record.text, "text of only");
    assert!((f32::from_bits(result.score) - 1.0).abs() < 1.0e-6);
}

#[test]
fn search_scores_stored_zero_vector_zero() {
    let q = [1.0f32, 0.0];
    let cands = candidates(
        &q,
        &[("neg", vec![-1.0, 0.0]), ("zero", vec![0.0, 0.0]), ("pos", vec![1.0, 0.0])],
    );
    assert!(f32::from_bits(cands[1].raw_score).is_nan());
    let set = search("q", &bits(&q), &cands).unwrap();
    assert_eq!(references(&set), vec!["pos", "zero", "neg"]);
    assert_eq!(set.results[1].score, ZERO);
    for result in &set.results {
        assert!(f32::from_bits(result.score).is_finite());
    }
}

#[test]
fn search_with_zero_query_keeps_reading_order() {
    let q = [0.0f32, 0.0];
    let cands = candidates(&q, &[("a", vec![1.0, 0.0]), ("b", vec![0.0, 1.0]), ("c", vec![3.0, 4.0])]);
    let set = search("q", &bits(&q), &cands).unwrap();
    assert_eq!(references(&set), vec!["a", "b", "c"]);
    assert_eq!(scores(&set), vec![0.0, 0.0, 0.0]);
}

#[test]
fn search_over_no_candidates_is_empty() {
    let set = search("nothing", &bits(&[1.0]), &Vec::new()).unwrap();
    assert_eq!(set.query_text, "nothing");
    assert!(set.results.is_empty());
}

#[test]
fn search_refuses_other_dimension() {
    let q = [1.0f32, 0.0];
    let mut cands = candidates(&q, &[("a", vec![1.0, 0.0]), ("b", vec![0.0, 1.0])]);
    cands.push(ScoredCandidate { record: record(3, "c", &[1.0, 0.0, 0.0]), raw_score: 0 });
    cands.push(ScoredCandidate { record: record(4, "d", &[1.0]), raw_score: 0 });
    assert_eq!(search("q", &bits(&q), &cands), Err(EngineError::DimensionMismatch { index: 2 }));
}

#[test]
fn search_refuses_candidate_without_vector() {
    let q = [1.0f32];
    let mut first = record(1, "a", &[1.0]);
    first.vector = None;
    let cands = vec![ScoredCandidate { record: first, raw_score: 0 }];
    assert_eq!(search("q", &bits(&q), &cands), Err(EngineError::DimensionMismatch { index: 0 }));
}

#[test]
fn check_dimensions_names_first_mismatch() {
    let q = bits(&[1.0, 0.0]);
    let good = vec![record(1, "a", &[1.0, 0.0]), record(2, "b", &[0.0, 1.0])];
    assert_eq!(check_dimensions(&q, &good), Ok(()));
    assert_eq!(check_dimensions(&q, &Vec::new()), Ok(()));
    let bad = vec![record(1, "a", &[1.0, 0.0]), record(2, "b", &[0.0]), record(3, "c", &[])];
    assert_eq!(check_dimensions(&q, &bad), Err(EngineError::DimensionMismatch { index: 1 }));
}
