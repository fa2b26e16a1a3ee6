use faster_all::scoring::{pairwise_similarities, score_group, to_score_records};
use faster_all::vector::{Score, Similarity, VectorError};

fn value_f64(s: &Similarity) -> f64 {
    (s.dot_ab as f64) / ((s.norm_a as f64) * (s.norm_b as f64)).sqrt()
}

fn score_value(sc: &Score) -> f64 {
    match sc {
        Score::Defined(s) => value_f64(s),
        Score::Undefined => panic!("score should be defined"),
    }
}

/// A deterministic stub embedding: a one-hot vector indexed by the
/// message's word count.
fn stub_embed(text: &str) -> Vec<i64> {
    let words = text.split_whitespace().count();
    let mut v: Vec<i64> = vec![0; 8];
    v[words.min(7)] = 1;
    v
}

#[test]
fn test_single_message_scores_one() {
    let ids: Vec<i32> = vec![42];
    let vectors: Vec<Vec<i64>> = vec![vec![5, 0, -3]];
    let scores = score_group(&ids, &vectors).unwrap();
    assert_eq!(scores.len(), 1);
    assert_eq!(scores[0].message_id, 42);
    match &scores[0].score {
        Score::Defined(s) => {
            assert!(s.is_one());
            assert_eq!(value_f64(s), 1.0);
        }
        Score::Undefined => panic!("score should be defined"),
    }
}

#[test]
fn test_two_groups_end_to_end() {
    let g1 = ["hello world", "hello there", "goodbye"];
    let g1_ids: Vec<i32> = vec![1, 2, 3];
    let g1_vecs: Vec<Vec<i64>> = g1.iter().map(|m| stub_embed(m)).collect();
    let s1 = score_group(&g1_ids, &g1_vecs).unwrap();
    let hello_world = score_value(&s1[0].score);
    let hello_there = score_value(&s1[1].score);
    let goodbye = score_value(&s1[2].score);
    assert!(hello_world > goodbye);
    assert!(hello_there > goodbye);

    let g2 = ["foo bar", "foo baz"];
    let g2_ids: Vec<i32> = vec![4, 5];
    let g2_vecs: Vec<Vec<i64>> = g2.iter().map(|m| stub_embed(m)).collect();
    let s2 = score_group(&g2_ids, &g2_vecs).unwrap();
    let foo_bar = score_value(&s2[0].score);
    let foo_baz = score_value(&s2[1].score);
    assert!((foo_bar - foo_baz).abs() < 1e-12);
}

#[test]
fn test_group_with_zero_vector() {
    let ids: Vec<i32> = vec![1, 2];
    let vectors: Vec<Vec<i64>> = vec![vec![1, 1], vec![0, 0]];
    let scores = score_group(&ids, &vectors).unwrap();
    assert!(matches!(scores[0].score, Score::Defined(_)));
    assert!(matches!(scores[1].score, Score::Undefined));
}

#[test]
fn test_score_group_empty() {
    let ids: Vec<i32> = Vec::new();
    let vectors: Vec<Vec<i64>> = Vec::new();
    assert!(matches!(score_group(&ids, &vectors), Err(VectorError::EmptyGroup)));
}

#[test]
fn test_score_group_dimension_mismatch() {
    let ids: Vec<i32> = vec![1, 2];
    let vectors: Vec<Vec<i64>> = vec![vec![1, 2], vec![1, 2, 3]];
    assert!(matches!(score_group(&ids, &vectors), Err(VectorError::DimensionMismatch)));
}

#[test]
fn test_pairwise_policy_cross_check() {
    // On a tight synthetic group the quadratic pairwise-mean policy must
    // agree closely with the centroid policy.
    let ids: Vec<i32> = vec![1, 2, 3];
    let vectors: Vec<Vec<i64>> = vec![vec![10, 1], vec![10, 0], vec![9, 1]];
    let centroid_scores = score_group(&ids, &vectors).unwrap();
    for i in 0..vectors.len() {
        let sims = pairwise_similarities(&vectors, i).unwrap();
        assert_eq!(sims.len(), vectors.len() - 1);
        let mean: f64 =
            sims.iter().map(value_f64).sum::<f64>() / (sims.len() as f64);
        let c = score_value(&centroid_scores[i].score);
        assert!((mean - c).abs() < 0.05);
    }
}

#[test]
fn test_pairwise_zero_vector_undefined() {
    let vectors: Vec<Vec<i64>> = vec![vec![1, 1], vec![0, 0]];
    assert!(matches!(pairwise_similarities(&vectors, 0), Err(VectorError::Undefined)));
}

#[test]
fn test_score_records() {
    let ids: Vec<i32> = vec![7, 8];
    let vectors: Vec<Vec<i64>> = vec![vec![1, 2], vec![2, 1]];
    let scores = score_group(&ids, &vectors).unwrap();
    let lang = String::from("tr");
    let records = to_score_records(&scores, &lang);
    assert_eq!(records.len(), 2);
    assert_eq!(records[0].message_id, 7);
    assert_eq!(records[1].message_id, 8);
    assert_eq!(records[0].lang, "tr");
    assert_eq!(records[1].lang, "tr");
    assert_eq!(records[0].prob, scores[0].score);
    assert_eq!(records[1].prob, scores[1].score);
}
