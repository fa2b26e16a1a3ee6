use faster_all::vector::{Similarity, VectorError, centroid, cosine_similarity};

/// Evaluate the exact similarity triple as an `f64`.
fn value_f64(s: &Similarity) -> f64 {
    (s.dot_ab as f64) / ((s.norm_a as f64) * (s.norm_b as f64)).sqrt()
}

/// Evaluate the exact similarity triple in `f32`, the way a single-precision
/// implementation would: `dot / (sqrt(norm_a) * sqrt(norm_b))`.
fn value_f32(s: &Similarity) -> f32 {
    (s.dot_ab as f32) / ((s.norm_a as f32).sqrt() * (s.norm_b as f32).sqrt())
}

#[test]
fn test_cosine_similarity() {
    let a: Vec<i64> = vec![1, 2, 3];
    let b: Vec<i64> = vec![4, 5, 6];
    let c: Vec<i64> = vec![1, 2, 3];
    let ab = cosine_similarity(&a, &b).unwrap();
    assert_eq!(value_f32(&ab), 0.9746318);
    let ac = cosine_similarity(&a, &c).unwrap();
    assert!(ac.is_one());
    assert_eq!(value_f64(&ac), 1.0);
}

#[test]
fn test_round_trip_values() {
    let a: Vec<i64> = vec![1, 2, 3];
    let b: Vec<i64> = vec![4, 5, 6];
    let c: Vec<i64> = vec![1, 2, 3];
    let ab = cosine_similarity(&a, &b).unwrap();
    assert!((value_f64(&ab) - 0.9746318).abs() < 1e-6);
    assert_eq!(ab.dot_ab, 32);
    assert_eq!(ab.norm_a, 14);
    assert_eq!(ab.norm_b, 77);
    let ac = cosine_similarity(&a, &c).unwrap();
    assert_eq!(value_f64(&ac), 1.0);
}

#[test]
fn test_self_similarity_is_one() {
    let cases: Vec<Vec<i64>> = vec![
        vec![1],
        vec![3, -4],
        vec![7, 0, 2, 5],
        vec![-262144, 262144, 1],
    ];
    for v in cases {
        let s = cosine_similarity(&v, &v).unwrap();
        assert!(s.is_one());
        assert_eq!(value_f64(&s), 1.0);
    }
}

#[test]
fn test_symmetry() {
    let a: Vec<i64> = vec![2, -7, 11, 0];
    let b: Vec<i64> = vec![5, 3, -1, 9];
    let ab = cosine_similarity(&a, &b).unwrap();
    let ba = cosine_similarity(&b, &a).unwrap();
    assert_eq!(ab.dot_ab, ba.dot_ab);
    assert_eq!(ab.norm_a, ba.norm_b);
    assert_eq!(ab.norm_b, ba.norm_a);
    assert_eq!(value_f64(&ab), value_f64(&ba));
}

#[test]
fn test_cosine_zero_vector_undefined() {
    let a: Vec<i64> = vec![0, 0, 0];
    let b: Vec<i64> = vec![1, 2, 3];
    assert_eq!(cosine_similarity(&a, &b), Err(VectorError::Undefined));
    assert_eq!(cosine_similarity(&b, &a), Err(VectorError::Undefined));
    let empty: Vec<i64> = Vec::new();
    assert_eq!(cosine_similarity(&empty, &empty), Err(VectorError::Undefined));
}

#[test]
fn test_cosine_dimension_mismatch() {
    let a: Vec<i64> = vec![1, 2];
    let b: Vec<i64> = vec![1, 2, 3];
    assert_eq!(cosine_similarity(&a, &b), Err(VectorError::DimensionMismatch));
}

#[test]
fn test_centroid_singleton() {
    let v: Vec<i64> = vec![4, -9, 15];
    let group: Vec<Vec<i64>> = vec![v.clone()];
    let c = centroid(&group).unwrap();
    assert_eq!(c.sums, v);
    assert_eq!(c.count, 1);
}

#[test]
fn test_centroid_mean() {
    let group: Vec<Vec<i64>> = vec![vec![1, 3], vec![3, 5]];
    let c = centroid(&group).unwrap();
    assert_eq!(c.sums, vec![4, 8]);
    assert_eq!(c.count, 2);
}

#[test]
fn test_centroid_empty_group() {
    let group: Vec<Vec<i64>> = Vec::new();
    assert!(matches!(centroid(&group), Err(VectorError::EmptyGroup)));
}

#[test]
fn test_centroid_dimension_mismatch() {
    let group: Vec<Vec<i64>> = vec![vec![1, 2], vec![1, 2, 3]];
    assert!(matches!(centroid(&group), Err(VectorError::DimensionMismatch)));
}
