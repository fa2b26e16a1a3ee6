//! The scoring engine: given a group of messages and their embedding
//! vectors, score each message by its exact cosine similarity to the group
//! centroid.
//!
//! The centroid is carried as the exact sum vector of the group; cosine
//! similarity is invariant under the division by the group size, so scoring
//! against the sum vector scores against the centroid exactly.
//!
//! A quadratic alternative policy is also offered: the exact pairwise
//! similarities of one message to every other message of the group, whose
//! mean approximates the centroid score.

use crate::models::ScoreRecord;
use crate::vector::{
    COORD_LIMIT, Centroid, DIM_LIMIT, GROUP_LIMIT, SUM_LIMIT, Score, Similarity, VectorError,
    centroid, coords_bounded, dot, dot_i128, ints_of, lemma_dot_bound, lemma_dot_self_nonneg,
    same_dims, sum_vectors, views_of,
};
use vstd::prelude::*;

verus! {

/// One scored message: the message's sink id paired with its score.
pub struct ScoredMessage {
    pub message_id: i32,
    pub score: Score,
}

/// What a message's score must be, given the group's exact sum vector and
/// the message's own vector: `Undefined` exactly when either is zero, and
/// otherwise the exact similarity triple of the two.
pub open spec fn score_matches(sc: Score, sums: Seq<int>, v: Seq<int>) -> bool {
    if dot(sums, sums) == 0 || dot(v, v) == 0 {
        sc is Undefined
    } else {
        sc matches Score::Defined(s) && {
            &&& s.dot_ab == dot(sums, v)
            &&& s.norm_a == dot(sums, sums)
            &&& s.norm_b == dot(v, v)
            &&& s.wf()
        }
    }
}

/// Score every message of a group by its similarity to the group centroid.
///
/// `ids[i]` is the sink id of the message embedded as `vectors[i]`.  Returns
/// `EmptyGroup` exactly when the group holds no messages and
/// `DimensionMismatch` exactly when two vectors differ in length.  A group
/// of a single nonzero vector scores exactly one.
pub fn score_group(ids: &Vec<i32>, vectors: &Vec<Vec<i64>>) -> (r: Result<
    Vec<ScoredMessage>,
    VectorError,
>)
    requires
        ids@.len() == vectors@.len(),
        vectors@.len() <= GROUP_LIMIT,
        forall|i: int| 0 <= i < vectors@.len() ==> (#[trigger] vectors@[i])@.len() <= DIM_LIMIT,
        forall|i: int| 0 <= i < vectors@.len()
            ==> coords_bounded(ints_of((#[trigger] vectors@[i])@), COORD_LIMIT as int),
    ensures
        match r {
            Ok(scores) => ({
                let views = views_of(vectors@);
                let sums = sum_vectors(views);
                &&& vectors@.len() > 0
                &&& same_dims(views)
                &&& scores@.len() == vectors@.len()
                &&& forall|i: int| 0 <= i < scores@.len()
                    ==> (#[trigger] scores@[i]).message_id == ids@[i]
                &&& forall|i: int| 0 <= i < scores@.len()
                    ==> score_matches((#[trigger] scores@[i]).score, sums, views[i])
                &&& (vectors@.len() == 1 && dot(views[0], views[0]) != 0
                    ==> (scores@[0].score matches Score::Defined(s) && s.spec_is_one()))
            }),
            Err(VectorError::EmptyGroup) => vectors@.len() == 0,
            Err(VectorError::DimensionMismatch) => vectors@.len() > 0 && !same_dims(
                views_of(vectors@),
            ),
            Err(VectorError::Undefined) => false,
        },
{
    let ghost views: Seq<Seq<int>> = views_of(vectors@);
    let cent: Centroid = match centroid(vectors) {
        Ok(c) => c,
        Err(e) => {
            return Err(e);
        },
    };
    let ghost gsums: Seq<int> = ints_of(cent.sums@);
    let norm_c: i128 = dot_i128(&cent.sums, &cent.sums);
    proof {
        lemma_dot_self_nonneg(gsums);
        lemma_dot_bound(gsums, gsums, SUM_LIMIT as int, SUM_LIMIT as int);
    }
    let mut scores: Vec<ScoredMessage> = Vec::new();
    let mut i: usize = 0;
    while i < vectors.len()
        invariant
            0 <= i <= vectors@.len(),
            ids@.len() == vectors@.len(),
            vectors@.len() <= GROUP_LIMIT,
            views == views_of(vectors@),
            same_dims(views),
            vectors@.len() > 0,
            forall|t: int| 0 <= t < vectors@.len() ==> (#[trigger] vectors@[t])@.len()
                <= DIM_LIMIT,
            forall|t: int| 0 <= t < vectors@.len()
                ==> coords_bounded(ints_of((#[trigger] vectors@[t])@), COORD_LIMIT as int),
            cent.sums@.len() == vectors@[0]@.len(),
            coords_bounded(gsums, SUM_LIMIT as int),
            gsums == ints_of(cent.sums@),
            gsums == sum_vectors(views),
            norm_c == dot(gsums, gsums),
            0 <= norm_c <= 0x1000000000000000000,
            scores@.len() == i,
            forall|t: int| 0 <= t < i ==> (#[trigger] scores@[t]).message_id == ids@[t],
            forall|t: int| 0 <= t < i ==> score_matches(
                (#[trigger] scores@[t]).score,
                gsums,
                views[t],
            ),
        decreases vectors@.len() - i,
    {
        let row: &Vec<i64> = &vectors[i];
        proof {
            assert(views[i as int] == ints_of(row@));
            assert(views[i as int].len() == views[0].len());
        }
        let norm_v: i128 = dot_i128(row, row);
        proof {
            lemma_dot_self_nonneg(ints_of(row@));
        }
        let sc: Score = if norm_c == 0 || norm_v == 0 {
            Score::Undefined
        } else {
            let d: i128 = dot_i128(&cent.sums, row);
            proof {
                lemma_dot_bound(gsums, ints_of(row@), SUM_LIMIT as int, COORD_LIMIT as int);
                lemma_dot_bound(
                    ints_of(row@),
                    ints_of(row@),
                    COORD_LIMIT as int,
                    COORD_LIMIT as int,
                );
                assert(norm_c * norm_v <= 0x1000000000000000000000000000000) by (nonlinear_arith)
                    requires
                        0 <= norm_c <= 0x1000000000000000000,
                        0 <= norm_v <= 0x1000000000000,
                ;
            }
            Score::Defined(Similarity { dot_ab: d, norm_a: norm_c, norm_b: norm_v })
        };
        scores.push(ScoredMessage { message_id: ids[i], score: sc });
        i = i + 1;
    }
    proof {
        if vectors@.len() == 1 && dot(views[0], views[0]) != 0 {
            assert(gsums == views[0]);
        }
    }
    Ok(scores)
}

/// Alternative quadratic policy: the exact similarity of message `i` to
/// every other message of the group, in group order.  The mean of these
/// values (a division the caller performs) is the message's pairwise-mean
/// score; on small groups it agrees closely with the centroid score.
///
/// Returns `DimensionMismatch` exactly when two vectors differ in length,
/// and `Undefined` exactly when the group holds a zero vector.
pub fn pairwise_similarities(vectors: &Vec<Vec<i64>>, i: usize) -> (r: Result<
    Vec<Similarity>,
    VectorError,
>)
    requires
        i < vectors@.len(),
        vectors@.len() <= GROUP_LIMIT,
        forall|t: int| 0 <= t < vectors@.len() ==> (#[trigger] vectors@[t])@.len() <= DIM_LIMIT,
        forall|t: int| 0 <= t < vectors@.len()
            ==> coords_bounded(ints_of((#[trigger] vectors@[t])@), COORD_LIMIT as int),
    ensures
        match r {
            Ok(sims) => ({
                let views = views_of(vectors@);
                &&& same_dims(views)
                &&& forall|j: int| 0 <= j < views.len() ==> dot(
                    #[trigger] views[j],
                    views[j],
                ) != 0
                &&& sims@.len() == vectors@.len() - 1
                &&& forall|j: int| #![trigger views[j]] 0 <= j < views.len() && j != i ==> ({
                    let t = if j < i { j } else { j - 1 };
                    &&& sims@[t].dot_ab == dot(views[j], views[i as int])
                    &&& sims@[t].norm_a == dot(views[j], views[j])
                    &&& sims@[t].norm_b == dot(views[i as int], views[i as int])
                    &&& sims@[t].wf()
                })
            }),
            Err(VectorError::DimensionMismatch) => !same_dims(views_of(vectors@)),
            Err(VectorError::Undefined) => ({
                let views = views_of(vectors@);
                &&& same_dims(views)
                &&& exists|j: int| 0 <= j < views.len() && dot(#[trigger] views[j], views[j]) == 0
            }),
            Err(VectorError::EmptyGroup) => false,
        },
{
    let ghost views: Seq<Seq<int>> = views_of(vectors@);
    let dim: usize = vectors[0].len();
    let mut k: usize = 0;
    while k < vectors.len()
        invariant
            0 <= k <= vectors@.len(),
            dim == vectors@[0]@.len(),
            views == views_of(vectors@),
            forall|t: int| 0 <= t < k ==> (#[trigger] views[t]).len() == dim,
        decreases vectors@.len() - k,
    {
        if vectors[k].len() != dim {
            proof {
                assert(views[k as int].len() == vectors@[k as int]@.len());
                assert(views[0].len() == dim);
                assert(!same_dims(views));
            }
            return Err(VectorError::DimensionMismatch);
        }
        k = k + 1;
    }
    proof {
        assert(same_dims(views));
    }
    let mut norms: Vec<i128> = Vec::new();
    let mut k2: usize = 0;
    while k2 < vectors.len()
        invariant
            0 <= k2 <= vectors@.len(),
            vectors@.len() <= GROUP_LIMIT,
            views == views_of(vectors@),
            same_dims(views),
            forall|t: int| 0 <= t < vectors@.len() ==> (#[trigger] vectors@[t])@.len()
                <= DIM_LIMIT,
            forall|t: int| 0 <= t < vectors@.len()
                ==> coords_bounded(ints_of((#[trigger] vectors@[t])@), COORD_LIMIT as int),
            norms@.len() == k2,
            forall|t: int| 0 <= t < k2 ==> #[trigger] norms@[t] == dot(views[t], views[t]),
            forall|t: int| 0 <= t < k2 ==> #[trigger] norms@[t] != 0,
        decreases vectors@.len() - k2,
    {
        let row: &Vec<i64> = &vectors[k2];
        proof {
            assert(views[k2 as int] == ints_of(row@));
        }
        let nv: i128 = dot_i128(row, row);
        if nv == 0 {
            proof {
                assert(dot(views[k2 as int], views[k2 as int]) == 0);
            }
            return Err(VectorError::Undefined);
        }
        norms.push(nv);
        k2 = k2 + 1;
    }
    let base: &Vec<i64> = &vectors[i];
    let norm_i: i128 = norms[i];
    proof {
        assert(views[i as int] == ints_of(base@));
        assert(views[i as int].len() == views[0].len());
        lemma_dot_self_nonneg(views[i as int]);
        assert forall|t: int| 0 <= t < vectors@.len() implies dot(
            #[trigger] views[t],
            views[t],
        ) != 0 by {
            assert(norms@[t] != 0);
            assert(norms@[t] == dot(views[t], views[t]));
        }
    }
    let mut sims: Vec<Similarity> = Vec::new();
    let mut j: usize = 0;
    while j < vectors.len()
        invariant
            0 <= j <= vectors@.len(),
            i < vectors@.len(),
            vectors@.len() <= GROUP_LIMIT,
            views == views_of(vectors@),
            same_dims(views),
            forall|t: int| 0 <= t < vectors@.len() ==> (#[trigger] vectors@[t])@.len()
                <= DIM_LIMIT,
            forall|t: int| 0 <= t < vectors@.len()
                ==> coords_bounded(ints_of((#[trigger] vectors@[t])@), COORD_LIMIT as int),
            base == vectors@[i as int],
            norm_i == dot(views[i as int], views[i as int]),
            0 <= norm_i,
            sims@.len() == if j <= i { j as int } else { j - 1 },
            forall|t: int| 0 <= t < vectors@.len() ==> dot(#[trigger] views[t], views[t]) != 0,
            forall|t: int| #![trigger views[t]] 0 <= t < j && t != i ==> ({
                let u = if t < i { t } else { t - 1 };
                &&& sims@[u].dot_ab == dot(views[t], views[i as int])
                &&& sims@[u].norm_a == dot(views[t], views[t])
                &&& sims@[u].norm_b == dot(views[i as int], views[i as int])
                &&& sims@[u].wf()
            }),
        decreases vectors@.len() - j,
    {
        if j != i {
            let row: &Vec<i64> = &vectors[j];
            proof {
                assert(views[j as int] == ints_of(row@));
                assert(views[i as int] == ints_of(base@));
                assert(views[j as int].len() == views[0].len());
                assert(views[i as int].len() == views[0].len());
            }
            let nv: i128 = dot_i128(row, row);
            let d: i128 = dot_i128(row, base);
            proof {
                lemma_dot_self_nonneg(ints_of(row@));
                lemma_dot_bound(
                    ints_of(row@),
                    ints_of(base@),
                    COORD_LIMIT as int,
                    COORD_LIMIT as int,
                );
                lemma_dot_bound(
                    ints_of(row@),
                    ints_of(row@),
                    COORD_LIMIT as int,
                    COORD_LIMIT as int,
                );
                lemma_dot_bound(
                    ints_of(base@),
                    ints_of(base@),
                    COORD_LIMIT as int,
                    COORD_LIMIT as int,
                );
                assert(nv * norm_i <= 0x1000000000000000000000000000000) by (nonlinear_arith)
                    requires
                        0 <= nv <= 0x1000000000000,
                        0 <= norm_i <= 0x1000000000000,
                ;
            }
            sims.push(Similarity { dot_ab: d, norm_a: nv, norm_b: norm_i });
        }
        j = j + 1;
    }
    Ok(sims)
}

/// Tag a group's scores with the language of the pass, yielding the rows
/// the batched writer hands to the sink, in group order.
pub fn to_score_records(scores: &Vec<ScoredMessage>, lang: &String) -> (r: Vec<ScoreRecord>)
    ensures
        r@.len() == scores@.len(),
        forall|i: int| 0 <= i < scores@.len() ==> {
            &&& (#[trigger] r@[i]).message_id == scores@[i].message_id
            &&& r@[i].lang@ == lang@
            &&& r@[i].prob == scores@[i].score
        },
{
    let mut out: Vec<ScoreRecord> = Vec::new();
    let mut i: usize = 0;
    while i < scores.len()
        invariant
            0 <= i <= scores@.len(),
            out@.len() == i,
            forall|t: int| 0 <= t < i ==> {
                &&& (#[trigger] out@[t]).message_id == scores@[t].message_id
                &&& out@[t].lang@ == lang@
                &&& out@[t].prob == scores@[t].score
            },
        decreases scores@.len() - i,
    {
        let entry: &ScoredMessage = &scores[i];
        out.push(ScoreRecord { message_id: entry.message_id, lang: lang.clone(), prob: entry.score });
        i = i + 1;
    }
    out
}

} // verus!
