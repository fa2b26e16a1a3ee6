//! Pure vector primitives: dot products, cosine similarity and group
//! centroids over fixed-point embedding vectors.
//!
//! A coordinate is an `i64` holding an integer multiple of a small fixed step,
//! so a vector is an exact scaled image of the embedding it stands for.
//! Cosine similarity is invariant under scaling, which lets every similarity
//! be carried as an exact rational: the triple `(dot(a,b), dot(a,a), dot(b,b))`
//! denotes `dot(a,b) / (sqrt(dot(a,a)) * sqrt(dot(b,b)))`.

use vstd::pervasive::VecAdditionalExecFns;
use vstd::prelude::*;

verus! {

/// Largest absolute value a single vector coordinate may take (2^18).
pub const COORD_LIMIT: i64 = 0x40000;

/// Largest dimensionality a vector may have (2^12).
pub const DIM_LIMIT: usize = 0x1000;

/// Largest number of vectors in one group (2^12).
pub const GROUP_LIMIT: usize = 0x1000;

/// Largest absolute value a coordinate of a group sum may take:
/// `GROUP_LIMIT * COORD_LIMIT` (2^30).
pub const SUM_LIMIT: i64 = 0x40000000;

/// The coordinates of `v`, as unbounded integers.
pub open spec fn ints_of(v: Seq<i64>) -> Seq<int> {
    v.map_values(|x: i64| x as int)
}

/// Every coordinate of `s` lies in `[-m, m]`.
pub open spec fn coords_bounded(s: Seq<int>, m: int) -> bool {
    forall|i: int| 0 <= i < s.len() ==> -m <= #[trigger] s[i] <= m
}

/// Mathematical dot product of two equal-length integer vectors.
pub open spec fn dot(a: Seq<int>, b: Seq<int>) -> int
    decreases a.len(),
{
    if a.len() == 0 || b.len() == 0 {
        0
    } else {
        dot(a.drop_last(), b.drop_last()) + a.last() * b.last()
    }
}

/// The dot product never exceeds `len * m1 * m2` in absolute value when the
/// factors' coordinates are bounded by `m1` and `m2`.
pub proof fn lemma_dot_bound(a: Seq<int>, b: Seq<int>, m1: int, m2: int)
    requires
        a.len() == b.len(),
        coords_bounded(a, m1),
        coords_bounded(b, m2),
        0 <= m1,
        0 <= m2,
    ensures
        -(a.len() * m1 * m2) <= dot(a, b) <= a.len() * m1 * m2,
    decreases a.len(),
{
    if a.len() > 0 {
        lemma_dot_bound(a.drop_last(), b.drop_last(), m1, m2);
        assert(-(m1 * m2) <= a.last() * b.last() <= m1 * m2) by (nonlinear_arith)
            requires
                -m1 <= a.last() <= m1,
                -m2 <= b.last() <= m2,
                0 <= m1,
                0 <= m2,
        ;
        assert((a.len() - 1) * (m1 * m2) + (m1 * m2) == a.len() * (m1 * m2)) by (nonlinear_arith);
        assert(a.len() * m1 * m2 == a.len() * (m1 * m2)) by (nonlinear_arith);
        assert((a.len() - 1) * m1 * m2 == (a.len() - 1) * (m1 * m2)) by (nonlinear_arith);
    }
}

/// The dot product is symmetric in its two factors.
pub proof fn lemma_dot_comm(a: Seq<int>, b: Seq<int>)
    requires
        a.len() == b.len(),
    ensures
        dot(a, b) == dot(b, a),
    decreases a.len(),
{
    if a.len() > 0 {
        lemma_dot_comm(a.drop_last(), b.drop_last());
    }
}

/// A vector's dot product with itself is never negative.
pub proof fn lemma_dot_self_nonneg(a: Seq<int>)
    ensures
        0 <= dot(a, a),
    decreases a.len(),
{
    if a.len() > 0 {
        lemma_dot_self_nonneg(a.drop_last());
        assert(0 <= a.last() * a.last()) by (nonlinear_arith);
    }
}

/// How a similarity or centroid computation can fail.
#[derive(Clone, Copy, Debug, PartialEq, Eq, Structural)]
pub enum VectorError {
    /// A group held no vectors at all.
    EmptyGroup,
    /// Two vectors that had to share a dimensionality did not.
    DimensionMismatch,
    /// A zero vector was involved, so the similarity has no value.
    Undefined,
}

/// An exact cosine similarity: the rational
/// `dot_ab / (sqrt(norm_a) * sqrt(norm_b))`, kept unevaluated so that no
/// rounding ever happens inside the library.
#[derive(Clone, Copy, Debug, PartialEq, Eq, Structural)]
pub struct Similarity {
    /// Dot product of the two compared vectors.
    pub dot_ab: i128,
    /// Squared euclidean norm of the first vector.
    pub norm_a: i128,
    /// Squared euclidean norm of the second vector.
    pub norm_b: i128,
}

impl Similarity {
    /// Bounds under which the comparisons on a similarity cannot overflow.
    pub open spec fn wf(self) -> bool {
        &&& -0x1000_0000_0000_0000 <= self.dot_ab <= 0x1000_0000_0000_0000
        &&& 0 <= self.norm_a
        &&& 0 <= self.norm_b
        &&& self.norm_a * self.norm_b <= 0x1000000000000000000000000000000
    }

    /// The similarity denotes exactly the value one.
    pub open spec fn spec_is_one(self) -> bool {
        self.dot_ab > 0 && self.dot_ab * self.dot_ab == self.norm_a * self.norm_b
    }

    /// Two similarities denote the same rational value: equal numerators over
    /// equal products of squared norms.
    pub open spec fn same_value(self, other: Similarity) -> bool {
        self.dot_ab == other.dot_ab && self.norm_a * self.norm_b == other.norm_a * other.norm_b
    }

    /// Whether the denoted value is exactly one, decided without rounding.
    pub fn is_one(&self) -> (r: bool)
        requires
            self.wf(),
        ensures
            r == self.spec_is_one(),
    {
        proof {
            assert(self.dot_ab * self.dot_ab <= 0x1000000000000000000000000000000)
                by (nonlinear_arith)
                requires
                    -0x1000_0000_0000_0000 <= self.dot_ab <= 0x1000_0000_0000_0000,
            ;
            assert(0 <= self.dot_ab * self.dot_ab) by (nonlinear_arith);
        }
        self.dot_ab > 0 && self.dot_ab * self.dot_ab == self.norm_a * self.norm_b
    }
}

/// A message's score: its exact similarity to the group centroid, or
/// `Undefined` where a zero vector left the similarity without a value.
#[derive(Clone, Copy, Debug, PartialEq, Eq, Structural)]
pub enum Score {
    /// The similarity has the denoted exact value.
    Defined(Similarity),
    /// A zero vector was involved; there is no value to report.
    Undefined,
}

/// Dot product accumulated exactly in 128 bits.
pub(crate) fn dot_i128(a: &Vec<i64>, b: &Vec<i64>) -> (r: i128)
    requires
        a@.len() == b@.len(),
        a@.len() <= GROUP_LIMIT,
        coords_bounded(ints_of(a@), SUM_LIMIT as int),
        coords_bounded(ints_of(b@), SUM_LIMIT as int),
    ensures
        r == dot(ints_of(a@), ints_of(b@)),
{
    let ghost ga: Seq<int> = ints_of(a@);
    let ghost gb: Seq<int> = ints_of(b@);
    let mut acc: i128 = 0;
    let mut i: usize = 0;
    while i < a.len()
        invariant
            0 <= i <= a@.len(),
            a@.len() == b@.len(),
            a@.len() <= GROUP_LIMIT,
            ga == ints_of(a@),
            gb == ints_of(b@),
            coords_bounded(ga, SUM_LIMIT as int),
            coords_bounded(gb, SUM_LIMIT as int),
            acc == dot(ga.take(i as int), gb.take(i as int)),
            -(i * 0x1000_0000_0000_0000) <= acc <= i * 0x1000_0000_0000_0000,
        decreases a@.len() - i,
    {
        proof {
            lemma_dot_bound(ga.take(i as int), gb.take(i as int), SUM_LIMIT as int, SUM_LIMIT as int);
            assert(-0x1000_0000_0000_0000 <= ga[i as int] * gb[i as int]
                <= 0x1000_0000_0000_0000) by (nonlinear_arith)
                requires
                    -0x40000000 <= ga[i as int] <= 0x40000000,
                    -0x40000000 <= gb[i as int] <= 0x40000000,
            ;
            assert(ga.take(i + 1).drop_last() =~= ga.take(i as int));
            assert(gb.take(i + 1).drop_last() =~= gb.take(i as int));
        }
        let p: i128 = (a[i] as i128) * (b[i] as i128);
        acc = acc + p;
        i = i + 1;
    }
    proof {
        assert(ga.take(a@.len() as int) =~= ga);
        assert(gb.take(b@.len() as int) =~= gb);
    }
    acc
}

/// Exact cosine similarity of two fixed-point vectors.
///
/// Returns `DimensionMismatch` exactly when the lengths differ, `Undefined`
/// exactly when either vector is the zero vector (that includes the empty
/// vector), and otherwise the exact rational triple.  Comparing a nonzero
/// vector with itself always yields exactly one.
pub fn cosine_similarity(a: &Vec<i64>, b: &Vec<i64>) -> (r: Result<Similarity, VectorError>)
    requires
        a@.len() <= DIM_LIMIT,
        b@.len() <= DIM_LIMIT,
        coords_bounded(ints_of(a@), COORD_LIMIT as int),
        coords_bounded(ints_of(b@), COORD_LIMIT as int),
    ensures
        match r {
            Ok(s) => {
                &&& a@.len() == b@.len()
                &&& dot(ints_of(a@), ints_of(a@)) != 0
                &&& dot(ints_of(b@), ints_of(b@)) != 0
                &&& s.dot_ab == dot(ints_of(a@), ints_of(b@))
                &&& s.norm_a == dot(ints_of(a@), ints_of(a@))
                &&& s.norm_b == dot(ints_of(b@), ints_of(b@))
                &&& s.wf()
                &&& (a@ == b@ ==> s.spec_is_one())
            },
            Err(VectorError::DimensionMismatch) => a@.len() != b@.len(),
            Err(VectorError::Undefined) => {
                &&& a@.len() == b@.len()
                &&& (dot(ints_of(a@), ints_of(a@)) == 0 || dot(ints_of(b@), ints_of(b@)) == 0)
            },
            Err(VectorError::EmptyGroup) => false,
        },
{
    let ghost ga: Seq<int> = ints_of(a@);
    let ghost gb: Seq<int> = ints_of(b@);
    if a.len() != b.len() {
        return Err(VectorError::DimensionMismatch);
    }
    proof {
        assert(coords_bounded(ga, SUM_LIMIT as int));
        assert(coords_bounded(gb, SUM_LIMIT as int));
    }
    let norm_a: i128 = dot_i128(a, a);
    let norm_b: i128 = dot_i128(b, b);
    if norm_a == 0 || norm_b == 0 {
        return Err(VectorError::Undefined);
    }
    let dot_ab: i128 = dot_i128(a, b);
    proof {
        lemma_dot_bound(ga, gb, COORD_LIMIT as int, COORD_LIMIT as int);
        lemma_dot_bound(ga, ga, COORD_LIMIT as int, COORD_LIMIT as int);
        lemma_dot_bound(gb, gb, COORD_LIMIT as int, COORD_LIMIT as int);
        lemma_dot_self_nonneg(ga);
        lemma_dot_self_nonneg(gb);
        assert(norm_a * norm_b <= 0x1000000000000000000000000000000) by (nonlinear_arith)
            requires
                0 <= norm_a <= 0x1000000000000,
                0 <= norm_b <= 0x1000000000000,
        ;
        if a@ == b@ {
            assert(dot_ab == norm_a);
            lemma_dot_self_nonneg(ga);
        }
    }
    Ok(Similarity { dot_ab, norm_a, norm_b })
}

/// Law: cosine similarity is symmetric.  The results of comparing `a` with
/// `b` and `b` with `a` denote the same rational value: the numerators agree
/// because the dot product is symmetric, and the two squared norms only trade
/// places under the square-root product.
pub proof fn lemma_cosine_symmetric(s_ab: Similarity, s_ba: Similarity, a: Seq<int>, b: Seq<int>)
    requires
        a.len() == b.len(),
        s_ab.dot_ab == dot(a, b),
        s_ab.norm_a == dot(a, a),
        s_ab.norm_b == dot(b, b),
        s_ba.dot_ab == dot(b, a),
        s_ba.norm_a == dot(b, b),
        s_ba.norm_b == dot(a, a),
    ensures
        s_ab.same_value(s_ba),
{
    lemma_dot_comm(a, b);
    assert(s_ab.norm_a * s_ab.norm_b == s_ba.norm_a * s_ba.norm_b) by (nonlinear_arith)
        requires
            s_ab.norm_a == s_ba.norm_b,
            s_ab.norm_b == s_ba.norm_a,
    ;
}

/// The integer images of a group of fixed-point vectors.
pub open spec fn views_of(vs: Seq<Vec<i64>>) -> Seq<Seq<int>> {
    vs.map_values(|v: Vec<i64>| ints_of(v@))
}

/// Every vector of the group has the dimensionality of the first one.
pub open spec fn same_dims(vss: Seq<Seq<int>>) -> bool {
    forall|i: int| 0 <= i < vss.len() ==> (#[trigger] vss[i]).len() == vss[0].len()
}

/// Element-wise sum of two equal-length integer vectors.
pub open spec fn add_vec(a: Seq<int>, b: Seq<int>) -> Seq<int> {
    Seq::new(a.len(), |j: int| a[j] + b[j])
}

/// Element-wise sum of a group of integer vectors; the sum of a single
/// vector is that vector itself.
pub open spec fn sum_vectors(vss: Seq<Seq<int>>) -> Seq<int>
    decreases vss.len(),
{
    if vss.len() == 0 {
        Seq::empty()
    } else if vss.len() == 1 {
        vss[0]
    } else {
        add_vec(sum_vectors(vss.drop_last()), vss.last())
    }
}

/// An exact group centroid: the element-wise mean `sums[j] / count`, kept as
/// the exact sum vector together with the group size.
pub struct Centroid {
    /// Element-wise sum of the group's vectors.
    pub sums: Vec<i64>,
    /// How many vectors the group held.
    pub count: usize,
}

/// Exact centroid (element-wise mean) of a non-empty group of equal-length
/// fixed-point vectors.
///
/// Returns `EmptyGroup` exactly when the group holds no vectors, and
/// `DimensionMismatch` exactly when two of its vectors differ in length.
/// The centroid of a single vector is that vector itself.
pub fn centroid(vectors: &Vec<Vec<i64>>) -> (r: Result<Centroid, VectorError>)
    requires
        vectors@.len() <= GROUP_LIMIT,
        forall|i: int| 0 <= i < vectors@.len() ==> (#[trigger] vectors@[i])@.len() <= DIM_LIMIT,
        forall|i: int| 0 <= i < vectors@.len()
            ==> coords_bounded(ints_of((#[trigger] vectors@[i])@), COORD_LIMIT as int),
    ensures
        match r {
            Ok(c) => {
                &&& vectors@.len() > 0
                &&& same_dims(views_of(vectors@))
                &&& c.count == vectors@.len()
                &&& ints_of(c.sums@) == sum_vectors(views_of(vectors@))
                &&& c.sums@.len() == vectors@[0]@.len()
                &&& coords_bounded(ints_of(c.sums@), SUM_LIMIT as int)
                &&& (vectors@.len() == 1 ==> c.sums@ == vectors@[0]@)
            },
            Err(VectorError::EmptyGroup) => vectors@.len() == 0,
            Err(VectorError::DimensionMismatch) => vectors@.len() > 0 && !same_dims(
                views_of(vectors@),
            ),
            Err(VectorError::Undefined) => false,
        },
{
    let ghost views: Seq<Seq<int>> = views_of(vectors@);
    if vectors.len() == 0 {
        return Err(VectorError::EmptyGroup);
    }
    let dim: usize = vectors[0].len();
    let mut i: usize = 1;
    while i < vectors.len()
        invariant
            1 <= i <= vectors@.len(),
            dim == vectors@[0]@.len(),
            views == views_of(vectors@),
            forall|k: int| 0 <= k < i ==> (#[trigger] views[k]).len() == dim,
        decreases vectors@.len() - i,
    {
        if vectors[i].len() != dim {
            proof {
                assert(views[i as int].len() == vectors@[i as int]@.len());
                assert(views[0].len() == dim);
                assert(!same_dims(views));
            }
            return Err(VectorError::DimensionMismatch);
        }
        i = i + 1;
    }
    proof {
        assert(forall|k: int| 0 <= k < views.len()
            ==> (#[trigger] views[k]).len() == vectors@[k]@.len());
        assert(same_dims(views));
    }
    let mut sums: Vec<i64> = Vec::new();
    let mut j: usize = 0;
    while j < dim
        invariant
            0 <= j <= dim,
            dim == vectors@[0]@.len(),
            vectors@.len() > 0,
            sums@.len() == j,
            forall|t: int| 0 <= t < j ==> sums@[t] == vectors@[0]@[t],
        decreases dim - j,
    {
        let row: &Vec<i64> = &vectors[0];
        sums.push(row[j]);
        j = j + 1;
    }
    assert(sums@ =~= vectors@[0]@);
    assert(ints_of(sums@) =~= sum_vectors(views.take(1)));
    let mut k: usize = 1;
    while k < vectors.len()
        invariant
            1 <= k <= vectors@.len(),
            vectors@.len() <= GROUP_LIMIT,
            dim == vectors@[0]@.len(),
            dim <= DIM_LIMIT,
            views == views_of(vectors@),
            same_dims(views),
            forall|i2: int| 0 <= i2 < vectors@.len()
                ==> coords_bounded(ints_of((#[trigger] vectors@[i2])@), COORD_LIMIT as int),
            sums@.len() == dim,
            ints_of(sums@) == sum_vectors(views.take(k as int)),
            coords_bounded(ints_of(sums@), k * COORD_LIMIT),
        decreases vectors@.len() - k,
    {
        let ghost base: Seq<i64> = sums@;
        let row: &Vec<i64> = &vectors[k];
        proof {
            assert(views[k as int] == ints_of(row@));
            assert(views[k as int].len() == row@.len());
            assert(views[k as int].len() == views[0].len());
            assert(k * COORD_LIMIT <= GROUP_LIMIT * COORD_LIMIT) by (nonlinear_arith)
                requires
                    1 <= k <= GROUP_LIMIT,
            ;
        }
        let mut j2: usize = 0;
        while j2 < dim
            invariant
                0 <= j2 <= dim,
                k < vectors@.len(),
                vectors@.len() <= GROUP_LIMIT,
                dim == vectors@[0]@.len(),
                views == views_of(vectors@),
                same_dims(views),
                row == vectors@[k as int],
                row@.len() == dim,
                coords_bounded(ints_of(row@), COORD_LIMIT as int),
                sums@.len() == dim,
                base.len() == dim,
                coords_bounded(ints_of(base), k * COORD_LIMIT),
                k * COORD_LIMIT <= GROUP_LIMIT * COORD_LIMIT,
                forall|t: int| 0 <= t < j2 ==> sums@[t] == base[t] + row@[t],
                forall|t: int| j2 <= t < dim ==> sums@[t] == base[t],
            decreases dim - j2,
        {
            proof {
                assert(sums@[j2 as int] == base[j2 as int]);
                assert(-(k * COORD_LIMIT) <= ints_of(base)[j2 as int] <= k * COORD_LIMIT);
                assert(-COORD_LIMIT <= ints_of(row@)[j2 as int] <= COORD_LIMIT);
            }
            let updated: i64 = sums[j2] + row[j2];
            sums.set(j2, updated);
            j2 = j2 + 1;
        }
        proof {
            assert(ints_of(sums@) =~= add_vec(ints_of(base), ints_of(row@)));
            assert(views.take(k + 1).drop_last() =~= views.take(k as int));
            assert(ints_of(sums@) == sum_vectors(views.take(k + 1)));
            assert(forall|t: int| 0 <= t < dim
                ==> -((k + 1) * COORD_LIMIT) <= #[trigger] ints_of(sums@)[t] <= (k + 1)
                    * COORD_LIMIT);
        }
        k = k + 1;
    }
    proof {
        assert(views.take(vectors@.len() as int) =~= views);
        assert(forall|t: int| 0 <= t < sums@.len()
            ==> -SUM_LIMIT <= #[trigger] ints_of(sums@)[t] <= SUM_LIMIT);
        if vectors@.len() == 1 {
            assert(ints_of(sums@) == views[0]);
            assert forall|t: int| 0 <= t < sums@.len() implies #[trigger] sums@[t]
                == vectors@[0]@[t] by {
                assert(ints_of(sums@)[t] == ints_of(vectors@[0]@)[t]);
            }
            assert(sums@ =~= vectors@[0]@);
        }
    }
    Ok(Centroid { sums, count: vectors.len() })
}

} // verus!
