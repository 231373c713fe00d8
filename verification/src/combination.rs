//! The batch combination engine.
//!
//! Given many (commitment, evaluation-table) pairs and the two random scales
//! `polyscale` and `evalscale`, the verifier folds all claims into a single
//! randomized check: one combined scalar (`combined_inner_product`) and one
//! scalar/point list for a single multi-scalar multiplication
//! (`combine_commitments`), with `combine_evaluations` as the scalar-side
//! dual. The soundness of the batching rests on one rule proved here: the
//! running power of `polyscale` advances once per degree-chunk, continuously
//! across chunk boundaries and across polynomials, and the commitment side
//! and the evaluation side walk exactly the same exponent sequence.

use vstd::prelude::*;

verus! {

use crate::commitment::{scalars_view, PolyComm};
use crate::curve::{all_reduced, points_view, Point};
use crate::field::{
    eval_poly, f_add, f_mul, f_pow, lemma_f_add_zero, lemma_f_mul_comm, lemma_f_mul_one,
    reduced, Scalar,
};
use crate::transcript::Sponge;

/// The evaluation of one (possibly chunked) polynomial at a set of points:
/// its commitment, and a table whose outer index is the evaluation point and
/// whose inner index is the degree-chunk.
#[derive(Clone, Debug, PartialEq, Eq)]
pub struct Evaluation {
    /// The commitment of the polynomial being evaluated; more than one chunk
    /// means the polynomial exceeded the maximum single-commitment degree.
    pub commitment: PolyComm<Point>,
    /// The evaluation table: one row per evaluation point, one column per
    /// degree-chunk.
    pub evaluations: Vec<Vec<Scalar>>,
}

/// Everything the final opening check consumes: the transcript, the
/// evaluations, the shared evaluation points, the two scales, the externally
/// produced opening proof, and the precomputed combined inner product. Built
/// once per verification call and consumed immediately.
pub struct BatchEvaluationProof<'a, OpeningProof> {
    /// The sponge used to generate and absorb the challenges.
    pub sponge: Sponge,
    /// One entry per polynomial.
    pub evaluations: Vec<Evaluation>,
    /// The evaluation points, shared across all entries.
    pub evaluation_points: Vec<Scalar>,
    /// The scale weighting polynomials and their chunks.
    pub polyscale: Scalar,
    /// The scale weighting the evaluation points within one chunk.
    pub evalscale: Scalar,
    /// The batched opening proof, produced by the folding protocol.
    pub opening: &'a OpeningProof,
    /// The combined inner product the proof is expected to certify.
    pub combined_inner_product: Scalar,
}

/// The residue table of an evaluation table.
pub open spec fn table_view(t: Seq<Vec<Scalar>>) -> Seq<Seq<int>> {
    Seq::new(t.len(), |j: int| scalars_view(t[j]@))
}

/// Evaluates the polynomial with the given coefficients (low degree first)
/// at `x`, by Horner's rule.
pub fn eval_polynomial(coeffs: &[Scalar], x: Scalar) -> (r: Scalar)
    requires
        all_reduced(scalars_view(coeffs@)),
        x.wf(),
    ensures
        r.wf(),
        r@ == eval_poly(scalars_view(coeffs@), x@),
{
    let ghost cv: Seq<int> = scalars_view(coeffs@);
    let n: usize = coeffs.len();
    let mut res: Scalar = Scalar::zero();
    let mut j: usize = n;
    while j > 0
        invariant
            n == coeffs@.len(),
            cv == scalars_view(coeffs@),
            all_reduced(cv),
            x.wf(),
            j <= n,
            res.wf(),
            res@ == eval_poly(cv.skip(j as int), x@),
        decreases j,
    {
        proof {
            assert(cv[j - 1] == coeffs@[j - 1]@);
            assert(cv.skip(j as int - 1)[0] == cv[j - 1]);
            assert(cv.skip(j as int - 1).skip(1) =~= cv.skip(j as int));
        }
        j = j - 1;
        res = coeffs[j].add(x.mul(res));
    }
    proof {
        assert(cv.skip(0) =~= cv);
    }
    res
}

/// The chunk columns of one polynomial's table: column `i` collects entry
/// `i` of every row, i.e. one segment's values at every evaluation point.
/// The first row's length decides the column count.
pub open spec fn poly_columns(p: Seq<Seq<int>>) -> Seq<Seq<int>> {
    Seq::new(
        if p.len() == 0 {
            0
        } else {
            p[0].len()
        },
        |i: int| Seq::new(p.len(), |j: int| p[j][i]),
    )
}

/// All chunk columns of all polynomials, in processing order. A polynomial
/// whose first row is empty contributes no column — exactly the entries the
/// combination skips.
pub open spec fn columns_list(polys: Seq<Seq<Seq<int>>>) -> Seq<Seq<int>>
    decreases polys.len(),
{
    if polys.len() == 0 {
        Seq::empty()
    } else {
        poly_columns(polys[0]) + columns_list(polys.skip(1))
    }
}

/// The combined inner product restricted to the first `t` chunk columns:
/// column `t - 1` is evaluated at `evalscale` and weighted by
/// `polyscale^(t - 1)` — the exponent is the column's global position, never
/// reset at a polynomial boundary.
pub open spec fn cip_prefix(cols: Seq<Seq<int>>, ps: int, es: int, t: int) -> int
    decreases t,
{
    if t <= 0 {
        0
    } else {
        f_add(
            cip_prefix(cols, ps, es, t - 1),
            f_mul(f_pow(ps, (t - 1) as nat), eval_poly(cols[t - 1], es)),
        )
    }
}

/// The combined inner product of a list of evaluation tables:
/// `sum_t polyscale^t * (sum_j cols[t][j] * evalscale^j)` over the global
/// chunk-column list.
pub open spec fn cip_spec(polys: Seq<Seq<Seq<int>>>, ps: int, es: int) -> int {
    cip_prefix(columns_list(polys), ps, es, columns_list(polys).len() as int)
}

/// The residue tables of a list of evaluation tables.
pub open spec fn polys_view(s: Seq<Vec<Vec<Scalar>>>) -> Seq<Seq<Seq<int>>> {
    Seq::new(s.len(), |k: int| table_view(s[k]@))
}

/// Appending one more polynomial appends its columns.
proof fn lemma_columns_list_snoc(polys: Seq<Seq<Seq<int>>>, k: int)
    requires
        0 <= k < polys.len(),
    ensures
        columns_list(polys.take(k + 1)) == columns_list(polys.take(k)) + poly_columns(polys[k]),
    decreases k,
{
    if k == 0 {
        assert(polys.take(1)[0] == polys[0]);
        assert(polys.take(1).skip(1) =~= Seq::<Seq<Seq<int>>>::empty());
        assert(columns_list(Seq::<Seq<Seq<int>>>::empty()) =~= Seq::<Seq<int>>::empty());
        assert(polys.take(0) =~= Seq::<Seq<Seq<int>>>::empty());
        assert(columns_list(polys.take(1)) =~= Seq::<Seq<int>>::empty() + poly_columns(polys[0]));
        assert(columns_list(polys.take(1)) =~= columns_list(polys.take(0)) + poly_columns(
            polys[0],
        ));
    } else {
        lemma_columns_list_snoc(polys.skip(1), k - 1);
        assert(polys.take(k + 1)[0] == polys[0]);
        assert(polys.take(k + 1).skip(1) =~= polys.skip(1).take(k));
        assert(polys.take(k)[0] == polys[0]);
        assert(polys.take(k).skip(1) =~= polys.skip(1).take(k - 1));
        assert(polys.skip(1)[k - 1] == polys[k]);
        assert(columns_list(polys.take(k + 1)) =~= (columns_list(polys.take(k)) + poly_columns(
            polys[k],
        )));
    }
}

/// The column list splits at any polynomial boundary.
proof fn lemma_columns_list_split(polys: Seq<Seq<Seq<int>>>, k: int)
    requires
        0 <= k <= polys.len(),
    ensures
        columns_list(polys) == columns_list(polys.take(k)) + columns_list(polys.skip(k)),
    decreases k,
{
    if k == 0 {
        assert(polys.take(0) =~= Seq::<Seq<Seq<int>>>::empty());
        assert(polys.skip(0) =~= polys);
        assert(columns_list(polys) =~= columns_list(polys.take(0)) + columns_list(polys));
    } else {
        lemma_columns_list_split(polys.skip(1), k - 1);
        assert(polys.take(k)[0] == polys[0]);
        assert(polys.take(k).skip(1) =~= polys.skip(1).take(k - 1));
        assert(polys.skip(1).skip(k - 1) =~= polys.skip(k));
        assert(columns_list(polys) =~= columns_list(polys.take(k)) + columns_list(polys.skip(k)));
    }
}

/// Computes the linearization of the evaluations of the (potentially
/// chunked) polynomials: every chunk column is evaluated at `evalscale` as a
/// polynomial over the evaluation points and weighted by the running power
/// of `polyscale`, which advances once per column across the whole list. A
/// polynomial whose first row is empty is skipped entirely. Rows shorter
/// than the first row of their table are a caller bug and are excluded by
/// contract.
pub fn combined_inner_product(polyscale: &Scalar, evalscale: &Scalar, polys: &[Vec<Vec<Scalar>>]) -> (r:
    Scalar)
    requires
        polyscale.wf(),
        evalscale.wf(),
        forall|k: int| 0 <= k < polys@.len() ==> (#[trigger] polys@[k])@.len() > 0,
        forall|k: int, j: int|
            0 <= k < polys@.len() && 0 <= j < polys@[k]@.len() ==> (#[trigger] polys@[k]@[j])@.len()
                >= polys@[k]@[0]@.len(),
        forall|k: int, j: int|
            0 <= k < polys@.len() && 0 <= j < polys@[k]@.len() ==> all_reduced(
                scalars_view((#[trigger] polys@[k]@[j])@),
            ),
    ensures
        r.wf(),
        r@ == cip_spec(polys_view(polys@), polyscale@, evalscale@),
{
    let ghost pv: Seq<Seq<Seq<int>>> = polys_view(polys@);
    let ghost cols: Seq<Seq<int>> = columns_list(pv);
    let np: usize = polys.len();
    let mut res: Scalar = Scalar::zero();
    let mut xi_i: Scalar = Scalar::one();
    proof {
        assert(pv.take(0) =~= Seq::<Seq<Seq<int>>>::empty());
        assert(columns_list(Seq::<Seq<Seq<int>>>::empty()) =~= Seq::<Seq<int>>::empty());
        assert(f_pow(polyscale@, 0) == 1);
    }
    let mut k: usize = 0;
    while k < np
        invariant
            np == polys@.len(),
            pv == polys_view(polys@),
            cols == columns_list(pv),
            polyscale.wf(),
            evalscale.wf(),
            forall|k2: int| 0 <= k2 < polys@.len() ==> (#[trigger] polys@[k2])@.len() > 0,
            forall|k2: int, j: int|
                0 <= k2 < polys@.len() && 0 <= j < polys@[k2]@.len()
                    ==> (#[trigger] polys@[k2]@[j])@.len() >= polys@[k2]@[0]@.len(),
            forall|k2: int, j: int|
                0 <= k2 < polys@.len() && 0 <= j < polys@[k2]@.len() ==> all_reduced(
                    scalars_view((#[trigger] polys@[k2]@[j])@),
                ),
            k <= np,
            res.wf(),
            xi_i.wf(),
            res@ == cip_prefix(
                cols,
                polyscale@,
                evalscale@,
                columns_list(pv.take(k as int)).len() as int,
            ),
            xi_i@ == f_pow(polyscale@, columns_list(pv.take(k as int)).len()),
        decreases np - k,
    {
        let ghost tk: int = columns_list(pv.take(k as int)).len() as int;
        proof {
            lemma_columns_list_split(pv, k as int);
            assert(pv.skip(k as int)[0] == pv[k as int]);
            assert(pv.skip(k as int).skip(1) =~= pv.skip(k as int + 1));
            assert(pv[k as int] == table_view(polys@[k as int]@));
            lemma_columns_list_snoc(pv, k as int);
            assert(columns_list(pv.skip(k as int)) == poly_columns(pv[k as int]) + columns_list(
                pv.skip(k as int + 1),
            ));
        }
        let rows: usize = polys[k].len();
        let chunks: usize = polys[k][0].len();
        proof {
            assert(pv[k as int].len() == rows);
            assert(pv[k as int][0] == scalars_view(polys@[k as int]@[0]@));
            assert(poly_columns(pv[k as int]).len() == chunks);
        }
        let mut i: usize = 0;
        while i < chunks
            invariant
                np == polys@.len(),
                pv == polys_view(polys@),
                cols == columns_list(pv),
                polyscale.wf(),
                evalscale.wf(),
                forall|k2: int, j: int|
                    0 <= k2 < polys@.len() && 0 <= j < polys@[k2]@.len()
                        ==> (#[trigger] polys@[k2]@[j])@.len() >= polys@[k2]@[0]@.len(),
                forall|k2: int, j: int|
                    0 <= k2 < polys@.len() && 0 <= j < polys@[k2]@.len() ==> all_reduced(
                        scalars_view((#[trigger] polys@[k2]@[j])@),
                    ),
                k < np,
                rows == polys@[k as int]@.len(),
                rows > 0,
                chunks == polys@[k as int]@[0]@.len(),
                tk == columns_list(pv.take(k as int)).len(),
                tk + chunks <= cols.len(),
                forall|i2: int|
                    0 <= i2 < chunks ==> cols[tk + i2] == #[trigger] poly_columns(
                        pv[k as int],
                    )[i2],
                poly_columns(pv[k as int]).len() == chunks,
                pv[k as int] == table_view(polys@[k as int]@),
                i <= chunks,
                res.wf(),
                xi_i.wf(),
                res@ == cip_prefix(cols, polyscale@, evalscale@, tk + i),
                xi_i@ == f_pow(polyscale@, (tk + i) as nat),
            decreases chunks - i,
        {
            let mut col: Vec<Scalar> = Vec::new();
            let mut j: usize = 0;
            while j < rows
                invariant
                    np == polys@.len(),
                    k < np,
                    i < chunks,
                    rows == polys@[k as int]@.len(),
                    chunks == polys@[k as int]@[0]@.len(),
                    forall|j2: int|
                        0 <= j2 < polys@[k as int]@.len()
                            ==> (#[trigger] polys@[k as int]@[j2])@.len() >= polys@[k as int]@[0]@.len(),
                    forall|j2: int|
                        0 <= j2 < polys@[k as int]@.len() ==> all_reduced(
                            scalars_view((#[trigger] polys@[k as int]@[j2])@),
                        ),
                    j <= rows,
                    col@.len() == j,
                    forall|j2: int|
                        0 <= j2 < j ==> (#[trigger] col@[j2]) == polys@[k as int]@[j2]@[i as int],
                decreases rows - j,
            {
                proof {
                    assert(polys@[k as int]@[j as int]@.len() >= chunks);
                }
                col.push(polys[k][j][i]);
                j = j + 1;
            }
            proof {
                assert(scalars_view(col@) =~= poly_columns(pv[k as int])[i as int]);
                assert forall|j2: int| 0 <= j2 < col@.len() implies reduced(
                    #[trigger] scalars_view(col@)[j2],
                ) by {
                    assert(col@[j2] == polys@[k as int]@[j2]@[i as int]);
                    let pr = polys@[k as int]@[j2];
                    assert(scalars_view(pr@)[i as int] == pr@[i as int]@);
                }
            }
            let term: Scalar = eval_polynomial(col.as_slice(), *evalscale);
            proof {
                lemma_f_mul_comm(f_pow(polyscale@, (tk + i) as nat), polyscale@);
            }
            res = res.add(xi_i.mul(term));
            xi_i = xi_i.mul(*polyscale);
            i = i + 1;
        }
        k = k + 1;
    }
    proof {
        assert(pv.take(np as int) =~= pv);
    }
    res
}

/// All chunk points of the evaluations' commitments, in order; an entry with
/// an empty commitment contributes nothing.
pub open spec fn eval_points_list(evals: Seq<Evaluation>) -> Seq<int>
    decreases evals.len(),
{
    if evals.len() == 0 {
        Seq::empty()
    } else {
        evals[0].commitment@ + eval_points_list(evals.skip(1))
    }
}

/// Taking one more entry appends its commitment's chunks.
proof fn lemma_eval_points_snoc(evals: Seq<Evaluation>, k: int)
    requires
        0 <= k < evals.len(),
    ensures
        eval_points_list(evals.take(k + 1)) == eval_points_list(evals.take(k))
            + evals[k].commitment@,
    decreases k,
{
    if k == 0 {
        assert(evals.take(1)[0] == evals[0]);
        assert(evals.take(1).skip(1) =~= Seq::<Evaluation>::empty());
        assert(eval_points_list(Seq::<Evaluation>::empty()) =~= Seq::<int>::empty());
        assert(evals.take(0) =~= Seq::<Evaluation>::empty());
        assert(eval_points_list(evals.take(1)) =~= eval_points_list(evals.take(0))
            + evals[0].commitment@);
    } else {
        lemma_eval_points_snoc(evals.skip(1), k - 1);
        assert(evals.take(k + 1)[0] == evals[0]);
        assert(evals.take(k + 1).skip(1) =~= evals.skip(1).take(k));
        assert(evals.take(k)[0] == evals[0]);
        assert(evals.take(k).skip(1) =~= evals.skip(1).take(k - 1));
        assert(evals.skip(1)[k - 1] == evals[k]);
        assert(eval_points_list(evals.take(k + 1)) =~= (eval_points_list(evals.take(k))
            + evals[k].commitment@));
    }
}

/// Populates `scalars` and `points` with one (weight, point) pair per chunk
/// of every non-empty commitment: the point is the chunk, the weight is
/// `rand_base * polyscale^t` where `t` is the chunk's global position across
/// the whole evaluation list — the same continuous exponent sequence the
/// scalar-side combination walks. The pairs are the exact input of the
/// single multi-scalar-multiplication check.
pub fn combine_commitments(
    evaluations: &[Evaluation],
    scalars: &mut Vec<Scalar>,
    points: &mut Vec<Point>,
    polyscale: Scalar,
    rand_base: Scalar,
)
    requires
        polyscale.wf(),
        rand_base.wf(),
        forall|k: int|
            0 <= k < evaluations@.len() ==> (#[trigger] evaluations@[k]).commitment.wf(),
    ensures
        final(scalars)@.len() == old(scalars)@.len() + eval_points_list(evaluations@).len(),
        final(points)@.len() == old(points)@.len() + eval_points_list(evaluations@).len(),
        scalars_view(final(scalars)@) == scalars_view(old(scalars)@) + Seq::new(
            eval_points_list(evaluations@).len(),
            |t: int| f_mul(rand_base@, f_pow(polyscale@, t as nat)),
        ),
        points_view(final(points)@) == points_view(old(points)@) + eval_points_list(evaluations@),
{
    let ghost epl: Seq<int> = eval_points_list(evaluations@);
    let ghost s0: Seq<Scalar> = scalars@;
    let ghost p0: Seq<Point> = points@;
    let mut xi_i: Scalar = Scalar::one();
    proof {
        assert(evaluations@.take(0) =~= Seq::<Evaluation>::empty());
        assert(eval_points_list(Seq::<Evaluation>::empty()) =~= Seq::<int>::empty());
        assert(f_pow(polyscale@, 0) == 1);
    }
    let ne: usize = evaluations.len();
    let mut k: usize = 0;
    while k < ne
        invariant
            ne == evaluations@.len(),
            polyscale.wf(),
            rand_base.wf(),
            forall|k2: int|
                0 <= k2 < evaluations@.len() ==> (#[trigger] evaluations@[k2]).commitment.wf(),
            k <= ne,
            xi_i.wf(),
            xi_i@ == f_pow(polyscale@, eval_points_list(evaluations@.take(k as int)).len()),
            scalars@.len() == s0.len() + eval_points_list(evaluations@.take(k as int)).len(),
            points@.len() == p0.len() + eval_points_list(evaluations@.take(k as int)).len(),
            forall|t: int| 0 <= t < s0.len() ==> scalars@[t] == s0[t],
            forall|t: int| 0 <= t < p0.len() ==> points@[t] == p0[t],
            forall|t: int|
                s0.len() <= t < scalars@.len() ==> (#[trigger] scalars@[t])@ == f_mul(
                    rand_base@,
                    f_pow(polyscale@, (t - s0.len()) as nat),
                ),
            forall|t: int|
                p0.len() <= t < points@.len() ==> (#[trigger] points@[t])@ == eval_points_list(
                    evaluations@.take(k as int),
                )[t - p0.len()],
        decreases ne - k,
    {
        let ghost tk: int = eval_points_list(evaluations@.take(k as int)).len() as int;
        proof {
            lemma_eval_points_snoc(evaluations@, k as int);
        }
        let nchunks: usize = evaluations[k].commitment.elems.len();
        let mut i: usize = 0;
        while i < nchunks
            invariant
                ne == evaluations@.len(),
                k < ne,
                polyscale.wf(),
                rand_base.wf(),
                forall|k2: int|
                    0 <= k2 < evaluations@.len() ==> (#[trigger] evaluations@[k2]).commitment.wf(),
                nchunks == evaluations@[k as int].commitment.elems@.len(),
                tk == eval_points_list(evaluations@.take(k as int)).len(),
                eval_points_list(evaluations@.take(k as int + 1)) == eval_points_list(
                    evaluations@.take(k as int),
                ) + evaluations@[k as int].commitment@,
                i <= nchunks,
                xi_i.wf(),
                xi_i@ == f_pow(polyscale@, (tk + i) as nat),
                scalars@.len() == s0.len() + tk + i,
                points@.len() == p0.len() + tk + i,
                forall|t: int| 0 <= t < s0.len() ==> scalars@[t] == s0[t],
                forall|t: int| 0 <= t < p0.len() ==> points@[t] == p0[t],
                forall|t: int|
                    s0.len() <= t < scalars@.len() ==> (#[trigger] scalars@[t])@ == f_mul(
                        rand_base@,
                        f_pow(polyscale@, (t - s0.len()) as nat),
                    ),
                forall|t: int|
                    p0.len() <= t < p0.len() + tk ==> (#[trigger] points@[t])@
                        == eval_points_list(evaluations@.take(k as int))[t - p0.len()],
                forall|t: int|
                    p0.len() + tk <= t < points@.len() ==> (#[trigger] points@[t])@
                        == evaluations@[k as int].commitment@[t - p0.len() - tk],
            decreases nchunks - i,
        {
            proof {
                assert(evaluations@[k as int].commitment@[i as int] == evaluations@[k as int
                ].commitment.elems@[i as int]@);
                lemma_f_mul_comm(f_pow(polyscale@, (tk + i) as nat), polyscale@);
            }
            scalars.push(rand_base.mul(xi_i));
            points.push(evaluations[k].commitment.elems[i]);
            xi_i = xi_i.mul(polyscale);
            i = i + 1;
        }
        k = k + 1;
    }
    proof {
        assert(evaluations@.take(ne as int) =~= evaluations@);
        assert(scalars_view(scalars@) =~= scalars_view(s0) + Seq::new(
            epl.len(),
            |t: int| f_mul(rand_base@, f_pow(polyscale@, t as nat)),
        ));
        assert(points_view(points@) =~= points_view(p0) + epl);
    }
}

/// The chunk-column count an entry contributes to the running exponent:
/// zero when its commitment is empty (the entry is skipped), otherwise the
/// length of its table's first row.
pub open spec fn entry_chunks(e: Evaluation) -> nat {
    if e.commitment@.len() == 0 || e.evaluations@.len() == 0 {
        0
    } else {
        e.evaluations@[0]@.len()
    }
}

/// The exponent offset in force before entry `k`: the total chunk count of
/// the entries before it — the exponent never resets at an entry boundary.
pub open spec fn chunks_before(evals: Seq<Evaluation>, k: int) -> nat
    decreases k,
{
    if k <= 0 {
        0
    } else {
        chunks_before(evals, k - 1) + entry_chunks(evals[k - 1])
    }
}

/// The value accumulator slot `pt` holds after folding the first `i` chunks
/// of entry `e` into `acc`, with the running exponent starting at `t0`: each
/// chunk adds `table[pt][chunk] * polyscale^(t0 + chunk)` when the entry has
/// a row `pt`, and nothing otherwise.
pub open spec fn entry_fold(e: Evaluation, ps: int, pt: int, acc: int, t0: nat, i: nat) -> int
    decreases i,
{
    if i == 0 {
        acc
    } else {
        let prev = entry_fold(e, ps, pt, acc, t0, (i - 1) as nat);
        if 0 <= pt < e.evaluations@.len() {
            f_add(prev, f_mul(table_view(e.evaluations@)[pt][i - 1], f_pow(ps, (t0 + i - 1) as nat)))
        } else {
            prev
        }
    }
}

/// The value accumulator slot `pt` holds after the first `k` entries.
pub open spec fn ce_slot(evals: Seq<Evaluation>, ps: int, pt: int, k: int) -> int
    decreases k,
{
    if k <= 0 {
        0
    } else {
        entry_fold(
            evals[k - 1],
            ps,
            pt,
            ce_slot(evals, ps, pt, k - 1),
            chunks_before(evals, k - 1),
            entry_chunks(evals[k - 1]),
        )
    }
}

/// Combines the (chunked) evaluations of multiple polynomials into one
/// accumulator per evaluation point, weighting chunk `t` (globally counted
/// across the whole list) by `polyscale^t`. The accumulator's length is the
/// first entry's evaluation-point count; an entry with fewer rows simply
/// contributes nothing to the higher slots, so a caller supplying mismatched
/// tables gets truncated results rather than an error. Entries with an empty
/// commitment are skipped. An entry with more rows than the first one, or
/// with a non-empty commitment and an empty table, is a caller bug and is
/// excluded by contract.
pub fn combine_evaluations(evaluations: &Vec<Evaluation>, polyscale: Scalar) -> (acc: Vec<Scalar>)
    requires
        polyscale.wf(),
        forall|k: int|
            0 <= k < evaluations@.len() && (#[trigger] evaluations@[k]).commitment@.len() != 0
                ==> evaluations@[k].evaluations@.len() > 0,
        forall|k: int|
            0 <= k < evaluations@.len() && k > 0 ==> (#[trigger] evaluations@[k]).evaluations@.len()
                <= evaluations@[0].evaluations@.len(),
        forall|k: int, j: int|
            0 <= k < evaluations@.len() && 0 <= j < evaluations@[k].evaluations@.len()
                ==> (#[trigger] evaluations@[k].evaluations@[j])@.len() >= entry_chunks(evaluations@[k]),
        forall|k: int, j: int|
            0 <= k < evaluations@.len() && 0 <= j < evaluations@[k].evaluations@.len()
                ==> all_reduced(scalars_view((#[trigger] evaluations@[k].evaluations@[j])@)),
    ensures
        acc@.len() == (if evaluations@.len() == 0 {
            0int
        } else {
            evaluations@[0].evaluations@.len() as int
        }),
        forall|pt: int|
            0 <= pt < acc@.len() ==> (#[trigger] acc@[pt]).wf() && acc@[pt]@ == ce_slot(
                evaluations@,
                polyscale@,
                pt,
                evaluations@.len() as int,
            ),
{
    let num_evals: usize = if evaluations.len() > 0 {
        evaluations[0].evaluations.len()
    } else {
        0
    };
    let mut acc: Vec<Scalar> = Vec::new();
    while acc.len() < num_evals
        invariant
            acc@.len() <= num_evals,
            forall|pt: int| 0 <= pt < acc@.len() ==> (#[trigger] acc@[pt]).wf() && acc@[pt]@ == 0,
        decreases num_evals - acc@.len(),
    {
        acc.push(Scalar::zero());
    }
    let mut xi_i: Scalar = Scalar::one();
    proof {
        assert(f_pow(polyscale@, 0) == 1);
    }
    let ne: usize = evaluations.len();
    let mut k: usize = 0;
    while k < ne
        invariant
            ne == evaluations@.len(),
            polyscale.wf(),
            forall|k2: int|
                0 <= k2 < evaluations@.len() && (#[trigger] evaluations@[k2]).commitment@.len()
                    != 0 ==> evaluations@[k2].evaluations@.len() > 0,
            forall|k2: int|
                0 <= k2 < evaluations@.len() && k2 > 0
                    ==> (#[trigger] evaluations@[k2]).evaluations@.len()
                    <= evaluations@[0].evaluations@.len(),
            forall|k2: int, j: int|
                0 <= k2 < evaluations@.len() && 0 <= j < evaluations@[k2].evaluations@.len()
                    ==> (#[trigger] evaluations@[k2].evaluations@[j])@.len() >= entry_chunks(evaluations@[k2]),
            forall|k2: int, j: int|
                0 <= k2 < evaluations@.len() && 0 <= j < evaluations@[k2].evaluations@.len()
                    ==> all_reduced(scalars_view((#[trigger] evaluations@[k2].evaluations@[j])@)),
            num_evals == (if ne == 0 {
                0int
            } else {
                evaluations@[0].evaluations@.len() as int
            }),
            k <= ne,
            acc@.len() == num_evals,
            xi_i.wf(),
            xi_i@ == f_pow(polyscale@, chunks_before(evaluations@, k as int)),
            forall|pt: int|
                0 <= pt < acc@.len() ==> (#[trigger] acc@[pt]).wf() && acc@[pt]@ == ce_slot(
                    evaluations@,
                    polyscale@,
                    pt,
                    k as int,
                ),
        decreases ne - k,
    {
        let ghost e: Evaluation = evaluations@[k as int];
        let ghost cb: nat = chunks_before(evaluations@, k as int);
        let included: bool = evaluations[k].commitment.elems.len() > 0;
        if included {
            let rows: usize = evaluations[k].evaluations.len();
            let chunks: usize = evaluations[k].evaluations[0].len();
            proof {
                assert(entry_chunks(e) == chunks);
            }
            let mut i: usize = 0;
            while i < chunks
                invariant
                    ne == evaluations@.len(),
                    k < ne,
                    e == evaluations@[k as int],
                    polyscale.wf(),
                    forall|j: int|
                        0 <= j < e.evaluations@.len() ==> (#[trigger] e.evaluations@[j])@.len()
                            >= entry_chunks(e),
                    forall|j: int|
                        0 <= j < e.evaluations@.len() ==> all_reduced(
                            scalars_view((#[trigger] e.evaluations@[j])@),
                        ),
                    rows == e.evaluations@.len(),
                    rows <= acc@.len(),
                    chunks == entry_chunks(e),
                    cb == chunks_before(evaluations@, k as int),
                    i <= chunks,
                    acc@.len() == num_evals,
                    xi_i.wf(),
                    xi_i@ == f_pow(polyscale@, (cb + i) as nat),
                    forall|pt: int|
                        0 <= pt < acc@.len() ==> (#[trigger] acc@[pt]).wf() && acc@[pt]@
                            == entry_fold(
                            e,
                            polyscale@,
                            pt,
                            ce_slot(evaluations@, polyscale@, pt, k as int),
                            cb,
                            i as nat,
                        ),
                decreases chunks - i,
            {
                let mut j: usize = 0;
                while j < rows
                    invariant
                        ne == evaluations@.len(),
                        k < ne,
                        e == evaluations@[k as int],
                        polyscale.wf(),
                        forall|j2: int|
                            0 <= j2 < e.evaluations@.len()
                                ==> (#[trigger] e.evaluations@[j2])@.len() >= entry_chunks(e),
                        forall|j2: int|
                            0 <= j2 < e.evaluations@.len() ==> all_reduced(
                                scalars_view((#[trigger] e.evaluations@[j2])@),
                            ),
                        rows == e.evaluations@.len(),
                        rows <= acc@.len(),
                        chunks == entry_chunks(e),
                        i < chunks,
                        j <= rows,
                        acc@.len() == num_evals,
                        xi_i.wf(),
                        xi_i@ == f_pow(polyscale@, (cb + i) as nat),
                        forall|pt: int|
                            0 <= pt < j ==> (#[trigger] acc@[pt]).wf() && acc@[pt]@ == entry_fold(
                                e,
                                polyscale@,
                                pt,
                                ce_slot(evaluations@, polyscale@, pt, k as int),
                                cb,
                                (i + 1) as nat,
                            ),
                        forall|pt: int|
                            j <= pt < acc@.len() ==> (#[trigger] acc@[pt]).wf() && acc@[pt]@
                                == entry_fold(
                                e,
                                polyscale@,
                                pt,
                                ce_slot(evaluations@, polyscale@, pt, k as int),
                                cb,
                                i as nat,
                            ),
                    decreases rows - j,
                {
                    proof {
                        assert(table_view(e.evaluations@)[j as int] == scalars_view(
                            e.evaluations@[j as int]@,
                        ));
                        assert(scalars_view(e.evaluations@[j as int]@)[i as int]
                            == e.evaluations@[j as int]@[i as int]@);
                    }
                    let term: Scalar = evaluations[k].evaluations[j][i].mul(xi_i);
                    let updated: Scalar = acc[j].add(term);
                    acc[j] = updated;
                    j = j + 1;
                }
                xi_i = xi_i.mul(polyscale);
                proof {
                    lemma_f_mul_comm(f_pow(polyscale@, (cb + i) as nat), polyscale@);
                }
                i = i + 1;
            }
        }
        proof {
            if !included {
                assert(entry_chunks(e) == 0);
                assert forall|pt: int| 0 <= pt < acc@.len() implies acc@[pt]@ == ce_slot(
                    evaluations@,
                    polyscale@,
                    pt,
                    k as int + 1,
                ) by {
                    assert(ce_slot(evaluations@, polyscale@, pt, k as int + 1) == entry_fold(
                        e,
                        polyscale@,
                        pt,
                        ce_slot(evaluations@, polyscale@, pt, k as int),
                        cb,
                        0,
                    ));
                }
            }
        }
        k = k + 1;
    }
    acc
}

/// The sum of the pairwise products of the first `t` entries.
pub open spec fn inner_prod_prefix(xs: Seq<int>, ys: Seq<int>, t: int) -> int
    decreases t,
{
    if t <= 0 {
        0
    } else {
        f_add(inner_prod_prefix(xs, ys, t - 1), f_mul(xs[t - 1], ys[t - 1]))
    }
}

/// The inner product of two residue sequences, truncated to the shorter.
pub open spec fn inner_prod_spec(xs: Seq<int>, ys: Seq<int>) -> int {
    inner_prod_prefix(
        xs,
        ys,
        if xs.len() <= ys.len() {
            xs.len() as int
        } else {
            ys.len() as int
        },
    )
}

/// The inner product of two scalar slices, truncated to the shorter.
pub fn inner_prod(xs: &[Scalar], ys: &[Scalar]) -> (r: Scalar)
    requires
        all_reduced(scalars_view(xs@)),
        all_reduced(scalars_view(ys@)),
    ensures
        r.wf(),
        r@ == inner_prod_spec(scalars_view(xs@), scalars_view(ys@)),
{
    let ghost xv: Seq<int> = scalars_view(xs@);
    let ghost yv: Seq<int> = scalars_view(ys@);
    let n: usize = if xs.len() <= ys.len() {
        xs.len()
    } else {
        ys.len()
    };
    let mut res: Scalar = Scalar::zero();
    let mut i: usize = 0;
    while i < n
        invariant
            xv == scalars_view(xs@),
            yv == scalars_view(ys@),
            all_reduced(xv),
            all_reduced(yv),
            n <= xv.len(),
            n <= yv.len(),
            i <= n,
            res.wf(),
            res@ == inner_prod_prefix(xv, yv, i as int),
        decreases n - i,
    {
        proof {
            assert(xv[i as int] == xs@[i as int]@);
            assert(yv[i as int] == ys@[i as int]@);
        }
        res = res.add(xs[i].mul(ys[i]));
        i = i + 1;
    }
    res
}

/// Law: for a single one-chunk polynomial evaluated at a single point, the
/// combined inner product is the evaluation itself, whatever `polyscale` and
/// `evalscale` are — in particular it does not depend on `evalscale` at all.
pub proof fn lemma_cip_single(v: int, ps: int, es: int)
    requires
        reduced(v),
    ensures
        cip_spec(seq![seq![seq![v]]], ps, es) == v,
{
    let p: Seq<Seq<int>> = seq![seq![v]];
    let polys: Seq<Seq<Seq<int>>> = seq![p];
    assert(polys.skip(1) =~= Seq::<Seq<Seq<int>>>::empty());
    assert(columns_list(Seq::<Seq<Seq<int>>>::empty()) =~= Seq::<Seq<int>>::empty());
    assert(poly_columns(p).len() == 1);
    assert(poly_columns(p)[0] =~= seq![v]);
    let cols = columns_list(polys);
    assert(cols =~= seq![seq![v]]);
    assert(seq![v].skip(1) =~= Seq::<int>::empty());
    assert(eval_poly(Seq::<int>::empty(), es) == 0);
    assert(eval_poly(seq![v], es) == f_add(v, f_mul(es, 0)));
    lemma_f_add_zero(v);
    assert(f_mul(es, 0) == 0);
    assert(f_pow(ps, 0) == 1);
    lemma_f_mul_one(v);
    assert(cip_prefix(cols, ps, es, 0) == 0);
    assert(eval_poly(cols[0], es) == v);
    assert(cip_prefix(cols, ps, es, 1) == f_add(0, f_mul(1, v)));
    assert(f_add(0, v) == f_add(v, 0));
}

/// Law: the commitment side and the evaluation side advance exponents
/// identically. When every entry's table has one chunk column per commitment
/// chunk, the exponent offset `combine_evaluations` applies before entry `k`
/// equals the number of (scalar, point) pairs `combine_commitments` has
/// emitted before entry `k` — so a given chunk is weighted by the same power
/// of `polyscale` on both sides of the batched check.
pub proof fn lemma_exponent_alignment(evals: Seq<Evaluation>, k: int)
    requires
        0 <= k <= evals.len(),
        forall|j: int|
            0 <= j < evals.len() ==> entry_chunks(#[trigger] evals[j])
                == evals[j].commitment@.len(),
    ensures
        chunks_before(evals, k) == eval_points_list(evals.take(k)).len(),
    decreases k,
{
    if k == 0 {
        assert(evals.take(0) =~= Seq::<Evaluation>::empty());
        assert(eval_points_list(Seq::<Evaluation>::empty()) =~= Seq::<int>::empty());
    } else {
        lemma_exponent_alignment(evals, k - 1);
        lemma_eval_points_snoc(evals, k - 1);
    }
}

} // verus!
