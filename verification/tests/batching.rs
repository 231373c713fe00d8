use poly_commitment::combination::{
    combine_commitments, combine_evaluations, combined_inner_product, inner_prod, Evaluation,
};
use poly_commitment::commitment::PolyComm;
use poly_commitment::curve::Point;
use poly_commitment::field::Scalar;

fn scalars(reps: &[u64]) -> Vec<Scalar> {
    reps.iter().map(|&r| Scalar::new(r)).collect()
}

fn pc(reps: &[u64]) -> PolyComm<Point> {
    PolyComm::new(reps.iter().map(|&r| Point::new(r)).collect())
}

fn table(rows: &[&[u64]]) -> Vec<Vec<Scalar>> {
    rows.iter().map(|r| scalars(r)).collect()
}

#[test]
fn cip_single_value_ignores_both_scales() {
    // One polynomial, one chunk, one evaluation point, value 7.
    let polys = vec![table(&[&[7]])];
    let r = combined_inner_product(&Scalar::new(3), &Scalar::new(5), &polys);
    assert_eq!(r, Scalar::new(7));
    let r2 = combined_inner_product(&Scalar::new(100), &Scalar::new(99999), &polys);
    assert_eq!(r2, Scalar::new(7));
}

#[test]
fn cip_two_single_chunk_polynomials() {
    // Values 7 and 11, polyscale 3: 7 + 11 * 3 = 40; the second polynomial's
    // chunk is weighted by polyscale^1, continuing the running exponent.
    let polys = vec![table(&[&[7]]), table(&[&[11]])];
    let r = combined_inner_product(&Scalar::new(3), &Scalar::new(5), &polys);
    assert_eq!(r, Scalar::new(40));
}

#[test]
fn cip_weights_evaluation_points_by_evalscale() {
    // One polynomial, one chunk, two points with values 7 and 11:
    // 7 + 11 * evalscale = 7 + 55 = 62.
    let polys = vec![table(&[&[7], &[11]])];
    let r = combined_inner_product(&Scalar::new(3), &Scalar::new(5), &polys);
    assert_eq!(r, Scalar::new(62));
}

#[test]
fn cip_exponent_is_continuous_across_polynomials() {
    // Two polynomials, two chunks each, one point, polyscale 2:
    // 1*2^0 + 10*2^1 + 100*2^2 + 1000*2^3 = 1 + 20 + 400 + 8000 = 8421.
    let polys = vec![table(&[&[1, 10]]), table(&[&[100, 1000]])];
    let r = combined_inner_product(&Scalar::new(2), &Scalar::new(5), &polys);
    assert_eq!(r, Scalar::new(8421));
}

#[test]
fn cip_skips_polynomials_with_empty_first_row() {
    // The empty-row polynomial is skipped entirely and advances no exponent.
    let polys = vec![table(&[&[]]), table(&[&[7]])];
    let r = combined_inner_product(&Scalar::new(3), &Scalar::new(5), &polys);
    assert_eq!(r, Scalar::new(7));
}

#[test]
fn combine_commitments_weights_advance_per_chunk() {
    let evals = vec![
        Evaluation { commitment: pc(&[1, 2]), evaluations: table(&[&[5, 6]]) },
        Evaluation { commitment: pc(&[3, 4]), evaluations: table(&[&[7, 8]]) },
    ];
    let mut scalars_out: Vec<Scalar> = Vec::new();
    let mut points_out: Vec<Point> = Vec::new();
    let polyscale = Scalar::new(3);
    let rand_base = Scalar::new(10);
    combine_commitments(&evals, &mut scalars_out, &mut points_out, polyscale, rand_base);
    // The second polynomial's first chunk gets polyscale^2, not polyscale^0.
    assert_eq!(scalars_out, scalars(&[10, 30, 90, 270]));
    assert_eq!(
        points_out,
        vec![Point::new(1), Point::new(2), Point::new(3), Point::new(4)]
    );
}

#[test]
fn combine_commitments_skips_empty_commitments() {
    let evals = vec![
        Evaluation { commitment: pc(&[]), evaluations: table(&[&[5]]) },
        Evaluation { commitment: pc(&[9]), evaluations: table(&[&[7]]) },
    ];
    let mut scalars_out: Vec<Scalar> = Vec::new();
    let mut points_out: Vec<Point> = Vec::new();
    combine_commitments(
        &evals,
        &mut scalars_out,
        &mut points_out,
        Scalar::new(3),
        Scalar::new(1),
    );
    assert_eq!(scalars_out, scalars(&[1]));
    assert_eq!(points_out, vec![Point::new(9)]);
}

#[test]
fn combine_commitments_appends_after_existing_entries() {
    let evals = vec![Evaluation { commitment: pc(&[5]), evaluations: table(&[&[1]]) }];
    let mut scalars_out = scalars(&[42]);
    let mut points_out = vec![Point::new(13)];
    combine_commitments(
        &evals,
        &mut scalars_out,
        &mut points_out,
        Scalar::new(3),
        Scalar::new(2),
    );
    assert_eq!(scalars_out, scalars(&[42, 2]));
    assert_eq!(points_out, vec![Point::new(13), Point::new(5)]);
}

#[test]
fn combine_evaluations_exponents_match_commitment_side() {
    // Two polynomials with 2 chunks each, evaluated at 2 points. For two
    // chunks per polynomial, the second polynomial's first chunk must be
    // weighted by polyscale^2 on both sides of the batched check.
    let evals = vec![
        Evaluation {
            commitment: pc(&[1, 2]),
            evaluations: table(&[&[1, 10], &[2, 20]]),
        },
        Evaluation {
            commitment: pc(&[3, 4]),
            evaluations: table(&[&[100, 1000], &[200, 2000]]),
        },
    ];
    let ps = Scalar::new(3);
    let acc = combine_evaluations(&evals, ps);
    // slot 0: 1 + 10*3 + 100*9 + 1000*27 = 27931
    // slot 1: 2 + 20*3 + 200*9 + 2000*27 = 55862
    assert_eq!(acc, scalars(&[27931, 55862]));

    // The commitment side emits weights 1, 3, 9, 27 for the same chunks.
    let mut w: Vec<Scalar> = Vec::new();
    let mut p: Vec<Point> = Vec::new();
    combine_commitments(&evals, &mut w, &mut p, ps, Scalar::one());
    assert_eq!(w, scalars(&[1, 3, 9, 27]));
}

#[test]
fn combine_evaluations_empty_list_is_empty() {
    let acc = combine_evaluations(&vec![], Scalar::new(3));
    assert!(acc.is_empty());
}

#[test]
fn combine_evaluations_skips_empty_commitments_without_advancing() {
    let evals = vec![
        Evaluation { commitment: pc(&[]), evaluations: table(&[&[5]]) },
        Evaluation { commitment: pc(&[9]), evaluations: table(&[&[7]]) },
    ];
    let acc = combine_evaluations(&evals, Scalar::new(3));
    // The skipped entry advances no exponent: 7 * 3^0 = 7.
    assert_eq!(acc, scalars(&[7]));
}

#[test]
fn combine_evaluations_truncates_to_first_entry_shape() {
    // The accumulator takes the first entry's point count; an entry with
    // fewer points contributes nothing to the higher slots. This documents
    // the current truncating behavior on ragged input.
    let evals = vec![
        Evaluation {
            commitment: pc(&[1]),
            evaluations: table(&[&[5], &[6]]),
        },
        Evaluation { commitment: pc(&[2]), evaluations: table(&[&[100]]) },
    ];
    let acc = combine_evaluations(&evals, Scalar::new(3));
    // slot 0: 5 + 100*3 = 305; slot 1: 6 (second entry has no row 1)
    assert_eq!(acc, scalars(&[305, 6]));
}

#[test]
fn inner_prod_truncates_to_shorter() {
    let xs = scalars(&[1, 2, 3]);
    let ys = scalars(&[10, 100]);
    // 1*10 + 2*100 = 210
    assert_eq!(inner_prod(&xs, &ys), Scalar::new(210));
    assert_eq!(inner_prod(&[], &ys), Scalar::zero());
}
