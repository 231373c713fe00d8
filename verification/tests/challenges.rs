use poly_commitment::challenge_poly::{b_poly, b_poly_coefficients, product};
use poly_commitment::combination::eval_polynomial;
use poly_commitment::commitment::PolyComm;
use poly_commitment::curve::Point;
use poly_commitment::field::Scalar;
use poly_commitment::transcript::{
    absorb_commitment, squeeze_challenge, squeeze_prechallenge, ScalarChallenge, Sponge,
};

fn scalars(reps: &[u64]) -> Vec<Scalar> {
    reps.iter().map(|&r| Scalar::new(r)).collect()
}

/// The explicit product `prod_i (1 + chals[i] * x^(2^(k-1-i)))`, computed
/// naively with `pow`.
fn b_poly_naive(chals: &[Scalar], x: Scalar) -> Scalar {
    let k = chals.len();
    let mut res = Scalar::one();
    for i in 0..k {
        let e = 1u64 << (k - 1 - i);
        let term = Scalar::one().add(chals[i].mul(x.pow(e)));
        res = res.mul(term);
    }
    res
}

#[test]
fn product_multiplies_all_entries() {
    assert_eq!(product(&scalars(&[])), Scalar::one());
    assert_eq!(product(&scalars(&[2, 3, 7])), Scalar::new(42));
}

#[test]
fn b_poly_empty_challenges_is_one() {
    assert_eq!(b_poly(&[], Scalar::new(12345)), Scalar::one());
}

#[test]
fn b_poly_single_challenge() {
    // 1 + 3 * 5 = 16
    assert_eq!(b_poly(&scalars(&[3]), Scalar::new(5)), Scalar::new(16));
}

#[test]
fn b_poly_two_challenges_exact() {
    // (1 + 3 * 5^2) * (1 + 7 * 5) = 76 * 36 = 2736
    assert_eq!(b_poly(&scalars(&[3, 7]), Scalar::new(5)), Scalar::new(2736));
}

#[test]
fn b_poly_agrees_with_naive_product() {
    let samples = [0u64, 1, 2, 5, 12345, 2147483628, 987654321];
    for k in [0usize, 1, 2, 5] {
        let chals: Vec<Scalar> = (0..k).map(|i| Scalar::new(31 * i as u64 + 7)).collect();
        for &x in &samples {
            let x = Scalar::new(x);
            assert_eq!(b_poly(&chals, x), b_poly_naive(&chals, x));
        }
    }
}

#[test]
fn b_poly_coefficients_empty_is_constant_one() {
    let s = b_poly_coefficients(&[]);
    assert_eq!(s, vec![Scalar::one()]);
}

#[test]
fn b_poly_coefficients_single_challenge() {
    let s = b_poly_coefficients(&scalars(&[9]));
    assert_eq!(s, scalars(&[1, 9]));
}

#[test]
fn b_poly_coefficients_two_challenges_exact() {
    // (1 + c0 x^2)(1 + c1 x) = 1 + c1 x + c0 x^2 + c0 c1 x^3 for c0 = 3, c1 = 7.
    let s = b_poly_coefficients(&scalars(&[3, 7]));
    assert_eq!(s, scalars(&[1, 7, 3, 21]));
}

#[test]
fn b_poly_coefficients_evaluate_to_b_poly() {
    let samples = [0u64, 1, 2, 5, 12345, 2147483628];
    for k in [0usize, 1, 2, 5] {
        let chals: Vec<Scalar> = (0..k).map(|i| Scalar::new(1000 * i as u64 + 3)).collect();
        let coeffs = b_poly_coefficients(&chals);
        assert_eq!(coeffs.len(), 1 << k);
        for &x in &samples {
            let x = Scalar::new(x);
            assert_eq!(eval_polynomial(&coeffs, x), b_poly(&chals, x));
        }
    }
}

#[test]
fn eval_polynomial_exact_value() {
    // 2 + 3*10 + 4*100 = 432
    assert_eq!(
        eval_polynomial(&scalars(&[2, 3, 4]), Scalar::new(10)),
        Scalar::new(432)
    );
    assert_eq!(eval_polynomial(&[], Scalar::new(10)), Scalar::zero());
}

#[test]
fn to_field_folds_with_the_endo_constant() {
    let chal = ScalarChallenge(Scalar::new(21));
    assert_eq!(chal.to_field(&Scalar::new(4)), Scalar::new(84));
}

#[test]
fn squeeze_prechallenge_reads_the_state() {
    let mut sponge = Sponge::new();
    sponge.absorb(Scalar::new(5));
    // state = 0*0 + 5
    let pre = squeeze_prechallenge(&mut sponge);
    assert_eq!(pre.0, Scalar::new(5));
    // squeezing advanced the state to 5*5 + 1
    let pre2 = squeeze_prechallenge(&mut sponge);
    assert_eq!(pre2.0, Scalar::new(26));
}

#[test]
fn squeeze_challenge_is_prechallenge_folded() {
    let endo_r = Scalar::new(3);
    let mut a = Sponge::new();
    a.absorb(Scalar::new(5));
    let mut b = a;
    let folded = squeeze_challenge(&endo_r, &mut a);
    let pre = squeeze_prechallenge(&mut b);
    assert_eq!(folded, pre.0.mul(endo_r));
}

#[test]
fn absorb_commitment_feeds_chunks_in_order() {
    let c1 = PolyComm::new(vec![Point::new(2), Point::new(3)]);
    let c2 = PolyComm::new(vec![Point::new(3), Point::new(2)]);
    let mut s1 = Sponge::new();
    let mut s2 = Sponge::new();
    let mut s3 = Sponge::new();
    absorb_commitment(&mut s1, &c1);
    absorb_commitment(&mut s2, &c2);
    // chunk order is binding: reordering changes the state
    assert_ne!(s1, s2);
    // absorbing chunk by chunk in order gives the same state
    s3.absorb(Scalar::new(2));
    s3.absorb(Scalar::new(3));
    assert_eq!(s1, s3);
}
