use poly_commitment::commitment::{CamlPolyComm, PolyComm};
use poly_commitment::curve::{combine, combine_one, combine_one_endo, shift_scalar, Point};
use poly_commitment::field::{Scalar, INV_TWO, MODULUS};
use poly_commitment::transcript::ScalarChallenge;

fn pc(reps: &[u64]) -> PolyComm<Point> {
    PolyComm::new(reps.iter().map(|&r| Point::new(r)).collect())
}

fn reps(c: &PolyComm<Point>) -> Vec<u64> {
    c.elems.iter().map(|p| p.rep).collect()
}

#[test]
fn new_len_is_empty() {
    let c = pc(&[3, 5]);
    assert_eq!(c.len(), 2);
    assert!(!c.is_empty());
    let e: PolyComm<Point> = PolyComm::new(vec![]);
    assert_eq!(e.len(), 0);
    assert!(e.is_empty());
}

#[test]
fn map_applies_to_every_chunk() {
    let c = pc(&[1, 2, 3]);
    let doubled = c.map(|p: Point| p.scale(Scalar::new(2)));
    assert_eq!(reps(&doubled), vec![2, 4, 6]);
}

#[test]
fn add_is_commutative() {
    let a = pc(&[1, 2, 3]);
    let b = pc(&[10, 20]);
    assert_eq!(a.add(&b), b.add(&a));
}

#[test]
fn add_is_associative() {
    let a = pc(&[1, 2, 3]);
    let b = pc(&[10, 20]);
    let c = pc(&[100]);
    assert_eq!(a.add(&b).add(&c), a.add(&b.add(&c)));
}

#[test]
fn add_identity_single_chunk() {
    let c = pc(&[7, 11]);
    let identity = pc(&[0]);
    assert_eq!(c.add(&identity), c);
}

#[test]
fn add_zero_pads_shorter_operand() {
    let a = pc(&[1, 2, 3]);
    let b = pc(&[10]);
    assert_eq!(reps(&a.add(&b)), vec![11, 2, 3]);
}

#[test]
fn sub_matches_add_of_negation() {
    let a = pc(&[5, MODULUS - 1]);
    let b = pc(&[7, 3]);
    let d = a.sub(&b);
    assert_eq!(reps(&d.add(&b)), reps(&a));
}

#[test]
fn scale_then_scale_is_scale_by_product() {
    let c = pc(&[2, 9, 31]);
    let a = Scalar::new(12345);
    let b = Scalar::new(987);
    assert_eq!(c.scale(a).scale(b), c.scale(a.mul(b)));
}

#[test]
fn scale_by_one_is_identity() {
    let c = pc(&[4, 8]);
    assert_eq!(c.scale(Scalar::one()), c);
}

#[test]
fn msm_single_commitment_scalar_one() {
    let c = pc(&[17, 23, 29]);
    let r = PolyComm::multi_scalar_mul(&[&c], &[Scalar::one()]);
    assert_eq!(r, c);
}

#[test]
fn msm_empty_inputs_give_identity_commitment() {
    let r = PolyComm::multi_scalar_mul(&[], &[]);
    assert_eq!(reps(&r), vec![0]);
}

#[test]
fn msm_weights_and_sums_chunks() {
    let a = pc(&[1, 2]);
    let b = pc(&[10, 20]);
    let r = PolyComm::multi_scalar_mul(&[&a, &b], &[Scalar::new(3), Scalar::new(5)]);
    // chunk 0: 3*1 + 5*10 = 53; chunk 1: 3*2 + 5*20 = 106
    assert_eq!(reps(&r), vec![53, 106]);
}

#[test]
fn msm_skips_missing_chunks_of_ragged_commitments() {
    let a = pc(&[1]);
    let b = pc(&[10, 20]);
    let r = PolyComm::multi_scalar_mul(&[&a, &b], &[Scalar::new(3), Scalar::new(5)]);
    // chunk 0: 3*1 + 5*10 = 53; chunk 1 only b: 5*20 = 100
    assert_eq!(reps(&r), vec![53, 100]);
}

#[test]
fn zip_pairs_equal_lengths() {
    let a = pc(&[1, 2]);
    let b = PolyComm::new(vec![Scalar::new(5), Scalar::new(6)]);
    let z = a.zip(&b).unwrap();
    assert_eq!(z.elems.len(), 2);
    assert_eq!(z.elems[0], (Point::new(1), Scalar::new(5)));
    assert_eq!(z.elems[1], (Point::new(2), Scalar::new(6)));
}

#[test]
fn zip_rejects_unequal_lengths() {
    let a = pc(&[1, 2]);
    let b = PolyComm::new(vec![Scalar::new(5)]);
    assert!(a.zip(&b).is_none());
}

#[test]
fn combine_is_elementwise_weighted_sum() {
    let g1 = [Point::new(1), Point::new(2)];
    let g2 = [Point::new(10), Point::new(20)];
    let r = combine(&g1, &g2, Scalar::new(3), Scalar::new(5));
    // 3*1 + 5*10 = 53; 3*2 + 5*20 = 106
    assert_eq!(r, vec![Point::new(53), Point::new(106)]);
}

#[test]
fn combine_one_fixes_first_weight_to_one() {
    let g1 = [Point::new(7)];
    let g2 = [Point::new(20)];
    let r = combine_one(&g1, &g2, Scalar::new(5));
    assert_eq!(r, vec![Point::new(107)]);
}

#[test]
fn combine_one_endo_folds_the_prechallenge_first() {
    let g1 = [Point::new(7)];
    let g2 = [Point::new(20)];
    let endo_r = Scalar::new(3);
    let chal = ScalarChallenge(Scalar::new(5));
    let r = combine_one_endo(endo_r, &g1, &g2, chal);
    // folded scalar is 5 * 3 = 15; 7 + 15 * 20 = 307
    assert_eq!(r, vec![Point::new(307)]);
}

#[test]
fn shift_scalar_plain_branch_subtracts_two_pow_n() {
    // 2^31 mod MODULUS = 19, so the plain inverse map subtracts 19.
    let r = shift_scalar(Scalar::new(100), MODULUS);
    assert_eq!(r, Scalar::new(81));
    // Reconstructing the in-circuit convention x + 2^n returns the input.
    let two_pow = Scalar::new(2).pow(31);
    assert_eq!(r.add(two_pow), Scalar::new(100));
}

#[test]
fn shift_scalar_halved_branch_subtracts_and_halves() {
    // (100 - 19 - 1) / 2 = 40.
    let r = shift_scalar(Scalar::new(100), MODULUS + 2);
    assert_eq!(r, Scalar::new(40));
    // Reconstructing the in-circuit convention 2x + 2^n + 1 returns the input.
    let two_pow = Scalar::new(2).pow(31);
    let back = Scalar::new(2).mul(r).add(two_pow).add(Scalar::one());
    assert_eq!(back, Scalar::new(100));
}

#[test]
fn shift_scalar_roundtrip_on_samples_in_both_branches() {
    let two_pow = Scalar::new(2).pow(31);
    for &x in &[0u64, 1, 2, 19, 20, 12345, MODULUS - 1, 987654321] {
        let x = Scalar::new(x);
        let plain = shift_scalar(x, MODULUS);
        assert_eq!(plain.add(two_pow), x);
        let halved = shift_scalar(x, MODULUS + 1);
        assert_eq!(Scalar::new(2).mul(halved).add(two_pow).add(Scalar::one()), x);
    }
}

#[test]
fn inv_two_really_halves() {
    assert_eq!(Scalar::new(2).mul(Scalar { rep: INV_TWO }), Scalar::one());
}

#[test]
fn caml_round_trip_without_shifted() {
    let c = pc(&[1, 2, 3]);
    let caml = CamlPolyComm::from(c.clone());
    assert_eq!(caml.unshifted, c.elems);
    assert!(caml.shifted.is_none());
    let back: PolyComm<Point> = PolyComm::from(caml);
    assert_eq!(back, c);
}
