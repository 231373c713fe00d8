//! The commitment group and its combination capabilities.
//!
//! Commitments live in a prime-order abelian group whose scalar field is
//! `field::Scalar`. The group is modeled as the additive group of residues
//! modulo the same prime: `Point` holds one reduced residue, the group law is
//! residue addition, and the scalar action is residue multiplication. Every
//! group-law fact the commitment algebra needs is proved from the field
//! lemmas.
//!
//! The module also provides the element-wise combination capabilities a
//! commitment curve must expose — `combine`, its `x1 = 1` specialization
//! `combine_one`, and the endomorphism-driven `combine_one_endo` that accepts
//! a pre-challenge — together with `shift_scalar`, which undoes the in-circuit
//! scalar-multiplication convention.

use vstd::prelude::*;

verus! {

use crate::field::{
    f_add, f_mul, f_pow, f_sub, lemma_f_mul_assoc, lemma_f_mul_comm, lemma_f_mul_one,
    lemma_ops_reduced, reduced, Scalar, INV_TWO, MODULUS, MODULUS_BIT_SIZE,
};
use crate::transcript::{endo_fold, ScalarChallenge};
use vstd::arithmetic::div_mod::{lemma_add_mod_noop_right, lemma_small_mod};

/// A point of the commitment group, held as a reduced residue. The residue
/// `0` is the group identity (the model of the point at infinity).
#[derive(Clone, Copy, PartialEq, Eq, Structural, Debug)]
pub struct Point {
    pub rep: u64,
}

impl View for Point {
    type V = int;

    open spec fn view(&self) -> int {
        self.rep as int
    }
}

/// The residues of a sequence of points.
pub open spec fn points_view(s: Seq<Point>) -> Seq<int> {
    Seq::new(s.len(), |i: int| s[i]@)
}

/// Every residue of the sequence is reduced.
pub open spec fn all_reduced(s: Seq<int>) -> bool {
    forall|i: int| 0 <= i < s.len() ==> reduced(#[trigger] s[i])
}

impl Point {
    /// Whether the representation is reduced.
    pub open spec fn wf(self) -> bool {
        reduced(self@)
    }

    /// Builds a point of a `u64` residue, reducing it.
    pub fn new(v: u64) -> (r: Point)
        ensures
            r.wf(),
            r@ == v as int % (MODULUS as int),
    {
        Point { rep: v % MODULUS }
    }

    /// The group identity.
    pub fn identity() -> (r: Point)
        ensures
            r.wf(),
            r@ == 0,
    {
        Point { rep: 0 }
    }

    /// The group law.
    pub fn add(self, other: Point) -> (r: Point)
        requires
            self.wf(),
            other.wf(),
        ensures
            r.wf(),
            r@ == f_add(self@, other@),
    {
        let s: Scalar = Scalar { rep: self.rep }.add(Scalar { rep: other.rep });
        Point { rep: s.rep }
    }

    /// Group subtraction.
    pub fn sub(self, other: Point) -> (r: Point)
        requires
            self.wf(),
            other.wf(),
        ensures
            r.wf(),
            r@ == f_sub(self@, other@),
    {
        let s: Scalar = Scalar { rep: self.rep }.sub(Scalar { rep: other.rep });
        Point { rep: s.rep }
    }

    /// The scalar action on the group.
    pub fn scale(self, c: Scalar) -> (r: Point)
        requires
            self.wf(),
            c.wf(),
        ensures
            r.wf(),
            r@ == f_mul(self@, c@),
    {
        let s: Scalar = Scalar { rep: self.rep }.mul(c);
        Point { rep: s.rep }
    }
}

/// The element-wise scalar combination of two point sequences:
/// entry `i` is `x1 * g1[i] + x2 * g2[i]`.
pub open spec fn combine_view(g1: Seq<int>, g2: Seq<int>, x1: int, x2: int) -> Seq<int> {
    Seq::new(g1.len(), |i: int| f_add(f_mul(x1, g1[i]), f_mul(x2, g2[i])))
}

/// Combines two equal-length point sequences element-wise:
/// `x1 * g1[i] + x2 * g2[i]`. A length mismatch is a protocol bug upstream
/// and is excluded by contract.
pub fn combine(g1: &[Point], g2: &[Point], x1: Scalar, x2: Scalar) -> (r: Vec<Point>)
    requires
        g1@.len() == g2@.len(),
        all_reduced(points_view(g1@)),
        all_reduced(points_view(g2@)),
        x1.wf(),
        x2.wf(),
    ensures
        all_reduced(points_view(r@)),
        points_view(r@) == combine_view(points_view(g1@), points_view(g2@), x1@, x2@),
{
    let mut out: Vec<Point> = Vec::new();
    let n: usize = g1.len();
    let mut i: usize = 0;
    while i < n
        invariant
            n == g1@.len(),
            g1@.len() == g2@.len(),
            all_reduced(points_view(g1@)),
            all_reduced(points_view(g2@)),
            x1.wf(),
            x2.wf(),
            i <= n,
            out@.len() == i,
            forall|j: int|
                0 <= j < i ==> (#[trigger] out@[j])@ == f_add(
                    f_mul(x1@, g1@[j]@),
                    f_mul(x2@, g2@[j]@),
                ) && out@[j].wf(),
        decreases n - i,
    {
        proof {
            assert(points_view(g1@)[i as int] == g1@[i as int]@);
            assert(points_view(g2@)[i as int] == g2@[i as int]@);
            lemma_f_mul_comm(g1@[i as int]@, x1@);
            lemma_f_mul_comm(g2@[i as int]@, x2@);
        }
        let p: Point = g1[i].scale(x1).add(g2[i].scale(x2));
        out.push(p);
        i = i + 1;
    }
    proof {
        assert(points_view(out@) =~= combine_view(points_view(g1@), points_view(g2@), x1@, x2@));
    }
    out
}

/// `combine` specialized to `x1 = 1`: entry `i` is `g1[i] + x2 * g2[i]`.
pub fn combine_one(g1: &[Point], g2: &[Point], x2: Scalar) -> (r: Vec<Point>)
    requires
        g1@.len() == g2@.len(),
        all_reduced(points_view(g1@)),
        all_reduced(points_view(g2@)),
        x2.wf(),
    ensures
        all_reduced(points_view(r@)),
        points_view(r@) == combine_view(points_view(g1@), points_view(g2@), 1, x2@),
{
    combine(g1, g2, Scalar::one(), x2)
}

/// `combine_one` driven by a pre-challenge: the scalar `x2` is obtained by
/// folding the pre-challenge with the endomorphism constant `endo_r`.
pub fn combine_one_endo(
    endo_r: Scalar,
    g1: &[Point],
    g2: &[Point],
    x2: ScalarChallenge,
) -> (r: Vec<Point>)
    requires
        g1@.len() == g2@.len(),
        all_reduced(points_view(g1@)),
        all_reduced(points_view(g2@)),
        endo_r.wf(),
        x2.0.wf(),
    ensures
        all_reduced(points_view(r@)),
        points_view(r@) == combine_view(
            points_view(g1@),
            points_view(g2@),
            1,
            endo_fold(x2.0@, endo_r@),
        ),
{
    let x: Scalar = x2.to_field(&endo_r);
    combine_one(g1, g2, x)
}

/// `2^n` in the scalar field, for `n` the field's bit length.
pub open spec fn two_pow_n() -> int {
    f_pow(2, MODULUS_BIT_SIZE as nat)
}

/// The shifted scalar when the in-circuit gadget computes `g * (x + 2^n)`.
pub open spec fn shift_plain(x: int) -> int {
    f_sub(x, two_pow_n())
}

/// The shifted scalar when the in-circuit gadget computes `g * (2x + 2^n)`.
pub open spec fn shift_halved(x: int) -> int {
    f_mul(f_sub(x, f_add(two_pow_n(), 1)), INV_TWO as int)
}

/// Remaps a scalar into the value the in-circuit scalar-multiplication gadget
/// expects. The gadget computes `g * (x + 2^n)` — or `g * (2x + 2^n)` when
/// the scalar field's modulus is smaller than the base field's modulus read
/// as an integer — for `n` the scalar field's bit length, so the inverse map
/// `x - 2^n` (or `(x - 2^n - 1) / 2`) is applied before the scalar is handed
/// to the gadget. `base_modulus` is the modulus of the curve's base field.
pub fn shift_scalar(x: Scalar, base_modulus: u64) -> (r: Scalar)
    requires
        x.wf(),
    ensures
        r.wf(),
        MODULUS < base_modulus ==> r@ == shift_halved(x@),
        MODULUS >= base_modulus ==> r@ == shift_plain(x@),
{
    let two_pow: Scalar = Scalar::new(2).pow(MODULUS_BIT_SIZE);
    if MODULUS < base_modulus {
        x.sub(two_pow.add(Scalar::one())).mul(Scalar { rep: INV_TWO })
    } else {
        x.sub(two_pow)
    }
}

/// Subtracting and re-adding the same residue returns a reduced input.
proof fn lemma_sub_add_cancel(x: int, t: int)
    requires
        reduced(x),
    ensures
        f_add(f_sub(x, t), t) == x,
{
    lemma_add_mod_noop_right(t, x - t, MODULUS as int);
    lemma_small_mod(x as nat, MODULUS as nat);
}

/// Law: the plain in-circuit convention `y + 2^n` applied to the shifted
/// scalar returns the original scalar.
pub proof fn lemma_shift_scalar_plain_roundtrip(x: int)
    requires
        reduced(x),
    ensures
        f_add(shift_plain(x), two_pow_n()) == x,
{
    lemma_sub_add_cancel(x, two_pow_n());
}

/// Law: the halved in-circuit convention `2y + 2^n + 1` applied to the
/// shifted scalar returns the original scalar.
pub proof fn lemma_shift_scalar_halved_roundtrip(x: int)
    requires
        reduced(x),
    ensures
        f_add(f_mul(2, shift_halved(x)), f_add(two_pow_n(), 1)) == x,
{
    let c = f_add(two_pow_n(), 1);
    let d = f_sub(x, c);
    lemma_ops_reduced(x, c);
    lemma_f_mul_comm(d, INV_TWO as int);
    lemma_f_mul_assoc(2, INV_TWO as int, d);
    assert(f_mul(2, INV_TWO as int) == 1);
    lemma_f_mul_one(d);
    lemma_sub_add_cancel(x, c);
}

} // verus!
