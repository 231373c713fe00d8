//! The scalar field of the commitment group.
//!
//! Field elements are residues modulo a 31-bit prime, held reduced in a
//! `u64`. Every operation carries an exact contract over the mathematical
//! residue (`f_add`, `f_mul`, ...), and the lemmas at the end of the module
//! establish the ring laws the rest of the crate builds on.

use vstd::prelude::*;

verus! {

use vstd::arithmetic::div_mod::{
    lemma_add_mod_noop, lemma_add_mod_noop_right, lemma_mod_bound,
    lemma_mul_mod_noop_general, lemma_small_mod, lemma_mod_add_multiples_vanish,
};

/// The prime modulus of the scalar field: `2^31 - 19`.
pub const MODULUS: u64 = 2147483629;

/// The field's bit length: the number of bits of `MODULUS`.
pub const MODULUS_BIT_SIZE: u64 = 31;

/// The inverse of 2 in the field, `(MODULUS + 1) / 2`.
pub const INV_TWO: u64 = 1073741815;

/// A residue is reduced when it lies in `[0, MODULUS)`.
pub open spec fn reduced(x: int) -> bool {
    0 <= x < MODULUS as int
}

/// Field addition on residues.
pub open spec fn f_add(a: int, b: int) -> int {
    (a + b) % (MODULUS as int)
}

/// Field subtraction on residues.
pub open spec fn f_sub(a: int, b: int) -> int {
    (a - b) % (MODULUS as int)
}

/// Field multiplication on residues.
pub open spec fn f_mul(a: int, b: int) -> int {
    (a * b) % (MODULUS as int)
}

/// Field exponentiation by a natural number.
pub open spec fn f_pow(a: int, e: nat) -> int
    decreases e,
{
    if e == 0 {
        1
    } else {
        f_mul(a, f_pow(a, (e - 1) as nat))
    }
}

/// The value of the polynomial with coefficient sequence `coeffs` at `x`:
/// `sum_j coeffs[j] * x^j`, written in Horner form.
pub open spec fn eval_poly(coeffs: Seq<int>, x: int) -> int
    decreases coeffs.len(),
{
    if coeffs.len() == 0 {
        0
    } else {
        f_add(coeffs[0], f_mul(x, eval_poly(coeffs.skip(1), x)))
    }
}

/// A scalar field element, held as a reduced residue.
#[derive(Clone, Copy, PartialEq, Eq, Structural, Debug)]
pub struct Scalar {
    pub rep: u64,
}

impl View for Scalar {
    type V = int;

    open spec fn view(&self) -> int {
        self.rep as int
    }
}

impl Scalar {
    /// Whether the representation is reduced.
    pub open spec fn wf(self) -> bool {
        reduced(self@)
    }

    /// Builds the element of a `u64`, reducing it.
    pub fn new(v: u64) -> (r: Scalar)
        ensures
            r.wf(),
            r@ == v as int % (MODULUS as int),
    {
        Scalar { rep: v % MODULUS }
    }

    /// The additive identity.
    pub fn zero() -> (r: Scalar)
        ensures
            r.wf(),
            r@ == 0,
    {
        Scalar { rep: 0 }
    }

    /// The multiplicative identity.
    pub fn one() -> (r: Scalar)
        ensures
            r.wf(),
            r@ == 1,
    {
        Scalar { rep: 1 }
    }

    /// Field addition.
    pub fn add(self, other: Scalar) -> (r: Scalar)
        requires
            self.wf(),
            other.wf(),
        ensures
            r.wf(),
            r@ == f_add(self@, other@),
    {
        let s: u64 = self.rep + other.rep;
        let rep: u64 = if s >= MODULUS {
            s - MODULUS
        } else {
            s
        };
        proof {
            if s >= MODULUS {
                lemma_mod_add_multiples_vanish(s as int - MODULUS as int, MODULUS as int);
                lemma_small_mod((s - MODULUS) as nat, MODULUS as nat);
            } else {
                lemma_small_mod(s as nat, MODULUS as nat);
            }
        }
        Scalar { rep }
    }

    /// Field subtraction.
    pub fn sub(self, other: Scalar) -> (r: Scalar)
        requires
            self.wf(),
            other.wf(),
        ensures
            r.wf(),
            r@ == f_sub(self@, other@),
    {
        let rep: u64 = if self.rep >= other.rep {
            self.rep - other.rep
        } else {
            self.rep + MODULUS - other.rep
        };
        proof {
            if self.rep >= other.rep {
                lemma_small_mod((self.rep - other.rep) as nat, MODULUS as nat);
            } else {
                lemma_mod_add_multiples_vanish(self@ - other@, MODULUS as int);
                lemma_small_mod((self.rep + MODULUS - other.rep) as nat, MODULUS as nat);
            }
        }
        Scalar { rep }
    }

    /// Field multiplication.
    pub fn mul(self, other: Scalar) -> (r: Scalar)
        requires
            self.wf(),
            other.wf(),
        ensures
            r.wf(),
            r@ == f_mul(self@, other@),
    {
        proof {
            assert((self.rep as int) * (other.rep as int) < 0x4000000000000000) by (nonlinear_arith)
                requires
                    self.rep < 0x80000000u64,
                    other.rep < 0x80000000u64;
        }
        let prod: u64 = self.rep * other.rep;
        Scalar { rep: prod % MODULUS }
    }

    /// Field squaring.
    pub fn square(self) -> (r: Scalar)
        requires
            self.wf(),
        ensures
            r.wf(),
            r@ == f_mul(self@, self@),
    {
        self.mul(self)
    }

    /// Field exponentiation by square-free repeated multiplication.
    pub fn pow(self, e: u64) -> (r: Scalar)
        requires
            self.wf(),
        ensures
            r.wf(),
            r@ == f_pow(self@, e as nat),
    {
        let mut acc: Scalar = Scalar::one();
        let mut i: u64 = 0;
        while i < e
            invariant
                self.wf(),
                acc.wf(),
                i <= e,
                acc@ == f_pow(self@, i as nat),
            decreases e - i,
        {
            proof {
                lemma_f_mul_comm(acc@, self@);
            }
            acc = acc.mul(self);
            i = i + 1;
        }
        acc
    }
}

/// Reduction is idempotent: a reduced residue is its own remainder.
pub proof fn lemma_reduced_mod(a: int)
    requires
        reduced(a),
    ensures
        a % (MODULUS as int) == a,
{
    lemma_small_mod(a as nat, MODULUS as nat);
}

/// Every field operation returns a reduced residue.
pub proof fn lemma_ops_reduced(a: int, b: int)
    ensures
        reduced(f_add(a, b)),
        reduced(f_sub(a, b)),
        reduced(f_mul(a, b)),
{
    lemma_mod_bound(a + b, MODULUS as int);
    lemma_mod_bound(a - b, MODULUS as int);
    lemma_mod_bound(a * b, MODULUS as int);
}

/// Powers are reduced residues.
pub proof fn lemma_pow_reduced(a: int, e: nat)
    ensures
        reduced(f_pow(a, e)),
    decreases e,
{
    if e == 0 {
    } else {
        lemma_pow_reduced(a, (e - 1) as nat);
        lemma_ops_reduced(a, f_pow(a, (e - 1) as nat));
    }
}

/// Addition is associative.
pub proof fn lemma_f_add_assoc(a: int, b: int, c: int)
    ensures
        f_add(f_add(a, b), c) == f_add(a, f_add(b, c)),
{
    lemma_add_mod_noop_right(c, a + b, MODULUS as int);
    lemma_add_mod_noop_right(a, b + c, MODULUS as int);
}

/// Adding zero leaves a reduced residue unchanged.
pub proof fn lemma_f_add_zero(a: int)
    requires
        reduced(a),
    ensures
        f_add(a, 0) == a,
{
    lemma_reduced_mod(a);
}

/// Multiplication is commutative.
pub proof fn lemma_f_mul_comm(a: int, b: int)
    ensures
        f_mul(a, b) == f_mul(b, a),
{
    assert(a * b == b * a) by (nonlinear_arith);
}

/// Multiplication is associative.
pub proof fn lemma_f_mul_assoc(a: int, b: int, c: int)
    ensures
        f_mul(f_mul(a, b), c) == f_mul(a, f_mul(b, c)),
{
    lemma_mul_mod_noop_general(a * b, c, MODULUS as int);
    lemma_mul_mod_noop_general(a, b * c, MODULUS as int);
    assert((a * b) * c == a * (b * c)) by (nonlinear_arith);
}

/// Multiplying a reduced residue by one leaves it unchanged.
pub proof fn lemma_f_mul_one(a: int)
    requires
        reduced(a),
    ensures
        f_mul(1, a) == a,
        f_mul(a, 1) == a,
{
    lemma_reduced_mod(a);
}

/// Multiplication distributes over addition.
pub proof fn lemma_f_mul_distrib(a: int, b: int, c: int)
    ensures
        f_mul(a, f_add(b, c)) == f_add(f_mul(a, b), f_mul(a, c)),
{
    lemma_mul_mod_noop_general(a, b + c, MODULUS as int);
    assert(a * (b + c) == a * b + a * c) by (nonlinear_arith);
    lemma_add_mod_noop(a * b, a * c, MODULUS as int);
}

/// Exponents add: `a^(m + n) == a^m * a^n`.
pub proof fn lemma_f_pow_adds(a: int, m: nat, n: nat)
    ensures
        f_pow(a, m + n) == f_mul(f_pow(a, m), f_pow(a, n)),
    decreases m,
{
    if m == 0 {
        lemma_pow_reduced(a, n);
        lemma_f_mul_one(f_pow(a, n));
    } else {
        lemma_f_pow_adds(a, (m - 1) as nat, n);
        assert(f_pow(a, (m + n)) == f_mul(a, f_pow(a, ((m - 1) + n) as nat)));
        lemma_f_mul_assoc(a, f_pow(a, (m - 1) as nat), f_pow(a, n));
    }
}

} // verus!
