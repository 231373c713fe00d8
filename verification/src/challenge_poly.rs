//! The challenge polynomial induced by the folding rounds.
//!
//! Given `k` round challenges `c_0 .. c_{k-1}`, the induced polynomial is
//! `B(x) = prod_{i < k} (1 + c_i * x^(2^(k-1-i)))`. The verifier needs both
//! its value at a point (`b_poly`, by successive squarings) and its full
//! coefficient vector (`b_poly_coefficients`, by the binary-recursive
//! structure of the tensor-product expansion). Both are specified against the
//! same product `b_poly_spec`, and the evaluation lemma at the end of the
//! module proves that the coefficient vector really is the coefficient vector
//! of that product.

use vstd::prelude::*;

verus! {

use crate::curve::all_reduced;
use crate::commitment::scalars_view;
use crate::field::{
    eval_poly, f_add, f_mul, f_pow, lemma_f_add_assoc, lemma_f_add_zero, lemma_f_mul_assoc,
    lemma_f_mul_comm, lemma_f_mul_distrib, lemma_f_mul_one, lemma_f_pow_adds, lemma_ops_reduced,
    reduced, Scalar,
};
use vstd::arithmetic::power2::{
    lemma_pow2_strictly_increases, lemma_pow2_unfold, lemma2_to64, pow2,
};

/// The value of the challenge polynomial
/// `prod_{i < k} (1 + chals[i] * x^(2^(k-1-i)))`.
pub open spec fn b_poly_spec(chals: Seq<int>, x: int) -> int
    decreases chals.len(),
{
    if chals.len() == 0 {
        1
    } else {
        f_mul(
            f_add(1, f_mul(chals[0], f_pow(x, pow2((chals.len() - 1) as nat)))),
            b_poly_spec(chals.skip(1), x),
        )
    }
}

/// The product of a sequence of residues, left to right.
pub open spec fn product_spec(xs: Seq<int>) -> int
    decreases xs.len(),
{
    if xs.len() == 0 {
        1
    } else {
        f_mul(product_spec(xs.drop_last()), xs.last())
    }
}

/// The value of the challenge polynomial is a reduced residue.
pub proof fn lemma_b_poly_reduced(chals: Seq<int>, x: int)
    ensures
        reduced(b_poly_spec(chals, x)),
    decreases chals.len(),
{
    if chals.len() == 0 {
    } else {
        lemma_ops_reduced(
            f_add(1, f_mul(chals[0], f_pow(x, pow2((chals.len() - 1) as nat)))),
            b_poly_spec(chals.skip(1), x),
        );
    }
}

/// Returns the product of all the field elements of a slice.
pub fn product(xs: &[Scalar]) -> (r: Scalar)
    requires
        all_reduced(scalars_view(xs@)),
    ensures
        r.wf(),
        r@ == product_spec(scalars_view(xs@)),
{
    let ghost sv: Seq<int> = scalars_view(xs@);
    let mut res: Scalar = Scalar::one();
    let n: usize = xs.len();
    let mut i: usize = 0;
    while i < n
        invariant
            n == xs@.len(),
            sv == scalars_view(xs@),
            all_reduced(sv),
            i <= n,
            res.wf(),
            res@ == product_spec(sv.take(i as int)),
        decreases n - i,
    {
        proof {
            assert(sv[i as int] == xs@[i as int]@);
            assert(sv.take(i as int + 1).drop_last() =~= sv.take(i as int));
            assert(sv.take(i as int + 1).last() == sv[i as int]);
        }
        res = res.mul(xs[i]);
        i = i + 1;
    }
    proof {
        assert(sv.take(n as int) =~= sv);
    }
    res
}

/// Evaluates the challenge polynomial at `x` by successive squarings:
/// computes `x, x^2, x^4, ..., x^(2^(k-1))` and takes the product
/// `prod_{i < k} (1 + chals[i] * x^(2^(k-1-i)))`.
pub fn b_poly(chals: &[Scalar], x: Scalar) -> (r: Scalar)
    requires
        all_reduced(scalars_view(chals@)),
        x.wf(),
    ensures
        r.wf(),
        r@ == b_poly_spec(scalars_view(chals@), x@),
{
    let ghost cv: Seq<int> = scalars_view(chals@);
    let k: usize = chals.len();
    let mut pow_twos: Vec<Scalar> = Vec::new();
    if k > 0 {
        pow_twos.push(x);
        proof {
            lemma2_to64();
            assert(f_pow(x@, 0) == 1);
            assert(f_pow(x@, 1) == f_mul(x@, 1));
            lemma_f_mul_one(x@);
        }
        let mut i: usize = 1;
        while i < k
            invariant
                k == chals@.len(),
                x.wf(),
                1 <= i <= k,
                pow_twos@.len() == i,
                forall|j: int|
                    0 <= j < i ==> (#[trigger] pow_twos@[j]).wf() && pow_twos@[j]@ == f_pow(
                        x@,
                        pow2(j as nat),
                    ),
            decreases k - i,
        {
            let prev: Scalar = pow_twos[i - 1];
            proof {
                lemma_pow2_unfold(i as nat);
                lemma_f_pow_adds(x@, pow2((i - 1) as nat), pow2((i - 1) as nat));
            }
            pow_twos.push(prev.square());
            i = i + 1;
        }
    }
    let mut acc: Scalar = Scalar::one();
    proof {
        lemma2_to64();
        assert(cv.skip(0) =~= cv);
        lemma_b_poly_reduced(cv, x@);
        lemma_f_mul_one(b_poly_spec(cv, x@));
    }
    let mut i: usize = 0;
    while i < k
        invariant
            k == chals@.len(),
            cv == scalars_view(chals@),
            all_reduced(cv),
            x.wf(),
            i <= k,
            pow_twos@.len() == k,
            forall|j: int|
                0 <= j < k ==> (#[trigger] pow_twos@[j]).wf() && pow_twos@[j]@ == f_pow(
                    x@,
                    pow2(j as nat),
                ),
            acc.wf(),
            f_mul(acc@, b_poly_spec(cv.skip(i as int), x@)) == b_poly_spec(cv, x@),
        decreases k - i,
    {
        proof {
            assert(cv[i as int] == chals@[i as int]@);
        }
        let term: Scalar = Scalar::one().add(chals[i].mul(pow_twos[k - 1 - i]));
        proof {
            let tail = cv.skip(i as int);
            assert(tail[0] == cv[i as int]);
            assert(tail.skip(1) =~= cv.skip(i as int + 1));
            assert(tail.len() - 1 == k - 1 - i);
            assert(term@ == f_add(1, f_mul(cv[i as int], f_pow(x@, pow2((k - 1 - i) as nat)))));
            assert(b_poly_spec(tail, x@) == f_mul(term@, b_poly_spec(cv.skip(i as int + 1), x@)));
            lemma_f_mul_assoc(acc@, term@, b_poly_spec(cv.skip(i as int + 1), x@));
        }
        acc = acc.mul(term);
        i = i + 1;
    }
    proof {
        assert(cv.skip(k as int) =~= Seq::<int>::empty());
        assert(b_poly_spec(Seq::<int>::empty(), x@) == 1);
        lemma_f_mul_one(acc@);
    }
    acc
}

/// The coefficient vector of the challenge polynomial, low degree first.
/// With no challenges it is the constant polynomial `[1]`; with a first
/// challenge `c`, it is the vector for the remaining challenges followed by
/// the same vector scaled by `c` — the top bit of a coefficient index selects
/// whether `c` divides that coefficient.
pub open spec fn b_coeffs(chals: Seq<int>) -> Seq<int>
    decreases chals.len(),
{
    if chals.len() == 0 {
        seq![1int]
    } else {
        let t = b_coeffs(chals.skip(1));
        t + t.map_values(|v: int| f_mul(v, chals[0]))
    }
}

/// The coefficient vector has length `2^k` for `k` challenges.
pub proof fn lemma_b_coeffs_len(chals: Seq<int>)
    ensures
        b_coeffs(chals).len() == pow2(chals.len()),
    decreases chals.len(),
{
    if chals.len() == 0 {
        lemma2_to64();
    } else {
        lemma_b_coeffs_len(chals.skip(1));
        lemma_pow2_unfold(chals.len());
    }
}

/// The constant coefficient is 1.
pub proof fn lemma_b_coeffs_first(chals: Seq<int>)
    ensures
        b_coeffs(chals).len() >= 1,
        b_coeffs(chals)[0] == 1,
    decreases chals.len(),
{
    if chals.len() == 0 {
    } else {
        lemma_b_coeffs_first(chals.skip(1));
    }
}

/// The recurrence the coefficient algorithm walks: stripping the top bit of
/// an index divides its coefficient by the challenge that bit selects. For
/// `2^t <= idx < 2^(t+1)`, coefficient `idx` is coefficient `idx - 2^t`
/// times `chals[k-1-t]`.
pub proof fn lemma_b_coeffs_step(chals: Seq<int>, t: nat, idx: int)
    requires
        t < chals.len(),
        pow2(t) <= idx < pow2(t + 1),
    ensures
        0 <= idx - pow2(t) < pow2(t),
        idx < pow2(chals.len()),
        b_coeffs(chals)[idx] == f_mul(
            b_coeffs(chals)[idx - pow2(t)],
            chals[chals.len() - 1 - t],
        ),
    decreases chals.len(),
{
    let k = chals.len();
    let tl = b_coeffs(chals.skip(1));
    lemma_b_coeffs_len(chals.skip(1));
    lemma_pow2_unfold(k);
    lemma_pow2_unfold(t + 1);
    if t + 1 < k {
        lemma_pow2_strictly_increases(t + 1, k);
    }
    if t + 1 == k {
        assert(b_coeffs(chals)[idx] == tl.map_values(|v: int| f_mul(v, chals[0]))[idx - tl.len()]);
        assert(b_coeffs(chals)[idx] == f_mul(tl[idx - pow2((k - 1) as nat)], chals[0]));
        assert(b_coeffs(chals)[idx - pow2(t)] == tl[idx - pow2(t)]);
    } else {
        if t + 1 < k - 1 {
            lemma_pow2_strictly_increases(t + 1, (k - 1) as nat);
        }
        lemma_b_coeffs_step(chals.skip(1), t, idx);
        assert(b_coeffs(chals)[idx] == tl[idx]);
        lemma_pow2_strictly_increases(t, (k - 1) as nat);
        assert(b_coeffs(chals)[idx - pow2(t)] == tl[idx - pow2(t)]);
        assert(chals.skip(1)[k - 2 - t] == chals[k - 1 - t]);
    }
}

/// Computes the full coefficient vector of the challenge polynomial, length
/// `2^k`, in `O(2^k)` field multiplications: every entry is its
/// top-bit-stripped predecessor times the challenge that bit selects.
pub fn b_poly_coefficients(chals: &[Scalar]) -> (s: Vec<Scalar>)
    requires
        chals@.len() < 32,
        all_reduced(scalars_view(chals@)),
    ensures
        s@.len() == pow2(chals@.len() as nat),
        forall|j: int|
            0 <= j < s@.len() ==> (#[trigger] s@[j]).wf() && s@[j]@ == b_coeffs(
                scalars_view(chals@),
            )[j],
{
    let ghost cv: Seq<int> = scalars_view(chals@);
    let rounds: usize = chals.len();
    let mut s_length: usize = 1;
    let mut j: usize = 0;
    proof {
        lemma2_to64();
    }
    while j < rounds
        invariant
            rounds < 32,
            j <= rounds,
            s_length == pow2(j as nat),
        decreases rounds - j,
    {
        proof {
            lemma_pow2_unfold((j + 1) as nat);
            if j + 1 < 31 {
                lemma_pow2_strictly_increases((j + 1) as nat, 31);
            }
            lemma2_to64();
        }
        s_length = s_length * 2;
        j = j + 1;
    }
    let mut s: Vec<Scalar> = Vec::new();
    while s.len() < s_length
        invariant
            s@.len() <= s_length,
            forall|j2: int|
                0 <= j2 < s@.len() ==> (#[trigger] s@[j2]).wf() && s@[j2]@ == 1,
        decreases s_length - s@.len(),
    {
        s.push(Scalar::one());
    }
    proof {
        lemma_b_coeffs_first(cv);
    }
    let mut k_ctr: usize = 0;
    let mut pow: usize = 1;
    let mut i: usize = 1;
    while i < s_length
        invariant
            rounds == chals@.len(),
            rounds < 32,
            cv == scalars_view(chals@),
            all_reduced(cv),
            s_length == pow2(rounds as nat),
            s@.len() == s_length,
            1 <= i <= s_length,
            pow == pow2(k_ctr as nat),
            k_ctr <= rounds,
            k_ctr == 0 ==> i <= 1,
            i <= pow,
            pow <= 2 * i,
            forall|j2: int|
                0 <= j2 < i ==> (#[trigger] s@[j2]).wf() && s@[j2]@ == b_coeffs(cv)[j2],
        decreases s_length - i,
    {
        proof {
            lemma2_to64();
        }
        if i == pow {
            proof {
                if rounds <= k_ctr {
                    if rounds < k_ctr {
                        lemma_pow2_strictly_increases(rounds as nat, k_ctr as nat);
                    }
                    assert(false);
                }
                lemma_pow2_unfold((k_ctr + 1) as nat);
                if k_ctr + 1 < 31 {
                    lemma_pow2_strictly_increases((k_ctr + 1) as nat, 31);
                }
                lemma2_to64();
            }
            k_ctr = k_ctr + 1;
            pow = pow * 2;
        }
        proof {
            assert(k_ctr >= 1);
            lemma_pow2_unfold(k_ctr as nat);
            assert(pow / 2 == pow2((k_ctr - 1) as nat));
            lemma_b_coeffs_step(cv, (k_ctr - 1) as nat, i as int);
            lemma_b_coeffs_len(cv);
            assert(cv[rounds - 1 - (k_ctr - 1)] == chals@[rounds - 1 - (k_ctr - 1)]@);
        }
        let half: usize = pow / 2;
        let factor: Scalar = chals[rounds - 1 - (k_ctr - 1)];
        let v: Scalar = s[i - half].mul(factor);
        s[i] = v;
        i = i + 1;
    }
    proof {
        lemma_b_coeffs_len(cv);
    }
    s
}

/// Horner evaluation distributes over concatenation: the high part is scaled
/// by `x` to the length of the low part.
proof fn lemma_eval_concat(a: Seq<int>, b: Seq<int>, x: int)
    ensures
        eval_poly(a + b, x) == f_add(eval_poly(a, x), f_mul(f_pow(x, a.len()), eval_poly(b, x))),
    decreases a.len(),
{
    lemma_eval_reduced(b, x);
    if a.len() == 0 {
        assert(a + b =~= b);
        assert(f_pow(x, 0) == 1);
        lemma_f_mul_one(eval_poly(b, x));
        lemma_f_add_zero(eval_poly(b, x));
        assert(f_add(0, eval_poly(b, x)) == f_add(eval_poly(b, x), 0));
    } else {
        assert((a + b).skip(1) =~= a.skip(1) + b);
        assert((a + b)[0] == a[0]);
        lemma_eval_concat(a.skip(1), b, x);
        let ep = eval_poly(a.skip(1), x);
        let eb = eval_poly(b, x);
        let xp = f_pow(x, (a.len() - 1) as nat);
        lemma_f_mul_distrib(x, ep, f_mul(xp, eb));
        lemma_f_mul_assoc(x, xp, eb);
        lemma_f_add_assoc(a[0], f_mul(x, ep), f_mul(f_mul(x, xp), eb));
    }
}

/// Evaluating a coefficient-wise scaled polynomial scales the value.
proof fn lemma_eval_scaled(a: Seq<int>, c: int, x: int)
    ensures
        eval_poly(a.map_values(|v: int| f_mul(v, c)), x) == f_mul(eval_poly(a, x), c),
    decreases a.len(),
{
    let m = a.map_values(|v: int| f_mul(v, c));
    if a.len() == 0 {
        assert(m.len() == 0);
    } else {
        assert(m[0] == f_mul(a[0], c));
        assert(m.skip(1) =~= a.skip(1).map_values(|v: int| f_mul(v, c)));
        lemma_eval_scaled(a.skip(1), c, x);
        let ep = eval_poly(a.skip(1), x);
        lemma_f_mul_comm(eval_poly(a, x), c);
        lemma_f_mul_distrib(c, a[0], f_mul(x, ep));
        lemma_f_mul_comm(c, a[0]);
        lemma_f_mul_assoc(c, x, ep);
        lemma_f_mul_comm(c, x);
        lemma_f_mul_assoc(x, c, ep);
        lemma_f_mul_comm(c, ep);
    }
}

/// Horner values are reduced residues.
proof fn lemma_eval_reduced(a: Seq<int>, x: int)
    ensures
        reduced(eval_poly(a, x)),
    decreases a.len(),
{
    if a.len() == 0 {
    } else {
        lemma_ops_reduced(a[0], f_mul(x, eval_poly(a.skip(1), x)));
    }
}

/// Law: the coefficient vector really is the coefficient vector of the
/// challenge polynomial — Horner evaluation of `b_coeffs(chals)` at any
/// point `x` equals `b_poly_spec(chals, x)`.
pub proof fn lemma_b_coeffs_eval(chals: Seq<int>, x: int)
    ensures
        eval_poly(b_coeffs(chals), x) == b_poly_spec(chals, x),
    decreases chals.len(),
{
    if chals.len() == 0 {
        assert(seq![1int].skip(1) =~= Seq::<int>::empty());
        assert(eval_poly(Seq::<int>::empty(), x) == 0);
        assert(eval_poly(seq![1int], x) == f_add(1, f_mul(x, 0)));
    } else {
        let k = chals.len();
        let c0 = chals[0];
        let t = b_coeffs(chals.skip(1));
        let u = t.map_values(|v: int| f_mul(v, c0));
        let ex = eval_poly(b_coeffs(chals), x);
        let bp = b_poly_spec(chals, x);
        let capx = f_pow(x, pow2((k - 1) as nat));
        let e = b_poly_spec(chals.skip(1), x);
        lemma_b_coeffs_len(chals.skip(1));
        lemma_eval_concat(t, u, x);
        lemma_eval_scaled(t, c0, x);
        lemma_b_coeffs_eval(chals.skip(1), x);
        lemma_b_poly_reduced(chals.skip(1), x);
        lemma_f_mul_comm(f_add(1, f_mul(c0, capx)), e);
        lemma_f_mul_distrib(e, 1, f_mul(c0, capx));
        lemma_f_mul_one(e);
        lemma_f_mul_comm(e, c0);
        lemma_f_mul_assoc(capx, c0, e);
        lemma_f_mul_comm(capx, c0);
        lemma_f_mul_assoc(c0, capx, e);
        lemma_f_mul_comm(f_mul(c0, capx), e);
    }
}

} // verus!
