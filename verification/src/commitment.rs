//! Polynomial commitments and their homomorphic arithmetic.
//!
//! A [`PolyComm`] is an ordered sequence of group elements, one per
//! degree-chunk when a committed polynomial exceeds the maximum supported
//! degree. Addition and subtraction are index-wise and zero-pad the shorter
//! operand; scaling acts on every chunk; `multi_scalar_mul` folds many
//! weighted commitments into one. The contracts state each operation over the
//! residue sequences (`pc_add`, `pc_scale`, `pc_msm`), and the lemmas at the
//! end of the module prove the algebraic laws the batching engine relies on.

use vstd::prelude::*;

verus! {

use crate::curve::{all_reduced, Point};
use crate::field::{
    f_add, f_mul, f_sub, lemma_f_add_assoc, lemma_f_add_zero, lemma_f_mul_assoc,
    lemma_f_mul_comm, lemma_f_mul_one, lemma_ops_reduced, reduced, Scalar,
};

/// A polynomial commitment: one group element per degree-chunk.
#[derive(Clone, Debug, PartialEq, Eq)]
pub struct PolyComm<C> {
    pub elems: Vec<C>,
}

impl<C: View> View for PolyComm<C> {
    type V = Seq<<C as View>::V>;

    open spec fn view(&self) -> Seq<<C as View>::V> {
        Seq::new(self.elems@.len(), |i: int| self.elems@[i]@)
    }
}

/// A commitment together with the blinding factors it was committed with.
#[derive(Clone, Debug, PartialEq, Eq)]
pub struct BlindedCommitment {
    pub commitment: PolyComm<Point>,
    pub blinders: PolyComm<Scalar>,
}

impl<C> PolyComm<C> {
    /// Wraps a chunk sequence verbatim.
    pub fn new(elems: Vec<C>) -> (r: Self)
        ensures
            r.elems@ == elems@,
    {
        Self { elems }
    }

    /// Returns the number of chunks.
    pub fn len(&self) -> (n: usize)
        ensures
            n == self.elems@.len(),
    {
        self.elems.len()
    }

    /// Returns `true` if the commitment has no chunks.
    pub fn is_empty(&self) -> (b: bool)
        ensures
            b <==> self.elems@.len() == 0,
    {
        self.elems.len() == 0
    }
}

impl<A: Copy> PolyComm<A> {
    /// Applies `f` to every chunk, keeping the chunk order.
    pub fn map<B, F: Fn(A) -> B>(&self, f: F) -> (r: PolyComm<B>)
        requires
            forall|i: int|
                0 <= i < self.elems@.len() ==> call_requires(f, (#[trigger] self.elems@[i],)),
        ensures
            r.elems@.len() == self.elems@.len(),
            forall|i: int|
                0 <= i < self.elems@.len() ==> call_ensures(
                    f,
                    (self.elems@[i],),
                    #[trigger] r.elems@[i],
                ),
    {
        let n: usize = self.elems.len();
        let mut elems: Vec<B> = Vec::new();
        let mut i: usize = 0;
        while i < n
            invariant
                n == self.elems@.len(),
                forall|j: int|
                    0 <= j < n ==> call_requires(f, (#[trigger] self.elems@[j],)),
                i <= n,
                elems@.len() == i,
                forall|j: int|
                    0 <= j < i ==> call_ensures(f, (self.elems@[j],), #[trigger] elems@[j]),
            decreases n - i,
        {
            elems.push(f(self.elems[i]));
            i = i + 1;
        }
        PolyComm { elems }
    }

    /// Pairs the chunks of two commitments index-wise; `None` when the chunk
    /// counts differ.
    pub fn zip<B: Copy>(&self, other: &PolyComm<B>) -> (r: Option<PolyComm<(A, B)>>)
        ensures
            (r is Some) <==> self.elems@.len() == other.elems@.len(),
            r is Some ==> (r->Some_0).elems@.len() == self.elems@.len(),
            r is Some ==> forall|i: int|
                0 <= i < self.elems@.len() ==> (#[trigger] (r->Some_0).elems@[i]) == (
                    self.elems@[i],
                    other.elems@[i],
                ),
    {
        if self.elems.len() != other.elems.len() {
            return None;
        }
        let n: usize = self.elems.len();
        let mut elems: Vec<(A, B)> = Vec::new();
        let mut i: usize = 0;
        while i < n
            invariant
                n == self.elems@.len(),
                self.elems@.len() == other.elems@.len(),
                i <= n,
                elems@.len() == i,
                forall|j: int|
                    0 <= j < i ==> (#[trigger] elems@[j]) == (self.elems@[j], other.elems@[j]),
            decreases n - i,
        {
            elems.push((self.elems[i], other.elems[i]));
            i = i + 1;
        }
        Some(PolyComm { elems })
    }
}

/// Index-wise sum of two residue sequences; the longer one's extra entries
/// pass through unchanged, as if the shorter were zero-padded.
pub open spec fn pc_add(a: Seq<int>, b: Seq<int>) -> Seq<int> {
    Seq::new(
        if a.len() >= b.len() {
            a.len()
        } else {
            b.len()
        },
        |i: int|
            if i < a.len() && i < b.len() {
                f_add(a[i], b[i])
            } else if i < a.len() {
                a[i]
            } else {
                b[i]
            },
    )
}

/// Index-wise difference of two residue sequences, zero-padding the shorter.
pub open spec fn pc_sub(a: Seq<int>, b: Seq<int>) -> Seq<int> {
    Seq::new(
        if a.len() >= b.len() {
            a.len()
        } else {
            b.len()
        },
        |i: int|
            if i < a.len() && i < b.len() {
                f_sub(a[i], b[i])
            } else if i < a.len() {
                a[i]
            } else {
                b[i]
            },
    )
}

/// Every chunk scaled by the same scalar.
pub open spec fn pc_scale(a: Seq<int>, c: int) -> Seq<int> {
    Seq::new(a.len(), |i: int| f_mul(a[i], c))
}

/// The largest chunk count among the commitments.
pub open spec fn max_chunks(coms: Seq<Seq<int>>) -> nat
    decreases coms.len(),
{
    if coms.len() == 0 {
        0
    } else {
        let rest = max_chunks(coms.drop_last());
        if coms.last().len() > rest {
            coms.last().len()
        } else {
            rest
        }
    }
}

/// Chunk `j` of the multi-scalar multiplication restricted to the first `n`
/// commitments: the sum of `elms[k] * coms[k][j]` over the commitments that
/// have a chunk `j`.
pub open spec fn msm_chunk(coms: Seq<Seq<int>>, elms: Seq<int>, j: int, n: nat) -> int
    decreases n,
{
    if n == 0 {
        0
    } else {
        let prev = msm_chunk(coms, elms, j, (n - 1) as nat);
        if j < coms[n - 1].len() {
            f_add(prev, f_mul(elms[n - 1], coms[n - 1][j]))
        } else {
            prev
        }
    }
}

/// The multi-scalar multiplication of commitments and scalars: chunk `j` of
/// the result sums the weighted chunks `j` of every commitment that has one;
/// with no input at all, the single-chunk identity commitment.
pub open spec fn pc_msm(coms: Seq<Seq<int>>, elms: Seq<int>) -> Seq<int> {
    if coms.len() == 0 {
        seq![0int]
    } else {
        Seq::new(max_chunks(coms), |j: int| msm_chunk(coms, elms, j, coms.len()))
    }
}

/// The residue sequences of a sequence of commitments.
pub open spec fn coms_view(s: Seq<&PolyComm<Point>>) -> Seq<Seq<int>> {
    Seq::new(s.len(), |i: int| s[i]@)
}

/// The residues of a sequence of scalars.
pub open spec fn scalars_view(s: Seq<Scalar>) -> Seq<int> {
    Seq::new(s.len(), |i: int| s[i]@)
}

impl PolyComm<Point> {
    /// Whether every chunk residue is reduced.
    pub open spec fn wf(self) -> bool {
        all_reduced(self@)
    }

    /// Index-wise sum; chunks beyond the shorter commitment pass through.
    pub fn add(&self, other: &PolyComm<Point>) -> (r: PolyComm<Point>)
        requires
            self.wf(),
            other.wf(),
        ensures
            r.wf(),
            r@ == pc_add(self@, other@),
    {
        let n1: usize = self.elems.len();
        let n2: usize = other.elems.len();
        let n: usize = if n1 >= n2 {
            n1
        } else {
            n2
        };
        let mut elems: Vec<Point> = Vec::new();
        let mut i: usize = 0;
        while i < n
            invariant
                n1 == self.elems@.len(),
                n2 == other.elems@.len(),
                n == if n1 >= n2 { n1 } else { n2 },
                self.wf(),
                other.wf(),
                i <= n,
                elems@.len() == i,
                forall|j: int| 0 <= j < i ==> (#[trigger] elems@[j])@ == pc_add(self@, other@)[j],
                forall|j: int| 0 <= j < i ==> (#[trigger] elems@[j]).wf(),
            decreases n - i,
        {
            proof {
                if i < n1 {
                    assert(self@[i as int] == self.elems@[i as int]@);
                }
                if i < n2 {
                    assert(other@[i as int] == other.elems@[i as int]@);
                }
            }
            let pt: Point = if i < n1 && i < n2 {
                self.elems[i].add(other.elems[i])
            } else if i < n1 {
                self.elems[i]
            } else {
                other.elems[i]
            };
            elems.push(pt);
            i = i + 1;
        }
        let r = PolyComm { elems };
        proof {
            assert(r@ =~= pc_add(self@, other@));
        }
        r
    }

    /// Index-wise difference; chunks beyond the shorter commitment pass
    /// through.
    pub fn sub(&self, other: &PolyComm<Point>) -> (r: PolyComm<Point>)
        requires
            self.wf(),
            other.wf(),
        ensures
            r.wf(),
            r@ == pc_sub(self@, other@),
    {
        let n1: usize = self.elems.len();
        let n2: usize = other.elems.len();
        let n: usize = if n1 >= n2 {
            n1
        } else {
            n2
        };
        let mut elems: Vec<Point> = Vec::new();
        let mut i: usize = 0;
        while i < n
            invariant
                n1 == self.elems@.len(),
                n2 == other.elems@.len(),
                n == if n1 >= n2 { n1 } else { n2 },
                self.wf(),
                other.wf(),
                i <= n,
                elems@.len() == i,
                forall|j: int| 0 <= j < i ==> (#[trigger] elems@[j])@ == pc_sub(self@, other@)[j],
                forall|j: int| 0 <= j < i ==> (#[trigger] elems@[j]).wf(),
            decreases n - i,
        {
            proof {
                if i < n1 {
                    assert(self@[i as int] == self.elems@[i as int]@);
                }
                if i < n2 {
                    assert(other@[i as int] == other.elems@[i as int]@);
                }
            }
            let pt: Point = if i < n1 && i < n2 {
                self.elems[i].sub(other.elems[i])
            } else if i < n1 {
                self.elems[i]
            } else {
                other.elems[i]
            };
            elems.push(pt);
            i = i + 1;
        }
        let r = PolyComm { elems };
        proof {
            assert(r@ =~= pc_sub(self@, other@));
        }
        r
    }

    /// Scales every chunk by the same scalar: the commitment to `c * f(X)`.
    pub fn scale(&self, c: Scalar) -> (r: PolyComm<Point>)
        requires
            self.wf(),
            c.wf(),
        ensures
            r.wf(),
            r@ == pc_scale(self@, c@),
    {
        let n: usize = self.elems.len();
        let mut elems: Vec<Point> = Vec::new();
        let mut i: usize = 0;
        while i < n
            invariant
                n == self.elems@.len(),
                self.wf(),
                c.wf(),
                i <= n,
                elems@.len() == i,
                forall|j: int| 0 <= j < i ==> (#[trigger] elems@[j])@ == f_mul(self@[j], c@),
                forall|j: int| 0 <= j < i ==> (#[trigger] elems@[j]).wf(),
            decreases n - i,
        {
            proof {
                assert(self@[i as int] == self.elems@[i as int]@);
            }
            elems.push(self.elems[i].scale(c));
            i = i + 1;
        }
        let r = PolyComm { elems };
        proof {
            assert(r@ =~= pc_scale(self@, c@));
        }
        r
    }

    /// Performs a multi-scalar multiplication between scalars `elm` and
    /// commitments `com`: chunk `j` of the result is the sum of
    /// `elm[k] * com[k][j]` over the commitments that have a chunk `j`. If
    /// both inputs are empty, returns a commitment of length 1 containing the
    /// group identity. A length mismatch between the two inputs is a caller
    /// bug and is excluded by contract.
    pub fn multi_scalar_mul(com: &[&PolyComm<Point>], elm: &[Scalar]) -> (r: Self)
        requires
            com@.len() == elm@.len(),
            forall|k: int| 0 <= k < com@.len() ==> (#[trigger] com@[k]).wf(),
            forall|k: int| 0 <= k < elm@.len() ==> (#[trigger] elm@[k]).wf(),
        ensures
            r.wf(),
            r@ == pc_msm(coms_view(com@), scalars_view(elm@)),
    {
        let nc: usize = com.len();
        if nc == 0 {
            let mut elems: Vec<Point> = Vec::new();
            elems.push(Point::identity());
            let r = PolyComm { elems };
            proof {
                assert(r@ =~= seq![0int]);
            }
            return r;
        }
        let ghost coms: Seq<Seq<int>> = coms_view(com@);
        let ghost elms: Seq<int> = scalars_view(elm@);
        let mut elems_size: usize = 0;
        let mut k: usize = 0;
        while k < nc
            invariant
                nc == com@.len(),
                coms == coms_view(com@),
                k <= nc,
                elems_size == max_chunks(coms.take(k as int)),
            decreases nc - k,
        {
            proof {
                assert(coms.take(k as int + 1).drop_last() =~= coms.take(k as int));
                assert(coms.take(k as int + 1).last() == coms[k as int]);
                assert(coms[k as int] == com@[k as int]@);
            }
            let l: usize = com[k].elems.len();
            if l > elems_size {
                elems_size = l;
            }
            k = k + 1;
        }
        proof {
            assert(coms.take(nc as int) =~= coms);
        }
        let mut elems: Vec<Point> = Vec::new();
        let mut chunk: usize = 0;
        while chunk < elems_size
            invariant
                nc == com@.len(),
                com@.len() == elm@.len(),
                coms == coms_view(com@),
                elms == scalars_view(elm@),
                forall|k2: int| 0 <= k2 < com@.len() ==> (#[trigger] com@[k2]).wf(),
                forall|k2: int| 0 <= k2 < elm@.len() ==> (#[trigger] elm@[k2]).wf(),
                elems_size == max_chunks(coms),
                nc > 0,
                chunk <= elems_size,
                elems@.len() == chunk,
                forall|j: int|
                    0 <= j < chunk ==> (#[trigger] elems@[j])@ == msm_chunk(
                        coms,
                        elms,
                        j,
                        coms.len(),
                    ),
                forall|j: int| 0 <= j < chunk ==> (#[trigger] elems@[j]).wf(),
            decreases elems_size - chunk,
        {
            let mut acc: Point = Point::identity();
            let mut k2: usize = 0;
            while k2 < nc
                invariant
                    nc == com@.len(),
                    com@.len() == elm@.len(),
                    coms == coms_view(com@),
                    elms == scalars_view(elm@),
                    forall|k3: int| 0 <= k3 < com@.len() ==> (#[trigger] com@[k3]).wf(),
                    forall|k3: int| 0 <= k3 < elm@.len() ==> (#[trigger] elm@[k3]).wf(),
                    k2 <= nc,
                    acc.wf(),
                    acc@ == msm_chunk(coms, elms, chunk as int, k2 as nat),
                decreases nc - k2,
            {
                proof {
                    assert(coms[k2 as int] == com@[k2 as int]@);
                    assert(elms[k2 as int] == elm@[k2 as int]@);
                }
                if chunk < com[k2].elems.len() {
                    proof {
                        assert(com@[k2 as int]@[chunk as int] == com@[k2 as int].elems@[
                            chunk as int
                        ]@);
                        lemma_f_mul_comm(com@[k2 as int]@[chunk as int], elm@[k2 as int]@);
                    }
                    acc = acc.add(com[k2].elems[chunk].scale(elm[k2]));
                }
                k2 = k2 + 1;
            }
            elems.push(acc);
            chunk = chunk + 1;
        }
        let r = PolyComm { elems };
        proof {
            assert(r@ =~= pc_msm(coms, elms));
        }
        r
    }
}

/// The foreign-facing shape of a commitment: the chunk list plus the
/// deprecated `shifted` slot, kept only so that payloads carrying it can be
/// recognized and rejected.
#[derive(Clone, Debug, PartialEq, Eq)]
pub struct CamlPolyComm<C> {
    pub unshifted: Vec<C>,
    pub shifted: Option<C>,
}

impl<C> CamlPolyComm<C> {
    /// Packages a commitment in the foreign representation: the chunks go to
    /// `unshifted` and the deprecated `shifted` slot stays empty.
    pub fn from(c: PolyComm<C>) -> (r: Self)
        ensures
            r.unshifted@ == c.elems@,
            r.shifted is None,
    {
        CamlPolyComm { unshifted: c.elems, shifted: None }
    }
}

impl<C> PolyComm<C> {
    /// Reads a commitment back from the foreign representation. A payload
    /// carrying the deprecated `shifted` form signals a protocol version this
    /// crate rejects, so the contract excludes it.
    pub fn from(c: CamlPolyComm<C>) -> (r: Self)
        requires
            c.shifted is None,
        ensures
            r.elems@ == c.unshifted@,
    {
        PolyComm { elems: c.unshifted }
    }
}

/// Law: commitment addition is commutative.
pub proof fn lemma_pc_add_comm(a: Seq<int>, b: Seq<int>)
    ensures
        pc_add(a, b) == pc_add(b, a),
{
    assert(pc_add(a, b) =~= pc_add(b, a));
}

/// Law: commitment addition is associative.
pub proof fn lemma_pc_add_assoc(a: Seq<int>, b: Seq<int>, c: Seq<int>)
    ensures
        pc_add(pc_add(a, b), c) == pc_add(a, pc_add(b, c)),
{
    assert forall|i: int| 0 <= i < pc_add(pc_add(a, b), c).len() implies pc_add(pc_add(a, b), c)[i]
        == pc_add(a, pc_add(b, c))[i] by {
        if i < a.len() && i < b.len() && i < c.len() {
            lemma_f_add_assoc(a[i], b[i], c[i]);
        }
    }
    assert(pc_add(pc_add(a, b), c) =~= pc_add(a, pc_add(b, c)));
}

/// Law: the single-chunk identity commitment is an additive identity for any
/// non-empty commitment.
pub proof fn lemma_pc_add_identity(a: Seq<int>)
    requires
        all_reduced(a),
        a.len() >= 1,
    ensures
        pc_add(a, seq![0int]) == a,
{
    lemma_f_add_zero(a[0]);
    assert(pc_add(a, seq![0int]) =~= a);
}

/// Law: scaling twice is scaling by the product: `scale(scale(v, a), b)`
/// equals `scale(v, a * b)`.
pub proof fn lemma_pc_scale_scale(v: Seq<int>, a: int, b: int)
    ensures
        pc_scale(pc_scale(v, a), b) == pc_scale(v, f_mul(a, b)),
{
    assert forall|i: int| 0 <= i < v.len() implies pc_scale(pc_scale(v, a), b)[i] == pc_scale(
        v,
        f_mul(a, b),
    )[i] by {
        lemma_f_mul_assoc(v[i], a, b);
    }
    assert(pc_scale(pc_scale(v, a), b) =~= pc_scale(v, f_mul(a, b)));
}

/// Law: the multi-scalar multiplication of one commitment with the scalar 1
/// is that commitment.
pub proof fn lemma_pc_msm_single(c: Seq<int>)
    requires
        all_reduced(c),
        c.len() >= 1,
    ensures
        pc_msm(seq![c], seq![1int]) == c,
{
    let coms = seq![c];
    assert(coms.drop_last() =~= Seq::<Seq<int>>::empty());
    assert(max_chunks(Seq::<Seq<int>>::empty()) == 0);
    assert(coms.last() == c);
    assert(max_chunks(coms) == c.len());
    assert forall|j: int| 0 <= j < c.len() implies pc_msm(coms, seq![1int])[j] == c[j] by {
        assert(msm_chunk(coms, seq![1int], j, 0) == 0);
        lemma_f_mul_one(c[j]);
        lemma_ops_reduced(1, c[j]);
        lemma_f_add_zero(f_mul(1, c[j]));
        assert(f_add(0, f_mul(1, c[j])) == f_add(f_mul(1, c[j]), 0));
    }
    assert(pc_msm(coms, seq![1int]) =~= c);
}

/// Law: the multi-scalar multiplication of no commitments at all is the
/// single-chunk identity commitment.
pub proof fn lemma_pc_msm_empty()
    ensures
        pc_msm(Seq::<Seq<int>>::empty(), Seq::<int>::empty()) == seq![0int],
{
}

} // verus!
