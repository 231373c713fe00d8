//! Transcript challenge derivation.
//!
//! The Fiat-Shamir transcript is a sponge absorbed and squeezed in one strict
//! order shared by prover and verifier. The permutation of a production
//! sponge is outside this crate's scope; the sponge here is a small
//! square-and-add state machine over the scalar field with the same
//! absorb/squeeze interface, and every transition carries an exact contract,
//! so the ordering facts the protocol relies on are proved rather than
//! assumed.
//!
//! A raw squeezed value is a [`ScalarChallenge`] ("pre-challenge"); folding
//! it with the curve's endomorphism constant (`to_field`) turns it into the
//! field element used as the actual challenge.

use vstd::prelude::*;

verus! {

use crate::commitment::PolyComm;
use crate::curve::Point;
use crate::field::{f_add, f_mul, reduced, Scalar};

/// A raw squeezed challenge, before endomorphism folding.
#[derive(Clone, Copy, PartialEq, Eq, Structural, Debug)]
pub struct ScalarChallenge(pub Scalar);

/// The endomorphism folding rule: a pre-challenge `c` folds to `c * endo_r`.
pub open spec fn endo_fold(c: int, endo_r: int) -> int {
    f_mul(c, endo_r)
}

impl ScalarChallenge {
    /// Folds the pre-challenge into a full field element with the
    /// endomorphism constant `endo_r`.
    pub fn to_field(&self, endo_r: &Scalar) -> (r: Scalar)
        requires
            self.0.wf(),
            endo_r.wf(),
        ensures
            r.wf(),
            r@ == endo_fold(self.0@, endo_r@),
    {
        self.0.mul(*endo_r)
    }
}

/// One absorption step of the sponge state: `st * st + x`.
pub open spec fn sponge_absorb(st: int, x: int) -> int {
    f_add(f_mul(st, st), x)
}

/// One squeeze transition of the sponge state: `st * st + 1`.
pub open spec fn sponge_squeeze(st: int) -> int {
    f_add(f_mul(st, st), 1)
}

/// Absorbing a sequence of residues, first element first.
pub open spec fn sponge_absorb_seq(st: int, xs: Seq<int>) -> int
    decreases xs.len(),
{
    if xs.len() == 0 {
        st
    } else {
        sponge_absorb_seq(sponge_absorb(st, xs[0]), xs.skip(1))
    }
}

/// Absorbing one more residue at the end extends the fold by one step.
pub proof fn lemma_sponge_absorb_seq_snoc(st: int, xs: Seq<int>, x: int)
    ensures
        sponge_absorb_seq(st, xs.push(x)) == sponge_absorb(sponge_absorb_seq(st, xs), x),
    decreases xs.len(),
{
    if xs.len() == 0 {
        assert(xs.push(x)[0] == x);
        assert(xs.push(x).skip(1) =~= Seq::<int>::empty());
        assert(sponge_absorb_seq(st, xs.push(x)) == sponge_absorb_seq(
            sponge_absorb(st, x),
            Seq::<int>::empty(),
        ));
        assert(sponge_absorb_seq(sponge_absorb(st, x), Seq::<int>::empty()) == sponge_absorb(
            st,
            x,
        ));
        assert(sponge_absorb_seq(st, xs) == st);
    } else {
        assert(xs.push(x)[0] == xs[0]);
        assert(xs.push(x).skip(1) =~= xs.skip(1).push(x));
        lemma_sponge_absorb_seq_snoc(sponge_absorb(st, xs[0]), xs.skip(1), x);
        assert(sponge_absorb_seq(st, xs.push(x)) == sponge_absorb_seq(
            sponge_absorb(st, xs[0]),
            xs.skip(1).push(x),
        ));
    }
}

/// The transcript sponge: a scalar state fed linearly, in absorb/squeeze
/// order, by the protocol.
#[derive(Clone, Copy, PartialEq, Eq, Structural, Debug)]
pub struct Sponge {
    pub state: Scalar,
}

impl View for Sponge {
    type V = int;

    open spec fn view(&self) -> int {
        self.state@
    }
}

impl Sponge {
    /// Whether the state is reduced.
    pub open spec fn wf(self) -> bool {
        reduced(self@)
    }

    /// A fresh sponge with zero state.
    pub fn new() -> (r: Sponge)
        ensures
            r.wf(),
            r@ == 0,
    {
        Sponge { state: Scalar::zero() }
    }

    /// Absorbs one field residue into the state.
    pub fn absorb(&mut self, x: Scalar)
        requires
            old(self).wf(),
            x.wf(),
        ensures
            final(self).wf(),
            final(self)@ == sponge_absorb(old(self)@, x@),
    {
        self.state = self.state.square().add(x);
    }

    /// Squeezes one scalar out of the state and advances the state.
    pub fn squeeze(&mut self) -> (r: Scalar)
        requires
            old(self).wf(),
        ensures
            final(self).wf(),
            r.wf(),
            r@ == old(self)@,
            final(self)@ == sponge_squeeze(old(self)@),
    {
        let out: Scalar = self.state;
        self.state = self.state.square().add(Scalar::one());
        out
    }
}

/// Feeds every chunk point of a commitment into the sponge, in chunk order —
/// the canonical way a commitment enters the transcript. The order is part of
/// the protocol's binding contract: reordering chunks changes every challenge
/// derived afterwards.
pub fn absorb_commitment(sponge: &mut Sponge, commitment: &PolyComm<Point>)
    requires
        old(sponge).wf(),
        commitment.wf(),
    ensures
        final(sponge).wf(),
        final(sponge)@ == sponge_absorb_seq(old(sponge)@, commitment@),
{
    let n: usize = commitment.elems.len();
    let mut i: usize = 0;
    while i < n
        invariant
            n == commitment.elems@.len(),
            commitment.wf(),
            sponge.wf(),
            i <= n,
            sponge@ == sponge_absorb_seq(old(sponge)@, commitment@.take(i as int)),
        decreases n - i,
    {
        proof {
            assert(commitment@[i as int] == commitment.elems@[i as int]@);
            assert(commitment@.take(i as int + 1) =~= commitment@.take(i as int).push(
                commitment@[i as int],
            ));
            lemma_sponge_absorb_seq_snoc(
                old(sponge)@,
                commitment@.take(i as int),
                commitment@[i as int],
            );
        }
        let x: Scalar = Scalar { rep: commitment.elems[i].rep };
        sponge.absorb(x);
        i = i + 1;
    }
    proof {
        assert(commitment@.take(n as int) =~= commitment@);
    }
}

/// Squeezes one raw pre-challenge from the sponge.
pub fn squeeze_prechallenge(sponge: &mut Sponge) -> (r: ScalarChallenge)
    requires
        old(sponge).wf(),
    ensures
        final(sponge).wf(),
        r.0.wf(),
        r.0@ == old(sponge)@,
        final(sponge)@ == sponge_squeeze(old(sponge)@),
{
    ScalarChallenge(sponge.squeeze())
}

/// Squeezes a pre-challenge and folds it into a full field element with the
/// endomorphism constant `endo_r`.
pub fn squeeze_challenge(endo_r: &Scalar, sponge: &mut Sponge) -> (r: Scalar)
    requires
        old(sponge).wf(),
        endo_r.wf(),
    ensures
        final(sponge).wf(),
        r.wf(),
        r@ == endo_fold(old(sponge)@, endo_r@),
        final(sponge)@ == sponge_squeeze(old(sponge)@),
{
    let pre: ScalarChallenge = squeeze_prechallenge(sponge);
    pre.to_field(endo_r)
}

} // verus!
