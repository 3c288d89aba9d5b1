//! Single-statement equality-of-exponents proof.
//!
//! A Schnorr-style non-interactive zero-knowledge proof that two base/result
//! pairs `(g1, h1)` and `(g2, h2)` were produced by raising the bases to the
//! same hidden scalar, made non-interactive by the Fiat-Shamir transform.

use vstd::prelude::*;
use crate::crypto::{
    Point, Scalar, fadd, fmul, fsub, group_order, hash_points_spec, point_views,
};

verus! {

/// A statement: the claim that `h1 = g1^e` and `h2 = g2^e` for one hidden `e`.
#[derive(Clone, Copy)]
pub struct DLEQ {
    pub g1: Point,
    pub h1: Point,
    pub g2: Point,
    pub h2: Point,
}

/// The ordered transcript hashed for the challenge: the two result elements,
/// then the two commitments. Changing this order breaks interoperability
/// with independently implemented verifiers.
pub open spec fn challenge_input(h1: nat, h2: nat, a1: nat, a2: nat) -> Seq<nat> {
    seq![h1, h2, a1, a2]
}

/// The challenge a creator derives for statement `(g1, h1, g2, h2)` and
/// nonce `w`: the commitments are `g1^w` and `g2^w`.
pub open spec fn spec_challenge(g1: nat, h1: nat, g2: nat, h2: nat, w: nat) -> nat {
    hash_points_spec(challenge_input(h1, h2, fmul(g1, w), fmul(g2, w)))
}

/// The response to challenge `c` with nonce `w` and witness `e`: `w + e·c`.
pub open spec fn spec_response(w: nat, e: nat, c: nat) -> nat {
    fadd(w, fmul(e, c))
}

/// The commitment a verifier recomputes for one pair: `g^z - h^c`.
pub open spec fn spec_recommit(g: nat, h: nat, c: nat, z: nat) -> nat {
    fsub(fmul(g, z), fmul(h, c))
}

/// What it means for `(c, z)` to pass verification against the statement:
/// the challenge recomputed from the reconstructed commitments equals `c`.
pub open spec fn spec_verifies(c: nat, z: nat, g1: nat, h1: nat, g2: nat, h2: nat) -> bool {
    c == hash_points_spec(
        challenge_input(h1, h2, spec_recommit(g1, h1, c, z), spec_recommit(g2, h2, c, z)),
    )
}

/// A non-interactive proof: the challenge and the response.
#[derive(Clone, Copy)]
pub struct Proof {
    pub c: Scalar,
    pub z: Scalar,
}

impl Proof {
    /// Create a proof for `dleq` from the hidden exponent `e`, using the
    /// nonce `w`. Soundness requires `w` to be freshly random and never
    /// reused: reusing a nonce across two witnesses leaks the witness.
    pub fn create(w: Scalar, e: Scalar, dleq: DLEQ) -> (r: Proof)
        ensures
            r.c@ == spec_challenge(dleq.g1@, dleq.h1@, dleq.g2@, dleq.h2@, w@),
            r.z@ == spec_response(w@, e@, r.c@),
    {
        let a1 = dleq.g1.mul(&w);
        let a2 = dleq.g2.mul(&w);
        let mut points: Vec<Point> = Vec::new();
        points.push(dleq.h1);
        points.push(dleq.h2);
        points.push(a1);
        points.push(a2);
        proof {
            assert(point_views(points@) =~= challenge_input(dleq.h1@, dleq.h2@, a1@, a2@));
        }
        let c = Scalar::hash_points(&points);
        let z = w.add(&e.mul(&c));
        Proof { c, z }
    }

    /// Check the proof against a statement: recompute both commitments from
    /// the response and the challenge, and accept exactly when the challenge
    /// recomputed from them matches.
    pub fn verify(&self, dleq: DLEQ) -> (r: bool)
        ensures
            r == spec_verifies(self.c@, self.z@, dleq.g1@, dleq.h1@, dleq.g2@, dleq.h2@),
    {
        let r1 = dleq.g1.mul(&self.z);
        let r2 = dleq.g2.mul(&self.z);
        let a1 = r1.sub(&dleq.h1.mul(&self.c));
        let a2 = r2.sub(&dleq.h2.mul(&self.c));
        let mut points: Vec<Point> = Vec::new();
        points.push(dleq.h1);
        points.push(dleq.h2);
        points.push(a1);
        points.push(a2);
        proof {
            assert(point_views(points@) =~= challenge_input(dleq.h1@, dleq.h2@, a1@, a2@));
        }
        let c = Scalar::hash_points(&points);
        self.c.equals(&c)
    }
}

/// The verifier's recomputed commitment equals the creator's commitment
/// whenever the result element really is the base raised to the witness:
/// `g^(w + e·c) - (g^e)^c = g^w` in the exponent field.
pub proof fn lemma_recommit_is_commit(g: nat, e: nat, w: nat, c: nat)
    ensures
        spec_recommit(g, fmul(g, e), c, spec_response(w, e, c)) == fmul(g, w),
{
    let q = group_order() as int;
    let gi = g as int;
    let ei = e as int;
    let wi = w as int;
    let ci = c as int;
    let zi = (wi + (ei * ci) % q) % q;
    assert(spec_response(w, e, c) == zi as nat);
    // the left term: g·z reduces to g·w + g·e·c
    vstd::arithmetic::div_mod::lemma_mul_mod_noop_right(gi, wi + (ei * ci) % q, q);
    assert(gi * (wi + (ei * ci) % q) == gi * wi + gi * ((ei * ci) % q)) by (nonlinear_arith);
    vstd::arithmetic::div_mod::lemma_add_mod_noop_right(gi * wi, gi * ((ei * ci) % q), q);
    vstd::arithmetic::div_mod::lemma_mul_mod_noop_right(gi, ei * ci, q);
    vstd::arithmetic::div_mod::lemma_add_mod_noop_right(gi * wi, gi * (ei * ci), q);
    assert((gi * zi) % q == (gi * wi + gi * (ei * ci)) % q);
    // the right term: (g·e mod q)·c reduces to g·e·c
    vstd::arithmetic::div_mod::lemma_mul_mod_noop_left(gi * ei, ci, q);
    assert((gi * ei) * ci == gi * (ei * ci)) by (nonlinear_arith);
    assert((((gi * ei) % q) * ci) % q == (gi * (ei * ci)) % q);
    // their difference reduces to g·w
    vstd::arithmetic::div_mod::lemma_sub_mod_noop(gi * wi + gi * (ei * ci), gi * (ei * ci), q);
    assert(((gi * wi + gi * (ei * ci)) % q - (gi * (ei * ci)) % q) % q == (gi * wi) % q);
}

/// Proof soundness: for any statement whose result elements are the bases
/// raised to one common exponent `e`, and any nonce `w`, the created proof
/// passes verification.
pub proof fn lemma_create_verifies(g1: nat, g2: nat, e: nat, w: nat)
    ensures
        ({
            let h1 = fmul(g1, e);
            let h2 = fmul(g2, e);
            let c = spec_challenge(g1, h1, g2, h2, w);
            spec_verifies(c, spec_response(w, e, c), g1, h1, g2, h2)
        }),
{
    let h1 = fmul(g1, e);
    let h2 = fmul(g2, e);
    let c = spec_challenge(g1, h1, g2, h2, w);
    lemma_recommit_is_commit(g1, e, w, c);
    lemma_recommit_is_commit(g2, e, w, c);
}

} // verus!
