//! Polynomials over the scalar field, used to generate and evaluate the
//! dealer's secret-sharing polynomial.

use vstd::prelude::*;
use crate::crypto::{
    Scalar, fadd, fmul, group_order, lemma_fadd_assoc, lemma_fmul_assoc, lemma_fmul_comm,
    lemma_fmul_distrib, lemma_reduce_small, scalar_views,
};

verus! {

/// Evaluation at `x` of the polynomial whose coefficient residues are
/// `coeffs` (constant term first), in the residue field mod ℓ:
/// `a_0 + x·(a_1 + x·(a_2 + ...))`.
pub open spec fn poly_eval(coeffs: Seq<nat>, x: nat) -> nat
    decreases coeffs.len(),
{
    if coeffs.len() == 0 {
        0
    } else {
        fadd(coeffs[0], fmul(x, poly_eval(coeffs.skip(1), x)))
    }
}

/// A polynomial evaluation is a canonical residue.
pub proof fn lemma_poly_eval_bound(coeffs: Seq<nat>, x: nat)
    ensures
        poly_eval(coeffs, x) < group_order(),
{
    if coeffs.len() == 0 {
        assert(group_order() > 0);
    } else {
        crate::crypto::lemma_reduce_bound(coeffs[0] + fmul(x, poly_eval(coeffs.skip(1), x)) as int);
    }
}

/// A degree-(t−1) polynomial over the scalar field: `t` coefficients,
/// constant term first; the constant term is the secret exponent.
pub struct Polynomial {
    pub elements: Vec<Scalar>,
}

impl Polynomial {
    /// Generate a polynomial of the given degree with uniformly random
    /// coefficients (`degree + 1` of them).
    pub fn generate(degree: u32) -> (r: Polynomial)
        ensures
            r.elements@.len() == degree as nat + 1,
            forall|k: int|
                0 <= k < r.elements@.len() ==> #[trigger] r.elements@[k]@ < group_order(),
    {
        let mut elements: Vec<Scalar> = Vec::new();
        elements.push(Scalar::generate());
        let mut i: u32 = 0;
        while i < degree
            invariant
                i <= degree,
                elements@.len() == i as nat + 1,
                forall|k: int|
                    0 <= k < elements@.len() ==> #[trigger] elements@[k]@ < group_order(),
            decreases degree - i,
        {
            elements.push(Scalar::generate());
            i = i + 1;
        }
        Polynomial { elements }
    }

    /// The number of coefficients (the threshold the polynomial was made for).
    pub fn len(&self) -> (r: usize)
        ensures
            r == self.elements@.len(),
    {
        self.elements.len()
    }

    /// Evaluate the polynomial at `x`, by an ascending pass with a running
    /// power of `x`.
    pub fn evaluate(&self, x: Scalar) -> (r: Scalar)
        ensures
            r@ == poly_eval(scalar_views(self.elements@), x@),
    {
        let ghost s = scalar_views(self.elements@);
        let n = self.elements.len();
        let mut r = Scalar::from_u32(0);
        let mut xp = Scalar::from_u32(1);
        let mut i: usize = 0;
        proof {
            lemma_poly_eval_bound(s, x@);
            lemma_reduce_small(poly_eval(s, x@));
            assert(s.skip(0) =~= s);
        }
        while i < n
            invariant
                n == self.elements@.len(),
                s == scalar_views(self.elements@),
                i <= n,
                r@ < group_order(),
                fadd(r@, fmul(xp@, poly_eval(s.skip(i as int), x@))) == poly_eval(s, x@),
            decreases n - i,
        {
            proof {
                lemma_eval_step(r@, xp@, s, x@, i as int);
            }
            r = r.add(&self.elements[i].mul(&xp));
            xp = xp.mul(&x);
            i = i + 1;
            proof {
                crate::crypto::lemma_field_bounds();
            }
        }
        proof {
            assert(s.skip(n as int).len() == 0);
            assert(poly_eval(s.skip(n as int), x@) == 0);
            lemma_reduce_small(0);
            assert(xp@ * (0 as int) == 0) by (nonlinear_arith);
            assert(fmul(xp@, 0) == 0);
            lemma_reduce_small(r@);
            assert(fadd(r@, 0) == r@);
        }
        r
    }

    /// The constant term `a_0`: the secret exponent.
    pub fn at_zero(&self) -> (r: Scalar)
        requires
            self.elements@.len() > 0,
        ensures
            r@ == self.elements@[0]@,
    {
        self.elements[0]
    }
}

/// One step of the evaluation loop: folding coefficient `i` into the
/// accumulator and stepping the power keeps the Horner identity.
pub proof fn lemma_eval_step(r: nat, xp: nat, s: Seq<nat>, x: nat, i: int)
    requires
        0 <= i < s.len(),
        fadd(r, fmul(xp, poly_eval(s.skip(i), x))) == poly_eval(s, x),
    ensures
        fadd(fadd(r, fmul(s[i], xp)), fmul(fmul(xp, x), poly_eval(s.skip(i + 1), x)))
            == poly_eval(s, x),
{
    let tail = poly_eval(s.skip(i + 1), x);
    assert(s.skip(i).skip(1) =~= s.skip(i + 1));
    assert(poly_eval(s.skip(i), x) == fadd(s[i], fmul(x, tail)));
    lemma_fmul_distrib(xp, s[i], fmul(x, tail));
    lemma_fmul_assoc(xp, x, tail);
    lemma_fadd_assoc(r, fmul(xp, s[i]), fmul(fmul(xp, x), tail));
    lemma_fmul_comm(xp, s[i]);
}

} // verus!
