//! Trusted layer over the Ristretto group of curve25519-dalek.
//!
//! The Ristretto group is cyclic of prime order ℓ (`group_order`), with the
//! standard basepoint as a generator. Every group element is therefore
//! `basepoint * k` for exactly one residue `k` mod ℓ, and the map from a
//! point to that `k` (its discrete logarithm) is a group isomorphism onto
//! the residues mod ℓ under addition. The contracts below describe each
//! group or scalar operation through that isomorphism: the view of a
//! [`Scalar`] is its canonical residue mod ℓ, the view of a [`Point`] is its
//! discrete logarithm to the basepoint. The views are ghost companions that
//! the trusted constructors claim to maintain; nothing outside this module
//! can build a `Scalar` or `Point` except through them.

use vstd::prelude::*;
use sha2::Digest;
use curve25519_dalek::scalar::Scalar as RawScalar;
use curve25519_dalek::ristretto::RistrettoPoint as RawPoint;

verus! {

/// Order ℓ of the Ristretto group: the prime 2^252 + 27742317777372353535851937790883648493.
pub open spec fn group_order() -> nat {
    0x1000000000000000000000000000000014def9dea2f79cd65812631a5cf5d3ed as nat
}

/// Canonical residue of an integer mod the group order.
pub open spec fn reduce(x: int) -> nat {
    (x % (group_order() as int)) as nat
}

/// Addition in the residue field mod ℓ.
pub open spec fn fadd(a: nat, b: nat) -> nat {
    reduce(a + b as int)
}

/// Subtraction in the residue field mod ℓ.
pub open spec fn fsub(a: nat, b: nat) -> nat {
    reduce(a - b)
}

/// Multiplication in the residue field mod ℓ.
pub open spec fn fmul(a: nat, b: nat) -> nat {
    reduce(a * b as int)
}

/// The multiplicative inverse mod ℓ, where one exists. ℓ is prime, so every
/// nonzero residue has exactly one inverse (see `lemma_finv_unique`).
pub open spec fn finv(a: nat) -> nat {
    choose|b: nat| b < group_order() && fmul(a, b) == 1
}

#[verifier::external_type_specification]
#[verifier::external_body]
pub struct ExScalar(RawScalar);

#[verifier::external_type_specification]
#[verifier::external_body]
pub struct ExRawPoint(RawPoint);

/// An element of the exponent field of the group: a residue mod ℓ.
#[derive(Clone, Copy)]
pub struct Scalar {
    inner: RawScalar,
    value: Ghost<nat>,
}

/// A group element. Its view is its discrete logarithm to the basepoint.
#[derive(Clone, Copy)]
pub struct Point {
    inner: RawPoint,
    value: Ghost<nat>,
}

impl View for Scalar {
    type V = nat;

    closed spec fn view(&self) -> nat {
        self.value@
    }
}

impl View for Point {
    type V = nat;

    closed spec fn view(&self) -> nat {
        self.value@
    }
}

/// The views of a sequence of points, in order.
pub open spec fn point_views(s: Seq<Point>) -> Seq<nat> {
    s.map_values(|p: Point| p@)
}

/// The views of a sequence of scalars, in order.
pub open spec fn scalar_views(s: Seq<Scalar>) -> Seq<nat> {
    s.map_values(|x: Scalar| x@)
}

/// What the Fiat-Shamir transform returns on an ordered sequence of group
/// elements, as a function of their discrete logarithms. Points with equal
/// logarithms are equal and have equal canonical encodings, so the digest
/// is a function of the logarithms alone.
pub uninterp spec fn hash_points_spec(inputs: Seq<nat>) -> nat;

impl Scalar {
    /// Whether the carried residue is canonical (below the group order).
    /// Every constructor in this module yields canonical residues.
    #[verifier::type_invariant]
    pub open spec fn canonical(self) -> bool {
        self@ < group_order()
    }

    /// Relies on curve25519_dalek scalar addition: scalars add as residues mod ℓ.
    #[verifier::external_body]
    pub fn add(&self, other: &Scalar) -> (r: Scalar)
        ensures
            r@ == fadd(self@, other@),
    {
        Scalar { inner: self.inner + other.inner, value: Ghost(0) }
    }

    /// Relies on curve25519_dalek scalar subtraction: scalars subtract as residues mod ℓ.
    #[verifier::external_body]
    pub fn sub(&self, other: &Scalar) -> (r: Scalar)
        ensures
            r@ == fsub(self@, other@),
    {
        Scalar { inner: self.inner - other.inner, value: Ghost(0) }
    }

    /// Relies on curve25519_dalek scalar multiplication: scalars multiply as residues mod ℓ.
    #[verifier::external_body]
    pub fn mul(&self, other: &Scalar) -> (r: Scalar)
        ensures
            r@ == fmul(self@, other@),
    {
        Scalar { inner: self.inner * other.inner, value: Ghost(0) }
    }

    /// Relies on curve25519_dalek `Scalar::invert`: for a nonzero scalar it
    /// returns the multiplicative inverse mod ℓ.
    #[verifier::external_body]
    pub fn inverse(&self) -> (r: Scalar)
        requires
            self@ != 0,
        ensures
            fmul(self@, r@) == 1,
            r@ < group_order(),
    {
        Scalar { inner: self.inner.invert(), value: Ghost(0) }
    }

    /// Relies on curve25519_dalek scalar equality: canonical residues are
    /// equal exactly when the scalars are.
    #[verifier::external_body]
    pub fn equals(&self, other: &Scalar) -> (r: bool)
        ensures
            r == (self@ == other@),
    {
        self.inner == other.inner
    }

    /// Relies on curve25519_dalek scalar equality against `Scalar::ZERO`.
    #[verifier::external_body]
    pub fn is_zero(&self) -> (r: bool)
        ensures
            r == (self@ == 0),
    {
        self.inner == RawScalar::ZERO
    }

    /// Relies on curve25519_dalek `Scalar::random`: a fresh scalar drawn from
    /// the operating system's entropy source. Nothing is promised of the
    /// drawn residue beyond canonicity.
    #[verifier::external_body]
    pub fn generate() -> (r: Scalar)
        ensures
            r@ < group_order(),
    {
        let mut rng = rand_core::OsRng;
        Scalar { inner: RawScalar::random(&mut rng), value: Ghost(0) }
    }

    /// Relies on curve25519_dalek `From<u32> for Scalar`: a 32-bit integer is
    /// far below ℓ, so its residue is itself.
    #[verifier::external_body]
    pub fn from_u32(x: u32) -> (r: Scalar)
        ensures
            r@ == x as nat,
    {
        Scalar { inner: RawScalar::from(x), value: Ghost(0) }
    }

    /// The Fiat-Shamir transform: hash an ordered sequence of group elements
    /// into a scalar. Relies on SHA-512 over the points' canonical Ristretto
    /// encodings and on `Scalar::from_hash`, which reduces the digest mod ℓ;
    /// the result is the deterministic function `hash_points_spec` of the
    /// points' discrete logarithms.
    #[verifier::external_body]
    pub fn hash_points(points: &Vec<Point>) -> (r: Scalar)
        ensures
            r@ == hash_points_spec(point_views(points@)),
            r@ < group_order(),
    {
        let mut state = sha2::Sha512::new();
        for p in points.iter() {
            state.update(p.inner.compress().as_bytes());
        }
        Scalar { inner: RawScalar::from_hash(state), value: Ghost(0) }
    }

    /// Integer exponentiation in the scalar field.
    pub fn pow(&self, e: u32) -> (r: Scalar)
        ensures
            r@ == fpow(self@, e as nat),
    {
        let mut r = Scalar::from_u32(1);
        let mut i: u32 = 0;
        while i < e
            invariant
                i <= e,
                r@ == fpow(self@, i as nat),
            decreases e - i,
        {
            proof {
                lemma_fmul_comm(r@, self@);
            }
            r = r.mul(self);
            i = i + 1;
        }
        r
    }
}

/// Integer exponentiation of a residue mod ℓ.
pub open spec fn fpow(b: nat, e: nat) -> nat
    decreases e,
{
    if e == 0 {
        1
    } else {
        fmul(b, fpow(b, (e - 1) as nat))
    }
}

impl Point {
    /// Whether the carried discrete logarithm is canonical (below ℓ).
    /// Every constructor in this module yields canonical values.
    #[verifier::type_invariant]
    pub open spec fn canonical(self) -> bool {
        self@ < group_order()
    }

    /// Relies on curve25519_dalek Ristretto point addition: the group
    /// operation adds discrete logarithms mod ℓ.
    #[verifier::external_body]
    pub fn add(&self, other: &Point) -> (r: Point)
        ensures
            r@ == fadd(self@, other@),
    {
        Point { inner: self.inner + other.inner, value: Ghost(0) }
    }

    /// Relies on curve25519_dalek Ristretto point subtraction: adding the
    /// inverse subtracts discrete logarithms mod ℓ.
    #[verifier::external_body]
    pub fn sub(&self, other: &Point) -> (r: Point)
        ensures
            r@ == fsub(self@, other@),
    {
        Point { inner: self.inner - other.inner, value: Ghost(0) }
    }

    /// Relies on curve25519_dalek scalar multiplication of a Ristretto
    /// point: it multiplies the discrete logarithm by the scalar mod ℓ.
    #[verifier::external_body]
    pub fn mul(&self, s: &Scalar) -> (r: Point)
        ensures
            r@ == fmul(self@, s@),
    {
        Point { inner: self.inner * s.inner, value: Ghost(0) }
    }

    /// Relies on curve25519_dalek `RISTRETTO_BASEPOINT_POINT`: the standard
    /// generator, whose discrete logarithm to itself is 1.
    #[verifier::external_body]
    pub fn generator() -> (r: Point)
        ensures
            r@ == 1,
    {
        Point {
            inner: curve25519_dalek::constants::RISTRETTO_BASEPOINT_POINT,
            value: Ghost(0),
        }
    }

    /// Relies on curve25519_dalek `Identity for RistrettoPoint`: the neutral
    /// element, whose discrete logarithm is 0.
    #[verifier::external_body]
    pub fn identity() -> (r: Point)
        ensures
            r@ == 0,
    {
        Point {
            inner: <RawPoint as curve25519_dalek::traits::Identity>::identity(),
            value: Ghost(0),
        }
    }

    /// Relies on curve25519_dalek multiplication of the basepoint by a
    /// scalar: the resulting point's discrete logarithm is that scalar.
    #[verifier::external_body]
    pub fn from_scalar(s: &Scalar) -> (r: Point)
        ensures
            r@ == reduce(s@ as int),
    {
        Point {
            inner: curve25519_dalek::constants::RISTRETTO_BASEPOINT_POINT * s.inner,
            value: Ghost(0),
        }
    }

    /// Relies on curve25519_dalek Ristretto point equality: points are equal
    /// exactly when their discrete logarithms are, since the logarithm map
    /// is a bijection onto the residues mod ℓ.
    #[verifier::external_body]
    pub fn equals(&self, other: &Point) -> (r: bool)
        ensures
            r == (self@ == other@),
    {
        self.inner == other.inner
    }
}

/// A canonical residue reduces to itself.
pub proof fn lemma_reduce_small(a: nat)
    requires
        a < group_order(),
    ensures
        reduce(a as int) == a,
{
    vstd::arithmetic::div_mod::lemma_small_mod(a, group_order());
}

/// Every reduced value is below the group order.
pub proof fn lemma_reduce_bound(x: int)
    ensures
        reduce(x) < group_order(),
{
    assert(group_order() > 0);
    vstd::arithmetic::div_mod::lemma_mod_bound(x, group_order() as int);
}

/// The field operations always yield canonical residues.
pub proof fn lemma_field_bounds()
    ensures
        forall|a: nat, b: nat| #[trigger] fadd(a, b) < group_order(),
        forall|a: nat, b: nat| #[trigger] fmul(a, b) < group_order(),
        forall|a: nat, b: nat| #[trigger] fsub(a, b) < group_order(),
{
    assert forall|a: nat, b: nat| #[trigger] fadd(a, b) < group_order() by {
        lemma_reduce_bound(a + b as int);
    }
    assert forall|a: nat, b: nat| #[trigger] fmul(a, b) < group_order() by {
        lemma_reduce_bound(a * b as int);
    }
    assert forall|a: nat, b: nat| #[trigger] fsub(a, b) < group_order() by {
        lemma_reduce_bound(a - b as int);
    }
}

/// Addition mod ℓ is associative.
pub proof fn lemma_fadd_assoc(a: nat, b: nat, c: nat)
    ensures
        fadd(fadd(a, b), c) == fadd(a, fadd(b, c)),
{
    let q = group_order() as int;
    vstd::arithmetic::div_mod::lemma_add_mod_noop_right(c as int, (a + b) as int, q);
    vstd::arithmetic::div_mod::lemma_add_mod_noop_right(a as int, (b + c) as int, q);
}

/// Multiplication mod ℓ is commutative.
pub proof fn lemma_fmul_comm(a: nat, b: nat)
    ensures
        fmul(a, b) == fmul(b, a),
{
}

/// Multiplication mod ℓ is associative.
pub proof fn lemma_fmul_assoc(a: nat, b: nat, c: nat)
    ensures
        fmul(fmul(a, b), c) == fmul(a, fmul(b, c)),
{
    let q = group_order() as int;
    vstd::arithmetic::div_mod::lemma_mul_mod_noop_left((a * b) as int, c as int, q);
    vstd::arithmetic::div_mod::lemma_mul_mod_noop_right(a as int, (b * c) as int, q);
    assert((a * b) * c == a * (b * c)) by (nonlinear_arith);
}

/// Multiplication mod ℓ distributes over addition mod ℓ.
pub proof fn lemma_fmul_distrib(a: nat, b: nat, c: nat)
    ensures
        fmul(a, fadd(b, c)) == fadd(fmul(a, b), fmul(a, c)),
{
    let q = group_order() as int;
    vstd::arithmetic::div_mod::lemma_mul_mod_noop_right(a as int, (b + c) as int, q);
    assert(a * (b + c) == a * b + a * c) by (nonlinear_arith);
    vstd::arithmetic::div_mod::lemma_add_mod_noop((a * b) as int, (a * c) as int, q);
}

/// The residue 1 is a multiplicative unit.
pub proof fn lemma_fmul_one(a: nat)
    requires
        a < group_order(),
    ensures
        fmul(1, a) == a,
        fmul(a, 1) == a,
{
    lemma_reduce_small(a);
}

/// A nonzero residue has at most one canonical inverse, so a witness to
/// `fmul(a, b) == 1` pins `finv(a)` down to `b`.
pub proof fn lemma_finv_unique(a: nat, b: nat)
    requires
        b < group_order(),
        fmul(a, b) == 1,
    ensures
        finv(a) == b,
{
    let q = group_order() as int;
    assert(exists|x: nat| x < group_order() && fmul(a, x) == 1) by {
        assert(b < group_order() && fmul(a, b) == 1);
    }
    let c = finv(a);
    assert(c < group_order() && fmul(a, c) == 1);
    // b == b * (a * c) == (b * a) * c == c mod ℓ, and both are canonical.
    lemma_fmul_one(b);
    lemma_fmul_one(c);
    lemma_fmul_comm(a, b);
    lemma_fmul_comm(a, c);
    lemma_fmul_assoc(b, a, c);
    assert(fmul(b, fmul(a, c)) == b);
    assert(fmul(fmul(b, a), c) == fmul(fmul(a, b), c));
    assert(fmul(fmul(a, b), c) == fmul(1, c));
}

} // verus!
