//! The simple publicly verifiable secret sharing scheme.
//!
//! A dealer escrows a secret behind a random polynomial, publishes one
//! commitment per coefficient, and issues each participant an encrypted
//! share with an equality-of-exponents proof. Anyone can check a share
//! against the commitments without decrypting it; a participant decrypts
//! with a publicly checkable proof; and any `t` distinct decrypted shares
//! reconstruct the secret by Lagrange interpolation at zero.

use vstd::prelude::*;
use crate::crypto::{
    Point, Scalar, fadd, finv, fmul, fsub, group_order, lemma_field_bounds, lemma_finv_unique,
    lemma_fmul_assoc, lemma_fmul_comm, lemma_fmul_distrib, lemma_fmul_one, lemma_reduce_small,
    scalar_views,
};
use crate::dleq;
use crate::dleq::{DLEQ, spec_verifies};
use crate::math::{Polynomial, lemma_eval_step, lemma_poly_eval_bound, poly_eval};
use crate::types::{PrivateKey, PublicKey, ShareId, Threshold, keypair_consistent};

verus! {

/// The public image of the shared secret: `generator^{a_0}`.
pub type Secret = Point;

/// Why reconstruction failed: a malformed request, never a forged proof.
#[derive(Clone, Copy, Debug, PartialEq, Eq, Structural)]
pub enum RecoveryError {
    /// Fewer decrypted shares were supplied than the threshold requires.
    NotEnoughShares,
    /// Two of the shares used for interpolation carry the same id, which
    /// would make a Lagrange denominator zero.
    DuplicateShareId,
}

/// The dealer's bundle for one sharing session.
pub struct Escrow {
    /// An independent extra generator `h`, chosen at random so that nobody
    /// knows its discrete logarithm to the standard generator.
    pub extra_generator: Point,
    /// The secret degree-(t−1) polynomial; its constant term is the secret
    /// exponent, which never leaves this bundle.
    pub polynomial: Polynomial,
    /// The public secret value `generator^{a_0}`.
    pub secret: Secret,
    /// Proof binding the public secret to the first coefficient commitment.
    pub zkp: dleq::Proof,
}

/// One commitment per polynomial coefficient: `h^{a_j}`.
#[derive(Clone, Copy)]
pub struct Commitment {
    pub point: Point,
}

/// A participant's encrypted share `Y_i^{p(i)}` with its proof.
#[derive(Clone, Copy)]
pub struct EncryptedShare {
    pub id: ShareId,
    pub encrypted_val: Point,
    pub zkp: dleq::Proof,
}

/// A participant's lifted plaintext share `generator^{p(i)}` with its proof.
#[derive(Clone, Copy)]
pub struct DecryptedShare {
    pub id: ShareId,
    pub decrypted_val: Point,
    pub zkp: dleq::Proof,
}

/// The residues of the escrow polynomial's coefficients, constant term first.
pub open spec fn poly_views(p: Polynomial) -> Seq<nat> {
    scalar_views(p.elements@)
}

/// The escrow's secret exponent `a_0`.
pub open spec fn secret_exponent(e: Escrow) -> nat {
    poly_views(e.polynomial)[0]
}

/// A well-formed escrow: at least one coefficient, the published secret is
/// the generator raised to the secret exponent, and the escrow's proof
/// verifies for the statement linking the secret to `h^{a_0}` (the value of
/// the first published commitment).
pub open spec fn escrow_wf(e: Escrow) -> bool {
    &&& e.polynomial.elements@.len() >= 1
    &&& e.secret@ == secret_exponent(e)
    &&& spec_verifies(
        e.zkp.c@,
        e.zkp.z@,
        1,
        e.secret@,
        e.extra_generator@,
        fmul(e.extra_generator@, secret_exponent(e)),
    )
}

/// Create a new escrow for the given reconstruction threshold.
pub fn escrow(t: Threshold) -> (r: Escrow)
    requires
        t >= 1,
    ensures
        r.polynomial.elements@.len() == t as nat,
        escrow_wf(r),
        forall|k: int|
            0 <= k < t as int ==> #[trigger] poly_views(r.polynomial)[k] < group_order(),
{
    let poly = Polynomial::generate(t - 1);
    let gen = Point::from_scalar(&Scalar::generate());

    let secret = poly.at_zero();
    let g_s = Point::from_scalar(&secret);

    let w = Scalar::generate();
    let statement = DLEQ { g1: Point::generator(), h1: g_s, g2: gen, h2: gen.mul(&secret) };
    let zkp = dleq::Proof::create(w, secret, statement);
    proof {
        use_type_invariant(secret);
        lemma_reduce_small(secret@);
        lemma_fmul_one(secret@);
        dleq::lemma_create_verifies(1, gen@, secret@, w@);
    }
    Escrow { extra_generator: gen, polynomial: poly, secret: g_s, zkp }
}

/// The residues of a commitment list, in coefficient order.
pub open spec fn commitment_views(c: Seq<Commitment>) -> Seq<nat> {
    c.map_values(|x: Commitment| x.point@)
}

/// Publish the coefficient commitments `h^{a_j}`, in coefficient order.
pub fn commitments(escrow: &Escrow) -> (r: Vec<Commitment>)
    ensures
        r@.len() == escrow.polynomial.elements@.len(),
        forall|j: int|
            0 <= j < r@.len() ==> r@[j].point@ == fmul(
                escrow.extra_generator@,
                poly_views(escrow.polynomial)[j],
            ),
{
    let n = escrow.polynomial.len();
    let mut r: Vec<Commitment> = Vec::new();
    let mut i: usize = 0;
    while i < n
        invariant
            n == escrow.polynomial.elements@.len(),
            i <= n,
            r@.len() == i,
            forall|j: int|
                0 <= j < i ==> r@[j].point@ == fmul(
                    escrow.extra_generator@,
                    poly_views(escrow.polynomial)[j],
                ),
        decreases n - i,
    {
        let com = Commitment { point: escrow.extra_generator.mul(&escrow.polynomial.elements[i]) };
        r.push(com);
        i = i + 1;
    }
    r
}

/// What `create_share` promises of its result: the share carries the
/// requested id, the encrypted value is the recipient's key raised to the
/// polynomial's evaluation at the id, and the embedded proof verifies for
/// the statement linking `h^{p(id)}` to that encryption.
pub open spec fn share_consistent(
    escrow: Escrow,
    id: ShareId,
    public: PublicKey,
    share: EncryptedShare,
) -> bool {
    let s = poly_eval(poly_views(escrow.polynomial), id as nat);
    &&& share.id == id
    &&& share.encrypted_val@ == fmul(public.point@, s)
    &&& spec_verifies(
        share.zkp.c@,
        share.zkp.z@,
        escrow.extra_generator@,
        fmul(escrow.extra_generator@, s),
        public.point@,
        share.encrypted_val@,
    )
}

/// Issue the encrypted share with the given id for one recipient.
pub fn create_share(escrow: &Escrow, share_id: ShareId, public: &PublicKey) -> (r: EncryptedShare)
    requires
        share_id != 0,
    ensures
        share_consistent(*escrow, share_id, *public, r),
{
    let peval = escrow.polynomial.evaluate(Scalar::from_u32(share_id));
    let w = Scalar::generate();
    let xi = escrow.extra_generator.mul(&peval);
    let yi = public.point.mul(&peval);
    let statement = DLEQ { g1: escrow.extra_generator, h1: xi, g2: public.point, h2: yi };
    let zkp = dleq::Proof::create(w, peval, statement);
    proof {
        dleq::lemma_create_verifies(escrow.extra_generator@, public.point@, peval@, w@);
    }
    EncryptedShare { id: share_id, encrypted_val: yi, zkp }
}

/// Issue one share per supplied public key, assigning ids `1..n` in supply
/// order. That order is caller-significant: it must match the order used
/// when decrypted shares are matched back to identities.
pub fn create_shares(escrow: &Escrow, pubs: &Vec<PublicKey>) -> (r: Vec<EncryptedShare>)
    requires
        pubs@.len() <= 0xffff_ffff,
    ensures
        r@.len() == pubs@.len(),
        forall|i: int|
            0 <= i < r@.len() ==> share_consistent(*escrow, (i + 1) as ShareId, pubs@[i], r@[i]),
{
    let n = pubs.len();
    let mut r: Vec<EncryptedShare> = Vec::new();
    let mut i: usize = 0;
    while i < n
        invariant
            n == pubs@.len(),
            n <= 0xffff_ffff,
            i <= n,
            r@.len() == i,
            forall|j: int|
                0 <= j < i ==> share_consistent(*escrow, (j + 1) as ShareId, pubs@[j], r@[j]),
        decreases n - i,
    {
        let share = create_share(escrow, (i as u32) + 1, &pubs[i]);
        r.push(share);
        i = i + 1;
    }
    r
}

/// Recompute the expected commitment `X = ∏_j C_j^{id^j}`: evaluating the
/// polynomial in the exponent from the published commitments alone.
fn create_xi(id: ShareId, commitments: &[Commitment]) -> (r: Point)
    ensures
        r@ == poly_eval(commitment_views(commitments@), id as nat),
{
    let ghost s = commitment_views(commitments@);
    let x = Scalar::from_u32(id);
    let n = commitments.len();
    let mut r = Point::identity();
    let mut xp = Scalar::from_u32(1);
    let mut i: usize = 0;
    proof {
        lemma_poly_eval_bound(s, id as nat);
        lemma_reduce_small(poly_eval(s, id as nat));
        assert(s.skip(0) =~= s);
    }
    while i < n
        invariant
            n == commitments@.len(),
            s == commitment_views(commitments@),
            x@ == id as nat,
            i <= n,
            r@ < group_order(),
            fadd(r@, fmul(xp@, poly_eval(s.skip(i as int), x@))) == poly_eval(s, x@),
        decreases n - i,
    {
        proof {
            lemma_eval_step(r@, xp@, s, x@, i as int);
        }
        r = r.add(&commitments[i].point.mul(&xp));
        xp = xp.mul(&x);
        i = i + 1;
        proof {
            lemma_field_bounds();
        }
    }
    proof {
        assert(s.skip(n as int).len() == 0);
        assert(poly_eval(s.skip(n as int), x@) == 0);
        lemma_reduce_small(0);
        assert(xp@ * (0 as int) == 0) by (nonlinear_arith);
        assert(fmul(xp@, 0) == 0);
        lemma_reduce_small(r@);
        assert(fadd(r@, 0) == r@);
    }
    r
}

impl EncryptedShare {
    /// Check, without decrypting, that this share is well-formed for the
    /// given id, recipient key and published commitments: the proof is
    /// verified against the commitment recomputed from the public data.
    pub fn verify(
        &self,
        id: ShareId,
        public: &PublicKey,
        extra_generator: &Point,
        commitments: &[Commitment],
    ) -> (r: bool)
        ensures
            r == spec_verifies(
                self.zkp.c@,
                self.zkp.z@,
                extra_generator@,
                poly_eval(commitment_views(commitments@), id as nat),
                public.point@,
                self.encrypted_val@,
            ),
    {
        let xi = create_xi(id, commitments);
        let statement = DLEQ {
            g1: *extra_generator,
            h1: xi,
            g2: public.point,
            h2: self.encrypted_val,
        };
        self.zkp.verify(statement)
    }
}

impl DecryptedShare {
    /// Check that this decryption is faithful to the original encrypted
    /// share and the owner's public key, without learning the private key.
    pub fn verify(&self, public: &PublicKey, eshare: &EncryptedShare) -> (r: bool)
        ensures
            r == spec_verifies(
                self.zkp.c@,
                self.zkp.z@,
                1,
                public.point@,
                self.decrypted_val@,
                eshare.encrypted_val@,
            ),
    {
        let statement = DLEQ {
            g1: Point::generator(),
            h1: public.point,
            g2: self.decrypted_val,
            h2: eshare.encrypted_val,
        };
        self.zkp.verify(statement)
    }
}

/// Decrypt one's own share: raise the encrypted value to the inverse of the
/// private scalar, recovering `generator^{p(id)}`, and prove the decryption
/// faithful.
pub fn decrypt_share(
    private: &PrivateKey,
    public: &PublicKey,
    share: &EncryptedShare,
) -> (r: DecryptedShare)
    requires
        private.scalar@ != 0,
        keypair_consistent(*private, *public),
    ensures
        r.id == share.id,
        r.decrypted_val@ == fmul(share.encrypted_val@, finv(private.scalar@)),
        fmul(r.decrypted_val@, private.scalar@) == share.encrypted_val@,
        spec_verifies(
            r.zkp.c@,
            r.zkp.z@,
            1,
            public.point@,
            r.decrypted_val@,
            share.encrypted_val@,
        ),
{
    let w = Scalar::generate();
    let xi = private.scalar;
    let yi = public.point;
    let lifted_yi = share.encrypted_val;
    let xi_inverse = xi.inverse();
    let si = lifted_yi.mul(&xi_inverse);
    let statement = DLEQ { g1: Point::generator(), h1: yi, g2: si, h2: lifted_yi };
    proof {
        use_type_invariant(xi);
        use_type_invariant(lifted_yi);
        lemma_finv_unique(xi@, xi_inverse@);
        // si^x = (enc^{x^{-1}})^x = enc
        lemma_fmul_assoc(lifted_yi@, xi_inverse@, xi@);
        lemma_fmul_comm(xi_inverse@, xi@);
        lemma_fmul_comm(xi@, xi_inverse@);
        lemma_fmul_one(lifted_yi@);
        assert(fmul(si@, xi@) == lifted_yi@);
        // the statement is consistent for witness x: h1 = g^x, h2 = si^x
        lemma_fmul_one(xi@);
        dleq::lemma_create_verifies(1, si@, xi@, w@);
    }
    let zkp = dleq::Proof::create(w, xi, statement);
    DecryptedShare { id: share.id, decrypted_val: si, zkp }
}

/// The ids of a share list, as residues.
pub open spec fn ids_of(shares: Seq<DecryptedShare>) -> Seq<nat> {
    shares.map_values(|s: DecryptedShare| s.id as nat)
}

/// The Lagrange coefficient at zero for the share at position `i`, folded
/// over the first `j` positions: `∏_{k<j, k≠i} id_k · (id_k − id_i)^{-1}`.
pub open spec fn lagrange_coeff(ids: Seq<nat>, i: int, j: int) -> nat
    decreases j,
{
    if j <= 0 {
        1
    } else {
        let prev = lagrange_coeff(ids, i, j - 1);
        if j - 1 == i {
            prev
        } else {
            fmul(prev, fmul(ids[j - 1], finv(fsub(ids[j - 1], ids[i]))))
        }
    }
}

/// Whether two of the first `t` shares carry the same id.
pub open spec fn has_duplicate_ids(shares: Seq<DecryptedShare>, t: int) -> bool {
    exists|i: int, j: int|
        0 <= i < t && 0 <= j < t && i != j && #[trigger] shares[i].id == #[trigger] shares[j].id
}

/// The residue of the reconstructed point, folded over the first `i`
/// shares: `Σ_{k<i} dv_k · λ_k`.
pub open spec fn recover_sum(shares: Seq<DecryptedShare>, t: int, i: int) -> nat
    decreases i,
{
    if i <= 0 {
        0
    } else {
        fadd(
            recover_sum(shares, t, i - 1),
            fmul(shares[i - 1].decrypted_val@, lagrange_coeff(ids_of(shares), i - 1, t)),
        )
    }
}

/// Subtraction of two canonical residues is zero exactly on equal residues.
proof fn lemma_fsub_zero(a: nat, b: nat)
    requires
        a < group_order(),
        b < group_order(),
    ensures
        (fsub(a, b) == 0) <==> (a == b),
{
    let q = group_order() as int;
    if a == b {
        lemma_reduce_small(0);
    } else if a > b {
        lemma_reduce_small((a - b) as nat);
    } else {
        vstd::arithmetic::div_mod::lemma_mod_add_multiples_vanish(a - b, q);
        lemma_reduce_small((a - b + q) as nat);
    }
}

/// The Lagrange coefficient for the share at position `sid` among the first
/// `t`, or the duplicate-id error if some other of those shares has the same
/// id (a zero denominator).
fn interpolate_one(t: Threshold, sid: usize, shares: &[DecryptedShare]) -> (r: Result<
    Scalar,
    RecoveryError,
>)
    requires
        t as nat <= shares@.len(),
        sid < t as nat,
    ensures
        match r {
            Ok(v) => {
                &&& v@ == lagrange_coeff(ids_of(shares@), sid as int, t as int)
                &&& forall|j: int|
                    0 <= j < t as int && j != sid as int ==> shares@[j].id != shares@[sid as int].id
            },
            Err(e) => {
                &&& e == RecoveryError::DuplicateShareId
                &&& has_duplicate_ids(shares@, t as int)
            },
        },
{
    let ghost ids = ids_of(shares@);
    let mut v = Scalar::from_u32(1);
    let si = Scalar::from_u32(shares[sid].id);
    let mut j: usize = 0;
    while j < t as usize
        invariant
            t as nat <= shares@.len(),
            sid < t as nat,
            ids == ids_of(shares@),
            si@ == ids[sid as int],
            j <= t as nat,
            v@ == lagrange_coeff(ids, sid as int, j as int),
            forall|k: int|
                0 <= k < j as int && k != sid as int ==> shares@[k].id != shares@[sid as int].id,
        decreases t as int - j as int,
    {
        if j != sid {
            let sj = Scalar::from_u32(shares[j].id);
            let d = sj.sub(&si);
            proof {
                lemma_fsub_zero(sj@, si@);
            }
            if d.is_zero() {
                proof {
                    assert(shares@[j as int].id == shares@[sid as int].id);
                }
                return Err(RecoveryError::DuplicateShareId);
            }
            let dinv = d.inverse();
            proof {
                lemma_finv_unique(d@, dinv@);
            }
            let e = sj.mul(&dinv);
            v = v.mul(&e);
        }
        j = j + 1;
    }
    Ok(v)
}

/// Reconstruct the secret from the first `t` supplied decrypted shares:
/// `Σ_i dv_i^{λ_i}`, the Lagrange interpolation at zero in the exponent.
/// Too few shares, or two used shares with one id, are explicit errors.
pub fn recover(t: Threshold, shares: &[DecryptedShare]) -> (r: Result<Secret, RecoveryError>)
    ensures
        match r {
            Ok(p) => {
                &&& t as nat <= shares@.len()
                &&& !has_duplicate_ids(shares@, t as int)
                &&& p@ == recover_sum(shares@, t as int, t as int)
            },
            Err(e) => {
                &&& (e == RecoveryError::NotEnoughShares <==> t as nat > shares@.len())
                &&& (e == RecoveryError::DuplicateShareId ==> has_duplicate_ids(
                    shares@,
                    t as int,
                ))
            },
        },
{
    if t as usize > shares.len() {
        return Err(RecoveryError::NotEnoughShares);
    }
    let mut result = Point::identity();
    let mut i: usize = 0;
    while i < t as usize
        invariant
            t as nat <= shares@.len(),
            i <= t as nat,
            result@ == recover_sum(shares@, t as int, i as int),
            forall|a: int, b: int|
                0 <= a < i as int && 0 <= b < t as int && a != b ==> shares@[a].id != shares@[b].id,
        decreases t as int - i as int,
    {
        let v = match interpolate_one(t, i, shares) {
            Ok(v) => v,
            Err(e) => {
                return Err(e);
            },
        };
        result = result.add(&shares[i].decrypted_val.mul(&v));
        i = i + 1;
    }
    Ok(result)
}

/// Check the escrow-time proof that the publicly revealed secret matches
/// the first published coefficient commitment.
pub fn verify_secret(
    secret: Secret,
    extra_generator: Point,
    commitments: &[Commitment],
    zkp: dleq::Proof,
) -> (r: bool)
    requires
        commitments@.len() >= 1,
    ensures
        r == spec_verifies(
            zkp.c@,
            zkp.z@,
            1,
            secret@,
            extra_generator@,
            commitments@[0].point@,
        ),
{
    let statement = DLEQ {
        g1: Point::generator(),
        h1: secret,
        g2: extra_generator,
        h2: commitments[0].point,
    };
    zkp.verify(statement)
}

/// The public-verifiability chain from dealer to output: the proof carried
/// by a well-formed escrow passes `verify_secret` against the escrow's own
/// published secret and commitment list, whose first entry is `h^{a_0}`.
pub proof fn lemma_escrow_secret_verifies(e: Escrow, comms: Seq<Commitment>)
    requires
        escrow_wf(e),
        comms.len() >= 1,
        comms[0].point@ == fmul(e.extra_generator@, poly_views(e.polynomial)[0]),
    ensures
        spec_verifies(e.zkp.c@, e.zkp.z@, 1, e.secret@, e.extra_generator@, comms[0].point@),
{
}

/// Threshold-one reconstruction: with threshold 1 the Lagrange coefficient
/// is the empty product, so recovering from one correctly decrypted share
/// of a one-coefficient polynomial yields exactly the secret exponent.
/// (For higher thresholds reconstruction is stated operationally by
/// `recover`'s contract and exercised by tests: the general interpolation
/// identity rests on the field structure of the residues mod ℓ, which this
/// model does not carry.)
pub proof fn lemma_recover_single(shares: Seq<DecryptedShare>, coeffs: Seq<nat>)
    requires
        shares.len() >= 1,
        coeffs.len() == 1,
        coeffs[0] < group_order(),
        shares[0].decrypted_val@ == poly_eval(coeffs, shares[0].id as nat),
    ensures
        recover_sum(shares, 1, 1) == coeffs[0],
{
    let ids = ids_of(shares);
    let dv = shares[0].decrypted_val@;
    assert(lagrange_coeff(ids, 0, 0) == 1);
    assert(lagrange_coeff(ids, 0, 1) == 1);
    // the one-coefficient polynomial evaluates to its constant term
    lemma_reduce_small(0);
    assert((shares[0].id as nat) * (0 as int) == 0) by (nonlinear_arith);
    assert(fmul(shares[0].id as nat, 0) == 0);
    assert(coeffs.skip(1).len() == 0);
    assert(poly_eval(coeffs.skip(1), shares[0].id as nat) == 0);
    assert(dv == fadd(coeffs[0], 0));
    lemma_reduce_small(coeffs[0]);
    assert(dv == coeffs[0]);
    // folding the single share: 0 + dv·1
    lemma_fmul_one(dv);
    assert(recover_sum(shares, 1, 0) == 0);
    assert(recover_sum(shares, 1, 1) == fadd(0, fmul(dv, 1)));
    lemma_reduce_small(dv);
}

/// Raising each coefficient commitment's base `h` through the evaluation:
/// the polynomial evaluated over the commitments `h^{a_j}` equals `h` raised
/// to the polynomial's own evaluation. This is the identity that lets any
/// observer recompute `h^{p(id)}` from public data alone.
pub proof fn lemma_commitment_eval(h: nat, coeffs: Seq<nat>, x: nat)
    ensures
        poly_eval(coeffs.map_values(|a: nat| fmul(h, a)), x) == fmul(h, poly_eval(coeffs, x)),
    decreases coeffs.len(),
{
    let mapped = coeffs.map_values(|a: nat| fmul(h, a));
    if coeffs.len() == 0 {
        lemma_reduce_small(0);
        assert(h * (0 as int) == 0) by (nonlinear_arith);
        assert(fmul(h, 0) == 0);
    } else {
        let tail = poly_eval(coeffs.skip(1), x);
        lemma_commitment_eval(h, coeffs.skip(1), x);
        assert(mapped.skip(1) =~= coeffs.skip(1).map_values(|a: nat| fmul(h, a)));
        assert(poly_eval(mapped, x) == fadd(fmul(h, coeffs[0]), fmul(x, fmul(h, tail))));
        lemma_fmul_distrib(h, coeffs[0], fmul(x, tail));
        lemma_fmul_assoc(h, x, tail);
        lemma_fmul_comm(h, x);
        lemma_fmul_assoc(x, h, tail);
    }
}

/// Commitment consistency: a share issued by `create_share` passes
/// `EncryptedShare::verify` against the matching commitment list, because
/// the commitment recomputed from public data equals `h^{p(id)}`.
pub proof fn lemma_share_verifies(
    escrow: Escrow,
    id: ShareId,
    public: PublicKey,
    share: EncryptedShare,
    comms: Seq<Commitment>,
)
    requires
        share_consistent(escrow, id, public, share),
        comms.len() == poly_views(escrow.polynomial).len(),
        forall|j: int|
            0 <= j < comms.len() ==> comms[j].point@ == fmul(
                escrow.extra_generator@,
                poly_views(escrow.polynomial)[j],
            ),
    ensures
        spec_verifies(
            share.zkp.c@,
            share.zkp.z@,
            escrow.extra_generator@,
            poly_eval(commitment_views(comms), id as nat),
            public.point@,
            share.encrypted_val@,
        ),
{
    let coeffs = poly_views(escrow.polynomial);
    let h = escrow.extra_generator@;
    assert(commitment_views(comms) =~= coeffs.map_values(|a: nat| fmul(h, a)));
    lemma_commitment_eval(h, coeffs, id as nat);
}

} // verus!
