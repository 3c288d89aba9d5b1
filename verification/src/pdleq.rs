//! Parallel equality-of-exponents proofs.
//!
//! Batches `n` independent statements under one shared challenge: the hash
//! input interleaves all result elements (in statement order) followed by
//! all commitments (in statement order), so that no statement's material can
//! be swapped out without changing the challenge. One response per statement.

use vstd::prelude::*;
use crate::crypto::{Point, Scalar, fmul, hash_points_spec, point_views};
use crate::dleq::{DLEQ, challenge_input, lemma_recommit_is_commit, spec_challenge, spec_recommit, spec_response, spec_verifies};

verus! {

/// The statements of a parameter list (nonce, witness, statement).
pub open spec fn dleqs_of(params: Seq<(Scalar, Scalar, DLEQ)>) -> Seq<DLEQ> {
    params.map_values(|p: (Scalar, Scalar, DLEQ)| p.2)
}

/// The views of a sequence of scalars, in order.
pub open spec fn scalar_views(s: Seq<Scalar>) -> Seq<nat> {
    s.map_values(|x: Scalar| x@)
}

/// The result elements of all statements, interleaved in statement order:
/// `h1_1, h2_1, h1_2, h2_2, ...`.
pub open spec fn statement_views(dleqs: Seq<DLEQ>) -> Seq<nat> {
    Seq::new(
        2 * dleqs.len(),
        |k: int| if k % 2 == 0 { dleqs[k / 2].h1@ } else { dleqs[k / 2].h2@ },
    )
}

/// The commitments a creator computes from the nonces, interleaved in
/// statement order: `g1_i^{w_i}, g2_i^{w_i}`.
pub open spec fn create_commit_views(params: Seq<(Scalar, Scalar, DLEQ)>) -> Seq<nat> {
    Seq::new(
        2 * params.len(),
        |k: int|
            if k % 2 == 0 {
                fmul(params[k / 2].2.g1@, params[k / 2].0@)
            } else {
                fmul(params[k / 2].2.g2@, params[k / 2].0@)
            },
    )
}

/// The commitments a verifier recomputes from the responses and the shared
/// challenge, interleaved in statement order.
pub open spec fn verify_commit_views(dleqs: Seq<DLEQ>, zs: Seq<nat>, c: nat) -> Seq<nat> {
    Seq::new(
        2 * dleqs.len(),
        |k: int|
            if k % 2 == 0 {
                spec_recommit(dleqs[k / 2].g1@, dleqs[k / 2].h1@, c, zs[k / 2])
            } else {
                spec_recommit(dleqs[k / 2].g2@, dleqs[k / 2].h2@, c, zs[k / 2])
            },
    )
}

/// The one challenge shared by every statement of a parallel proof.
pub open spec fn spec_parallel_challenge(params: Seq<(Scalar, Scalar, DLEQ)>) -> nat {
    hash_points_spec(statement_views(dleqs_of(params)) + create_commit_views(params))
}

/// What it means for a parallel proof `(c, zs)` to pass verification: the
/// statement count equals the response count, and the shared challenge
/// recomputed over the whole interleaved transcript equals `c`.
pub open spec fn spec_parallel_verifies(c: nat, zs: Seq<nat>, dleqs: Seq<DLEQ>) -> bool {
    &&& zs.len() == dleqs.len()
    &&& c == hash_points_spec(statement_views(dleqs) + verify_commit_views(dleqs, zs, c))
}

/// A parallel proof: one shared challenge and one response per statement.
#[derive(Clone)]
pub struct Proof {
    pub c: Scalar,
    pub zs: Vec<Scalar>,
}

impl Proof {
    /// Create one proof for many statements, each with its own fresh nonce
    /// (`.0`) and witness (`.1`), bound under a single shared challenge.
    pub fn create(params: &[(Scalar, Scalar, DLEQ)]) -> (r: Proof)
        ensures
            r.zs@.len() == params@.len(),
            r.c@ == spec_parallel_challenge(params@),
            forall|i: int|
                0 <= i < params@.len() ==> r.zs@[i]@ == spec_response(
                    params@[i].0@,
                    params@[i].1@,
                    r.c@,
                ),
    {
        let n = params.len();
        let mut his: Vec<Point> = Vec::new();
        let mut ais: Vec<Point> = Vec::new();
        let mut zs: Vec<Scalar> = Vec::new();

        let mut i: usize = 0;
        while i < n
            invariant
                n == params@.len(),
                i <= n,
                his@.len() == 2 * i,
                ais@.len() == 2 * i,
                point_views(his@) == statement_views(dleqs_of(params@)).take(2 * i as int),
                point_views(ais@) == create_commit_views(params@).take(2 * i as int),
            decreases n - i,
        {
            let p = &params[i];
            his.push(p.2.h1);
            his.push(p.2.h2);
            ais.push(p.2.g1.mul(&p.0));
            ais.push(p.2.g2.mul(&p.0));
            i = i + 1;
            proof {
                assert(point_views(his@) =~= statement_views(dleqs_of(params@)).take(
                    2 * i as int,
                ));
                assert(point_views(ais@) =~= create_commit_views(params@).take(2 * i as int));
            }
        }

        his.append(&mut ais);
        proof {
            assert(statement_views(dleqs_of(params@)).take(2 * n as int) =~= statement_views(
                dleqs_of(params@),
            ));
            assert(create_commit_views(params@).take(2 * n as int) =~= create_commit_views(
                params@,
            ));
            assert(point_views(his@) =~= statement_views(dleqs_of(params@))
                + create_commit_views(params@));
        }
        let c = Scalar::hash_points(&his);

        let mut i: usize = 0;
        while i < n
            invariant
                n == params@.len(),
                i <= n,
                zs@.len() == i,
                c@ == spec_parallel_challenge(params@),
                forall|j: int|
                    0 <= j < i ==> zs@[j]@ == spec_response(params@[j].0@, params@[j].1@, c@),
            decreases n - i,
        {
            let p = &params[i];
            let z = p.0.add(&p.1.mul(&c));
            zs.push(z);
            i = i + 1;
        }

        Proof { c, zs }
    }

    /// Check the proof against a list of statements. A list whose length
    /// differs from the number of responses is rejected outright (the proof
    /// cannot have been made for it); otherwise the shared challenge is
    /// recomputed over the full interleaved transcript and compared.
    pub fn verify(&self, dleqs: &[DLEQ]) -> (r: bool)
        ensures
            r == spec_parallel_verifies(self.c@, scalar_views(self.zs@), dleqs@),
            dleqs@.len() != self.zs@.len() ==> r == false,
    {
        if dleqs.len() != self.zs.len() {
            return false;
        }
        let n = dleqs.len();
        let mut his: Vec<Point> = Vec::new();
        let mut ais: Vec<Point> = Vec::new();

        let mut i: usize = 0;
        while i < n
            invariant
                n == dleqs@.len(),
                n == self.zs@.len(),
                i <= n,
                his@.len() == 2 * i,
                ais@.len() == 2 * i,
                point_views(his@) == statement_views(dleqs@).take(2 * i as int),
                point_views(ais@) == verify_commit_views(
                    dleqs@,
                    scalar_views(self.zs@),
                    self.c@,
                ).take(2 * i as int),
            decreases n - i,
        {
            let d = &dleqs[i];
            let z = &self.zs[i];
            let a1 = d.g1.mul(z).sub(&d.h1.mul(&self.c));
            let a2 = d.g2.mul(z).sub(&d.h2.mul(&self.c));
            his.push(d.h1);
            his.push(d.h2);
            ais.push(a1);
            ais.push(a2);
            i = i + 1;
            proof {
                assert(point_views(his@) =~= statement_views(dleqs@).take(2 * i as int));
                assert(point_views(ais@) =~= verify_commit_views(
                    dleqs@,
                    scalar_views(self.zs@),
                    self.c@,
                ).take(2 * i as int));
            }
        }

        his.append(&mut ais);
        proof {
            assert(statement_views(dleqs@).take(2 * n as int) =~= statement_views(dleqs@));
            assert(verify_commit_views(dleqs@, scalar_views(self.zs@), self.c@).take(2 * n as int)
                =~= verify_commit_views(dleqs@, scalar_views(self.zs@), self.c@));
            assert(point_views(his@) =~= statement_views(dleqs@) + verify_commit_views(
                dleqs@,
                scalar_views(self.zs@),
                self.c@,
            ));
        }
        let c = Scalar::hash_points(&his);
        self.c.equals(&c)
    }
}

/// For one statement, the parallel proof's accept/reject condition is the
/// single-statement proof's: the interleaved transcript of a singleton list
/// is exactly the single proof's transcript.
pub proof fn lemma_parallel_singleton_verifies(c: nat, z: nat, st: DLEQ)
    ensures
        spec_parallel_verifies(c, seq![z], seq![st]) == spec_verifies(
            c,
            z,
            st.g1@,
            st.h1@,
            st.g2@,
            st.h2@,
        ),
{
    assert(statement_views(seq![st]) + verify_commit_views(seq![st], seq![z], c)
        =~= challenge_input(
        st.h1@,
        st.h2@,
        spec_recommit(st.g1@, st.h1@, c, z),
        spec_recommit(st.g2@, st.h2@, c, z),
    ));
}

/// For one statement, the parallel creator derives the same challenge as the
/// single-statement creator.
pub proof fn lemma_parallel_singleton_challenge(w: Scalar, e: Scalar, st: DLEQ)
    ensures
        spec_parallel_challenge(seq![(w, e, st)]) == spec_challenge(
            st.g1@,
            st.h1@,
            st.g2@,
            st.h2@,
            w@,
        ),
{
    assert(statement_views(dleqs_of(seq![(w, e, st)])) + create_commit_views(seq![(w, e, st)])
        =~= challenge_input(st.h1@, st.h2@, fmul(st.g1@, w@), fmul(st.g2@, w@)));
}

/// Parallel proof soundness: when every statement's result elements are its
/// bases raised to that statement's own witness, the created parallel proof
/// passes verification against those statements.
pub proof fn lemma_parallel_create_verifies(params: Seq<(Scalar, Scalar, DLEQ)>)
    requires
        forall|i: int|
            0 <= i < params.len() ==> #[trigger] params[i].2.h1@ == fmul(
                params[i].2.g1@,
                params[i].1@,
            ),
        forall|i: int|
            0 <= i < params.len() ==> #[trigger] params[i].2.h2@ == fmul(
                params[i].2.g2@,
                params[i].1@,
            ),
    ensures
        ({
            let c = spec_parallel_challenge(params);
            let zs = Seq::new(params.len() as nat, |i: int| spec_response(params[i].0@, params[i].1@, c));
            spec_parallel_verifies(c, zs, dleqs_of(params))
        }),
{
    let c = spec_parallel_challenge(params);
    let zs = Seq::new(params.len() as nat, |i: int| spec_response(params[i].0@, params[i].1@, c));
    let dleqs = dleqs_of(params);
    assert forall|k: int| 0 <= k < 2 * params.len() implies verify_commit_views(dleqs, zs, c)[k]
        == create_commit_views(params)[k] by {
        let i = k / 2;
        lemma_recommit_is_commit(params[i].2.g1@, params[i].1@, params[i].0@, c);
        lemma_recommit_is_commit(params[i].2.g2@, params[i].1@, params[i].0@, c);
    }
    assert(verify_commit_views(dleqs, zs, c) =~= create_commit_views(params));
}

} // verus!
