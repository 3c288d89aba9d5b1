//! Participant identifiers, thresholds, and key pairs.

use vstd::prelude::*;
use crate::crypto::{Point, Scalar, group_order, lemma_reduce_small};

verus! {

/// Per-participant share index. `0` is reserved and never assigned.
pub type ShareId = u32;

/// Minimum number of valid decrypted shares needed to reconstruct.
pub type Threshold = u32;

/// The private half of a key pair: a scalar `x`.
#[derive(Clone, Copy)]
pub struct PrivateKey {
    pub scalar: Scalar,
}

/// The public half of a key pair: the basepoint raised to the private scalar.
#[derive(Clone, Copy)]
pub struct PublicKey {
    pub point: Point,
}

/// Whether `public` is the public half of `private`: the public point's
/// discrete logarithm is the private scalar.
pub open spec fn keypair_consistent(private: PrivateKey, public: PublicKey) -> bool {
    public.point@ == private.scalar@
}

/// Draw a fresh key pair.
pub fn create_keypair() -> (r: (PrivateKey, PublicKey))
    ensures
        keypair_consistent(r.0, r.1),
        r.0.scalar@ < group_order(),
{
    let s = Scalar::generate();
    let p = Point::from_scalar(&s);
    proof {
        lemma_reduce_small(s@);
    }
    (PrivateKey { scalar: s }, PublicKey { point: p })
}

} // verus!
