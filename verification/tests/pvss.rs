use pvss::crypto::{Point, Scalar};
use pvss::dleq;
use pvss::math::Polynomial;
use pvss::pdleq;
use pvss::simple;
use pvss::simple::{DecryptedShare, RecoveryError};
use pvss::types::{create_keypair, PrivateKey, PublicKey};

fn sample_statement() -> (Scalar, dleq::DLEQ) {
    let e = Scalar::generate();
    let g1 = Point::generator();
    let g2 = Point::from_scalar(&Scalar::generate());
    let st = dleq::DLEQ { g1, h1: g1.mul(&e), g2, h2: g2.mul(&e) };
    (e, st)
}

#[test]
fn scalar_field_arithmetic() {
    assert!(Scalar::from_u32(5).add(&Scalar::from_u32(6)).equals(&Scalar::from_u32(11)));
    assert!(Scalar::from_u32(9).sub(&Scalar::from_u32(2)).equals(&Scalar::from_u32(7)));
    assert!(Scalar::from_u32(6).mul(&Scalar::from_u32(7)).equals(&Scalar::from_u32(42)));
    assert!(Scalar::from_u32(2).pow(10).equals(&Scalar::from_u32(1024)));
    assert!(Scalar::from_u32(0).is_zero());
    assert!(!Scalar::from_u32(3).is_zero());
    let x = Scalar::from_u32(1234567);
    assert!(x.mul(&x.inverse()).equals(&Scalar::from_u32(1)));
}

#[test]
fn point_group_arithmetic() {
    let s = Scalar::from_u32(11);
    let t = Scalar::from_u32(31);
    assert!(Point::from_scalar(&s).equals(&Point::generator().mul(&s)));
    let sum = Point::from_scalar(&s).add(&Point::from_scalar(&t));
    assert!(sum.equals(&Point::from_scalar(&Scalar::from_u32(42))));
    assert!(sum.sub(&Point::from_scalar(&t)).equals(&Point::from_scalar(&s)));
    assert!(Point::identity().add(&Point::generator()).equals(&Point::generator()));
}

#[test]
fn hash_points_is_order_sensitive() {
    let a = Point::from_scalar(&Scalar::from_u32(3));
    let b = Point::from_scalar(&Scalar::from_u32(4));
    let h1 = Scalar::hash_points(&vec![a, b]);
    let h2 = Scalar::hash_points(&vec![a, b]);
    let h3 = Scalar::hash_points(&vec![b, a]);
    assert!(h1.equals(&h2));
    assert!(!h1.equals(&h3));
}

#[test]
fn polynomial_evaluate_exact() {
    // p(x) = 3 + 2x + x^2, so p(5) = 38
    let p = Polynomial {
        elements: vec![Scalar::from_u32(3), Scalar::from_u32(2), Scalar::from_u32(1)],
    };
    assert!(p.evaluate(Scalar::from_u32(5)).equals(&Scalar::from_u32(38)));
    assert!(p.at_zero().equals(&Scalar::from_u32(3)));
    assert_eq!(p.len(), 3);
    let q = Polynomial::generate(4);
    assert_eq!(q.len(), 5);
}

#[test]
fn dleq_proof_roundtrip() {
    let (e, st) = sample_statement();
    let proof = dleq::Proof::create(Scalar::generate(), e, st);
    assert!(proof.verify(st));
}

#[test]
fn dleq_proof_rejects_mutated_statement() {
    let (e, st) = sample_statement();
    let proof = dleq::Proof::create(Scalar::generate(), e, st);
    let swapped = dleq::DLEQ { g1: st.g1, h1: st.h2, g2: st.g2, h2: st.h1 };
    assert!(!proof.verify(swapped));
    let other_base = dleq::DLEQ {
        g1: st.g1,
        h1: st.h1,
        g2: Point::from_scalar(&Scalar::generate()),
        h2: st.h2,
    };
    assert!(!proof.verify(other_base));
}

#[test]
fn parallel_proof_roundtrip() {
    let (e1, st1) = sample_statement();
    let (e2, st2) = sample_statement();
    let (e3, st3) = sample_statement();
    let params = [
        (Scalar::generate(), e1, st1),
        (Scalar::generate(), e2, st2),
        (Scalar::generate(), e3, st3),
    ];
    let proof = pdleq::Proof::create(&params);
    assert!(proof.verify(&[st1, st2, st3]));
    // swapping two statements must break the shared challenge
    assert!(!proof.verify(&[st2, st1, st3]));
}

#[test]
fn parallel_singleton_matches_single() {
    let (e, st) = sample_statement();
    let w = Scalar::generate();
    let single = dleq::Proof::create(w, e, st);
    let parallel = pdleq::Proof::create(&[(w, e, st)]);
    // same nonce and witness: identical challenge and response
    assert!(single.c.equals(&parallel.c));
    assert!(single.z.equals(&parallel.zs[0]));
    assert!(single.verify(st));
    assert!(parallel.verify(&[st]));
    // and both reject the same mutation
    let swapped = dleq::DLEQ { g1: st.g1, h1: st.h2, g2: st.g2, h2: st.h1 };
    assert!(!single.verify(swapped));
    assert!(!parallel.verify(&[swapped]));
}

#[test]
fn parallel_length_mismatch_is_rejected() {
    let (e1, st1) = sample_statement();
    let (e2, st2) = sample_statement();
    let params = [(Scalar::generate(), e1, st1), (Scalar::generate(), e2, st2)];
    let proof = pdleq::Proof::create(&params);
    assert!(proof.verify(&[st1, st2]));
    assert!(!proof.verify(&[st1]));
    assert!(!proof.verify(&[]));
    assert!(!proof.verify(&[st1, st2, st1]));
}

fn participants(n: usize) -> (Vec<PrivateKey>, Vec<PublicKey>) {
    let mut privs = Vec::new();
    let mut pubs = Vec::new();
    for _ in 0..n {
        let (sk, pk) = create_keypair();
        privs.push(sk);
        pubs.push(pk);
    }
    (privs, pubs)
}

#[test]
fn shares_verify_against_commitments() {
    let escrow = simple::escrow(2);
    let comms = simple::commitments(&escrow);
    let (_, pubs) = participants(3);
    let shares = simple::create_shares(&escrow, &pubs);
    assert_eq!(shares.len(), 3);
    for i in 0..3 {
        assert_eq!(shares[i].id, (i as u32) + 1);
        assert!(shares[i].verify(shares[i].id, &pubs[i], &escrow.extra_generator, &comms));
    }
}

#[test]
fn share_verification_rejects_altered_commitment() {
    let escrow = simple::escrow(2);
    let comms = simple::commitments(&escrow);
    let (_, pubs) = participants(2);
    let share = simple::create_share(&escrow, 1, &pubs[0]);
    assert!(share.verify(1, &pubs[0], &escrow.extra_generator, &comms));
    // splice in a commitment from an unrelated escrow
    let other = simple::commitments(&simple::escrow(2));
    for j in 0..comms.len() {
        let mut altered = comms.clone();
        altered[j] = other[j];
        assert!(!share.verify(1, &pubs[0], &escrow.extra_generator, &altered));
    }
    // a mismatched public key must fail too
    assert!(!share.verify(1, &pubs[1], &escrow.extra_generator, &comms));
}

#[test]
fn decryption_verifies_and_rejects_wrong_participant() {
    let escrow = simple::escrow(2);
    let (privs, pubs) = participants(2);
    let shares = simple::create_shares(&escrow, &pubs);
    let dec0 = simple::decrypt_share(&privs[0], &pubs[0], &shares[0]);
    assert_eq!(dec0.id, shares[0].id);
    assert!(dec0.verify(&pubs[0], &shares[0]));
    // against another participant's data the proof must fail
    assert!(!dec0.verify(&pubs[1], &shares[1]));
    let dec_wrong_key = simple::decrypt_share(&privs[1], &pubs[1], &shares[0]);
    assert!(!dec_wrong_key.verify(&pubs[0], &shares[0]));
}

#[test]
fn threshold_reconstruction_any_subset() {
    let escrow = simple::escrow(3);
    let comms = simple::commitments(&escrow);
    let (privs, pubs) = participants(5);
    let shares = simple::create_shares(&escrow, &pubs);
    let mut dec: Vec<DecryptedShare> = Vec::new();
    for i in 0..5 {
        assert!(shares[i].verify(shares[i].id, &pubs[i], &escrow.extra_generator, &comms));
        dec.push(simple::decrypt_share(&privs[i], &pubs[i], &shares[i]));
    }
    let first = simple::recover(3, &dec[0..3]).unwrap();
    let other_subset = vec![dec[1], dec[3], dec[4]];
    let second = simple::recover(3, &other_subset).unwrap();
    assert!(first.equals(&escrow.secret));
    assert!(second.equals(&escrow.secret));
    assert!(first.equals(&second));
}

#[test]
fn recover_fails_below_threshold() {
    let escrow = simple::escrow(3);
    let (privs, pubs) = participants(3);
    let shares = simple::create_shares(&escrow, &pubs);
    let dec: Vec<DecryptedShare> = (0..2)
        .map(|i: usize| simple::decrypt_share(&privs[i], &pubs[i], &shares[i]))
        .collect();
    assert!(matches!(simple::recover(3, &dec), Err(RecoveryError::NotEnoughShares)));
    assert!(matches!(simple::recover(3, &[]), Err(RecoveryError::NotEnoughShares)));
}

#[test]
fn recover_fails_on_duplicate_ids() {
    let escrow = simple::escrow(2);
    let (privs, pubs) = participants(2);
    let shares = simple::create_shares(&escrow, &pubs);
    let d0 = simple::decrypt_share(&privs[0], &pubs[0], &shares[0]);
    assert!(matches!(
        simple::recover(2, &[d0, d0]),
        Err(RecoveryError::DuplicateShareId)
    ));
}

#[test]
fn end_to_end_two_of_three() {
    let escrow = simple::escrow(2);
    let comms = simple::commitments(&escrow);
    let (privs, pubs) = participants(3);
    let shares = simple::create_shares(&escrow, &pubs);
    for i in 0..3 {
        assert!(shares[i].verify(shares[i].id, &pubs[i], &escrow.extra_generator, &comms));
    }
    let d1 = simple::decrypt_share(&privs[0], &pubs[0], &shares[0]);
    let d2 = simple::decrypt_share(&privs[1], &pubs[1], &shares[1]);
    assert!(d1.verify(&pubs[0], &shares[0]));
    assert!(d2.verify(&pubs[1], &shares[1]));
    let recovered = simple::recover(2, &[d1, d2]).unwrap();
    assert!(recovered.equals(&escrow.secret));
    assert!(simple::verify_secret(
        recovered,
        escrow.extra_generator,
        &comms,
        escrow.zkp
    ));
}

#[test]
fn threshold_one_single_share_recovers() {
    let escrow = simple::escrow(1);
    let (privs, pubs) = participants(1);
    let shares = simple::create_shares(&escrow, &pubs);
    let dec = simple::decrypt_share(&privs[0], &pubs[0], &shares[0]);
    assert!(dec.verify(&pubs[0], &shares[0]));
    let recovered = simple::recover(1, &[dec]).unwrap();
    assert!(recovered.equals(&escrow.secret));
}

#[test]
fn verify_secret_rejects_wrong_secret() {
    let escrow = simple::escrow(2);
    let comms = simple::commitments(&escrow);
    assert!(simple::verify_secret(
        escrow.secret,
        escrow.extra_generator,
        &comms,
        escrow.zkp
    ));
    let wrong = Point::from_scalar(&Scalar::generate());
    assert!(!simple::verify_secret(
        wrong,
        escrow.extra_generator,
        &comms,
        escrow.zkp
    ));
}
