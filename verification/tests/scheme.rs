//! Tests of the commitment protocol: opening consistency, the
//! homomorphic composition law, determinism, rejection of malformed
//! input, and the parameter validator.

use groth_commit::commitment::{
    commitment_determinism, commitment_homomorphism, opening_consistency,
};
use groth_commit::{CommitmentKey, Error, Randomness, Values};

#[test]
fn verified_law_checks_hold() {
    let mut rng = rand::thread_rng();
    let ck = CommitmentKey::generate(3, &mut rng).unwrap();
    let v1 = Values::random(3, &mut rng);
    let v2 = Values::random(3, &mut rng);
    let r1 = Randomness::gen(&mut rng);
    let r2 = Randomness::gen(&mut rng);
    assert!(opening_consistency(&ck, &v1, &mut rng));
    assert!(commitment_determinism(&ck, &v1, &r1));
    assert!(commitment_homomorphism(&ck, &v1, &r1, &v2, &r2));
}

#[test]
fn it_works() {
    let mut rng = rand::thread_rng();
    let ck = CommitmentKey::generate(10, &mut rng).unwrap();
    let value = Values::random(10, &mut rng);
    let (c, r) = ck.commit(&value, &mut rng).unwrap();
    let d = ck.commit_with_randomness(&value, &r).unwrap();
    assert_eq!(c, d);
}

#[test]
fn multiplicatively_homomorphic() {
    let mut rng = rand::thread_rng();
    let ck = CommitmentKey::generate(1, &mut rng).unwrap();

    let v1 = Values::random(1, &mut rng);
    let (c1, r1) = ck.commit(&v1, &mut rng).unwrap();

    let v2 = Values::random(1, &mut rng);
    let (c2, r2) = ck.commit(&v2, &mut rng).unwrap();

    let v_mul = v1.compose(&v2).unwrap();
    let r_mul = r1.compose(&r2);
    let expected = ck.commit_with_randomness(&v_mul, &r_mul).unwrap();

    let actual = c1.compose(&c2);

    assert_eq!(actual, expected);
}

#[test]
fn homomorphic_on_longer_vectors() {
    let mut rng = rand::thread_rng();
    let ck = CommitmentKey::generate(5, &mut rng).unwrap();

    let v1 = Values::random(5, &mut rng);
    let (c1, r1) = ck.commit(&v1, &mut rng).unwrap();
    let v2 = Values::random(5, &mut rng);
    let (c2, r2) = ck.commit(&v2, &mut rng).unwrap();

    let expected = ck
        .commit_with_randomness(&v1.compose(&v2).unwrap(), &r1.compose(&r2))
        .unwrap();
    assert_eq!(c1.compose(&c2), expected);
    assert!(c1.compose(&c2).equals(&expected));
}

#[test]
fn commit_is_deterministic() {
    let mut rng = rand::thread_rng();
    let ck = CommitmentKey::generate(4, &mut rng).unwrap();
    let value = Values::random(4, &mut rng);
    let (_, r) = ck.commit(&value, &mut rng).unwrap();
    let first = ck.commit_with_randomness(&value, &r).unwrap();
    let second = ck.commit_with_randomness(&value, &r).unwrap();
    assert_eq!(first, second);
    assert!(first.equals(&second));
}

#[test]
fn distinct_randomness_hides() {
    // Two commitments to one value under different randomness pairs
    // must differ: the blinding terms enter the computation.
    let mut rng = rand::thread_rng();
    let ck = CommitmentKey::generate(2, &mut rng).unwrap();
    let value = Values::random(2, &mut rng);
    let (c1, _) = ck.commit(&value, &mut rng).unwrap();
    let (c2, _) = ck.commit(&value, &mut rng).unwrap();
    assert!(!c1.equals(&c2));
}

#[test]
fn wrong_length_rejected() {
    let mut rng = rand::thread_rng();
    let ck = CommitmentKey::generate(3, &mut rng).unwrap();
    let short = Values::random(2, &mut rng);
    let long = Values::random(4, &mut rng);
    assert_eq!(
        ck.commit(&short, &mut rng).unwrap_err(),
        Error::InvalidLength
    );
    assert_eq!(ck.commit(&long, &mut rng).unwrap_err(), Error::InvalidLength);
    let (_, r) = ck.commit(&Values::random(3, &mut rng), &mut rng).unwrap();
    assert_eq!(
        ck.commit_with_randomness(&short, &r).unwrap_err(),
        Error::InvalidLength
    );
    assert_eq!(short.compose(&long).unwrap_err(), Error::InvalidLength);
}

#[test]
fn out_of_subgroup_point_rejected() {
    let bad = non_subgroup_g2();
    let err = Values::new(vec![bls12_381::G2Affine::generator(), bad]).unwrap_err();
    assert_eq!(err, Error::InvalidGroupElement);
}

#[test]
fn valid_points_accepted() {
    let mut rng = rand::thread_rng();
    let sampled = Values::random(3, &mut rng);
    let copy = Values::from_bytes(&sampled.to_bytes()).unwrap();
    let rebuilt = Values::new(decode_points(&copy.to_bytes())).unwrap();
    assert_eq!(rebuilt.to_bytes(), sampled.to_bytes());
}

#[test]
fn empty_vector_commits() {
    let mut rng = rand::thread_rng();
    let ck = CommitmentKey::generate(0, &mut rng).unwrap();
    let value = Values::new(Vec::new()).unwrap();
    let (c, r) = ck.commit(&value, &mut rng).unwrap();
    let d = ck.commit_with_randomness(&value, &r).unwrap();
    assert_eq!(c, d);
}

#[test]
fn validator_accepts_generated_key() {
    let mut rng = rand::thread_rng();
    let ck = CommitmentKey::generate(6, &mut rng).unwrap();
    assert!(ck.check_public_parameters());
}

#[test]
fn validator_rejects_identity_element() {
    let mut rng = rand::thread_rng();
    let ck = CommitmentKey::generate(1, &mut rng).unwrap();
    let mut bytes = ck.to_bytes();
    // Overwrite the first auxiliary element (after the two length-1
    // arrays, at offset 96) with the identity point, which decodes
    // fine but must fail the honesty check.
    let identity = bls12_381::G1Affine::identity().to_compressed();
    bytes[96..144].copy_from_slice(&identity);
    let tampered = CommitmentKey::from_bytes(&bytes).unwrap();
    assert!(!tampered.check_public_parameters());
}

/// A point on the G2 curve but outside the prime-order subgroup, found
/// by perturbing the x-coordinate of the generator's encoding until it
/// decompresses to a point that fails the torsion check.
fn non_subgroup_g2() -> bls12_381::G2Affine {
    let base = bls12_381::G2Affine::generator().to_compressed();
    for last in 0u16..=255 {
        let mut candidate = base;
        candidate[95] = last as u8;
        let ct = bls12_381::G2Affine::from_compressed_unchecked(&candidate);
        if bool::from(ct.is_some()) {
            let p = ct.unwrap();
            if !bool::from(p.is_torsion_free()) {
                return p;
            }
        }
    }
    panic!("no decompressible non-subgroup point found");
}

/// Splits a canonical value-vector encoding back into points through the
/// curve library, for rebuilding a vector through `Values::new`.
fn decode_points(bytes: &[u8]) -> Vec<bls12_381::G2Affine> {
    let mut out = Vec::new();
    let mut i = 0;
    while i + 96 <= bytes.len() {
        let mut chunk = [0u8; 96];
        chunk.copy_from_slice(&bytes[i..i + 96]);
        out.push(bls12_381::G2Affine::from_compressed(&chunk).unwrap());
        i += 96;
    }
    out
}
