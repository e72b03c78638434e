//! Tests of the canonical byte encodings: exact round trips for value
//! vectors, randomness pairs and commitment keys, and rejection of
//! corrupted buffers.

use groth_commit::codec::{key_round_trip, randomness_round_trip, values_round_trip};
use groth_commit::{CommitmentKey, Error, Randomness, Values};

#[test]
fn verified_round_trips_hold() {
    let mut rng = rand::thread_rng();
    let value = Values::random(2, &mut rng);
    assert_eq!(values_round_trip(&value).to_bytes(), value.to_bytes());
    let pair = Randomness::gen(&mut rng);
    assert_eq!(randomness_round_trip(&pair).to_bytes(), pair.to_bytes());
    let ck = CommitmentKey::generate(2, &mut rng).unwrap();
    assert_eq!(key_round_trip(&ck).to_bytes(), ck.to_bytes());
}

#[test]
fn values_encoding_round_trip() {
    let mut rng = rand::thread_rng();
    let value = Values::random(4, &mut rng);
    let bytes = value.to_bytes();
    assert_eq!(bytes.len(), 4 * 96);
    let back = Values::from_bytes(&bytes).unwrap();
    assert_eq!(back.to_bytes(), bytes);

    // The decoded vector commits exactly as the original does.
    let ck = CommitmentKey::generate(4, &mut rng).unwrap();
    let (c, r) = ck.commit(&value, &mut rng).unwrap();
    assert_eq!(ck.commit_with_randomness(&back, &r).unwrap(), c);
}

#[test]
fn empty_values_round_trip() {
    let value = Values::new(Vec::new()).unwrap();
    let bytes = value.to_bytes();
    assert_eq!(bytes.len(), 0);
    let back = Values::from_bytes(&bytes).unwrap();
    assert_eq!(back.len(), 0);
}

#[test]
fn randomness_encoding_round_trip() {
    let mut rng = rand::thread_rng();
    let pair = Randomness::gen(&mut rng);
    let bytes = pair.to_bytes();
    assert_eq!(bytes.len(), 192);
    let back = Randomness::from_bytes(&bytes).unwrap();
    assert_eq!(back.to_bytes(), bytes);

    // The decoded pair opens the same commitment as the original.
    let ck = CommitmentKey::generate(2, &mut rng).unwrap();
    let value = Values::random(2, &mut rng);
    let direct = ck.commit_with_randomness(&value, &pair).unwrap();
    let reopened = ck.commit_with_randomness(&value, &back).unwrap();
    assert_eq!(direct, reopened);
}

#[test]
fn key_encoding_round_trip() {
    let mut rng = rand::thread_rng();
    let ck = CommitmentKey::generate(3, &mut rng).unwrap();
    let bytes = ck.to_bytes();
    assert_eq!(bytes.len(), 3 * 96 + 192);
    let back = CommitmentKey::from_bytes(&bytes).unwrap();
    assert_eq!(back.to_bytes(), bytes);
    assert_eq!(back.n(), 3);
    assert!(back.check_public_parameters());

    // The decoded key computes the same commitments as the original.
    let value = Values::random(3, &mut rng);
    let (c, r) = ck.commit(&value, &mut rng).unwrap();
    assert_eq!(back.commit_with_randomness(&value, &r).unwrap(), c);
}

#[test]
fn truncated_values_rejected() {
    let mut rng = rand::thread_rng();
    let value = Values::random(2, &mut rng);
    let mut bytes = value.to_bytes();
    bytes.pop();
    assert_eq!(Values::from_bytes(&bytes).unwrap_err(), Error::MalformedEncoding);
}

#[test]
fn corrupted_values_rejected() {
    let mut rng = rand::thread_rng();
    let value = Values::random(2, &mut rng);
    let mut bytes = value.to_bytes();
    // Clearing the compression flag makes the first chunk no canonical
    // encoding of any point.
    bytes[0] = 0x00;
    assert_eq!(Values::from_bytes(&bytes).unwrap_err(), Error::MalformedEncoding);
}

#[test]
fn wrong_length_randomness_rejected() {
    let mut rng = rand::thread_rng();
    let pair = Randomness::gen(&mut rng);
    let mut bytes = pair.to_bytes();
    bytes.push(0);
    assert_eq!(
        Randomness::from_bytes(&bytes).unwrap_err(),
        Error::MalformedEncoding
    );
}

#[test]
fn corrupted_randomness_rejected() {
    let mut rng = rand::thread_rng();
    let pair = Randomness::gen(&mut rng);
    let mut bytes = pair.to_bytes();
    bytes[96] = 0x00;
    assert_eq!(
        Randomness::from_bytes(&bytes).unwrap_err(),
        Error::MalformedEncoding
    );
}

#[test]
fn short_key_rejected() {
    let bytes = vec![0u8; 100];
    assert_eq!(
        CommitmentKey::from_bytes(&bytes).unwrap_err(),
        Error::MalformedEncoding
    );
}

#[test]
fn corrupted_key_rejected() {
    let mut rng = rand::thread_rng();
    let ck = CommitmentKey::generate(2, &mut rng).unwrap();
    let mut bytes = ck.to_bytes();
    bytes[0] = 0x00;
    assert_eq!(
        CommitmentKey::from_bytes(&bytes).unwrap_err(),
        Error::MalformedEncoding
    );
}
