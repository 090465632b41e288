use kadchain::crypto::{sha256, ed25519_public_key, ed25519_sign, ed25519_verify};
use kadchain::pow::{compute_pow_hash, find_pow_nonce, meets_difficulty, verify_pow};

#[test]
fn sha256_known_answer() {
    let digest = sha256(&b"abc".to_vec());
    let expected = hex::decode("ba7816bf8f01cfea414140de5dae2223b00361a396177a9cb410ff61f20015ad")
        .unwrap();
    assert_eq!(digest, expected);
}

#[test]
fn sha256_empty_input_known_answer() {
    let digest = sha256(&Vec::new());
    let expected = hex::decode("e3b0c44298fc1c149afbf4c8996fb92427ae41e4649b934ca495991b7852b855")
        .unwrap();
    assert_eq!(digest, expected);
}

#[test]
fn ed25519_sign_then_verify() {
    let sk = vec![7u8; 32];
    let pk = ed25519_public_key(&sk);
    let msg = b"a message worth signing".to_vec();
    let sig = ed25519_sign(&sk, &msg);
    assert_eq!(sig.len(), 64);
    assert!(ed25519_verify(&pk, &msg, &sig));
    let mut tampered = msg.clone();
    tampered[0] ^= 1;
    assert!(!ed25519_verify(&pk, &tampered, &sig));
    let other_pk = ed25519_public_key(&vec![8u8; 32]);
    assert!(!ed25519_verify(&other_pk, &msg, &sig));
}

#[test]
fn pow_accepts_exactly_matching_and_hard_enough_digests() {
    let id = vec![0x11u8; 20];
    let difficulty = 2usize;
    let (nonce, hash) = find_pow_nonce(&id, difficulty, 1_000_000).expect("a nonce exists");
    assert!(verify_pow(&id, nonce, &hash, difficulty));
    // recomputed digest must match the claimed hash
    assert_eq!(hash, compute_pow_hash(&id, nonce));
    // a digest for another nonce is rejected even if it is hard enough
    let mut wrong = hash.clone();
    wrong[31] ^= 1;
    assert!(!verify_pow(&id, nonce, &wrong, difficulty));
    // the right digest offered for the wrong identity is rejected
    let other = vec![0x22u8; 20];
    assert!(!verify_pow(&other, nonce, &hash, difficulty));
}

#[test]
fn pow_rejects_digest_with_too_few_zero_nibbles() {
    let id = vec![0x33u8; 20];
    // difficulty 0 accepts the digest of any nonce
    let h0 = compute_pow_hash(&id, 0);
    assert!(verify_pow(&id, 0, &h0, 0));
    // find a nonce whose digest does NOT meet difficulty 4
    let mut nonce = 0u64;
    loop {
        let h = compute_pow_hash(&id, nonce);
        if !meets_difficulty(&h, 4) {
            assert!(!verify_pow(&id, nonce, &h, 4));
            break;
        }
        nonce += 1;
    }
}

#[test]
fn meets_difficulty_counts_nibbles() {
    let h = vec![0x00u8, 0x0f, 0xff];
    assert!(meets_difficulty(&h, 0));
    assert!(meets_difficulty(&h, 1));
    assert!(meets_difficulty(&h, 2));
    assert!(meets_difficulty(&h, 3));
    assert!(!meets_difficulty(&h, 4));
    assert!(!meets_difficulty(&h, 7));  // beyond the string length
}
