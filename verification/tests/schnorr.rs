use curve25519_dalek::constants::ED25519_BASEPOINT_POINT;
use curve25519_dalek::edwards::CompressedEdwardsY;
use schnorr_nizk::schnorr_identification::{
    bytes32_eq, bytes_to_edwards, generate_proof_response, generate_random_32bytes,
    generate_random_scalar, key_gen, key_gen_from_seed, kmac_256, nizk_proof,
    nizk_proof_with_nonce, sha3_256, verify_challenge, verify_int_proof, verify_nizk_proof,
    InvalidPoint, Scalar,
};
use tiny_keccak::{Hasher, Kmac};

const GROUP_ORDER: [u8; 32] = [
    237, 211, 245, 92, 26, 99, 18, 88, 214, 156, 247, 162, 222, 249, 222, 20, 0, 0, 0, 0, 0, 0, 0,
    0, 0, 0, 0, 0, 0, 0, 0, 16,
];

fn small(n: u8) -> [u8; 32] {
    let mut bytes = [0u8; 32];
    bytes[0] = n;
    bytes
}

fn hex32(text: &str) -> [u8; 32] {
    let bytes = hex::decode(text).unwrap();
    let mut array = [0u8; 32];
    array.copy_from_slice(&bytes);
    array
}

#[test]
fn scalar_reduction_is_modulo_the_group_order() {
    assert_eq!(Scalar::from_bytes_mod_order(small(7)).to_bytes(), small(7));
    assert_eq!(Scalar::from_bytes_mod_order(GROUP_ORDER).to_bytes(), small(0));
    let mut above = GROUP_ORDER;
    above[0] += 1;
    assert_eq!(Scalar::from_bytes_mod_order(above).to_bytes(), small(1));
    let mut below = GROUP_ORDER;
    below[0] -= 1;
    assert_eq!(Scalar::from_bytes_mod_order(below).to_bytes(), below);
    let reduced: [u8; 32] = [
        28, 149, 152, 141, 116, 49, 236, 214, 112, 207, 125, 115, 244, 91, 239, 198, 254, 255, 255,
        255, 255, 255, 255, 255, 255, 255, 255, 255, 255, 255, 255, 15,
    ];
    assert_eq!(Scalar::from_bytes_mod_order([255u8; 32]).to_bytes(), reduced);
}

#[test]
fn response_is_nonce_plus_key_times_challenge() {
    let r = Scalar::from_bytes_mod_order(small(5));
    let sk = Scalar::from_bytes_mod_order(small(3));
    let c = Scalar::from_bytes_mod_order(small(7));
    assert_eq!(generate_proof_response(r, sk, c), small(26));
}

#[test]
fn response_wraps_around_the_group_order() {
    let mut minus_one = GROUP_ORDER;
    minus_one[0] -= 1;
    let r = Scalar::from_bytes_mod_order(small(5));
    let sk = Scalar::from_bytes_mod_order(minus_one);
    let c = Scalar::from_bytes_mod_order(minus_one);
    assert_eq!(generate_proof_response(r, sk, c), small(6));
    let one = Scalar::from_bytes_mod_order(small(1));
    assert_eq!(generate_proof_response(one, sk, one), small(0));
}

#[test]
fn key_pair_of_seed_one_is_the_base_point() {
    let (public, private) = key_gen_from_seed(small(1));
    assert_eq!(private, small(1));
    assert_eq!(
        public,
        hex32("5866666666666666666666666666666666666666666666666666666666666666")
    );
}

#[test]
fn key_pair_private_key_is_the_reduced_seed() {
    let (public, private) = key_gen_from_seed([255u8; 32]);
    assert_eq!(private, Scalar::from_bytes_mod_order([255u8; 32]).to_bytes());
    let expected = (curve25519_dalek::scalar::Scalar::from_bytes_mod_order(private)
        * ED25519_BASEPOINT_POINT)
        .compress()
        .to_bytes();
    assert_eq!(public, expected);
}

#[test]
fn generated_key_pair_is_consistent() {
    let (public, private) = key_gen();
    let scalar = curve25519_dalek::scalar::Scalar::from_bytes_mod_order(private);
    assert_eq!(scalar.to_bytes(), private);
    assert_eq!((scalar * ED25519_BASEPOINT_POINT).compress().to_bytes(), public);
    assert_eq!(key_gen_from_seed(private).0, public);
}

#[test]
fn random_values_differ() {
    assert_ne!(generate_random_32bytes(), generate_random_32bytes());
    let a = generate_random_scalar();
    let b = generate_random_scalar();
    assert_ne!(a.to_bytes(), b.to_bytes());
    assert_eq!(Scalar::from_bytes_mod_order(a.to_bytes()).to_bytes(), a.to_bytes());
}

#[test]
fn sha3_256_of_hello_world() {
    assert_eq!(
        sha3_256(b"hello world", None, None, None),
        hex32("644bcc7e564373040999aac89e7622f3ca71fba1d972fd94a31c3bfbf24e3938")
    );
    assert_eq!(
        sha3_256(b"", None, None, None),
        hex32("a7ffc6f8bf1ed76651c14756a061d662f580ff4de43b49fa82d80a4b80f8434a")
    );
}

#[test]
fn sha3_256_hashes_the_concatenation() {
    let expected = hex32("644bcc7e564373040999aac89e7622f3ca71fba1d972fd94a31c3bfbf24e3938");
    assert_eq!(sha3_256(b"hello", Some(b" world"), None, None), expected);
    assert_eq!(sha3_256(b"he", Some(b"llo"), Some(b" wor"), Some(b"ld")), expected);
    assert_eq!(sha3_256(b"hello", None, Some(b" world"), None), expected);
    assert_eq!(sha3_256(b"hello", None, None, Some(b" world")), expected);
    assert_eq!(sha3_256(b"hello world", Some(b""), None, None), expected);
    assert_ne!(sha3_256(b"hello", None, None, None), expected);
}

fn reference_kmac(key: &[u8], parts: &[&[u8]]) -> [u8; 32] {
    let mut hasher = Kmac::v256(key, b"");
    for part in parts {
        hasher.update(part);
    }
    let mut tag = [0u8; 32];
    hasher.finalize(&mut tag);
    tag
}

#[test]
fn kmac_256_tags_the_concatenation() {
    let key = small(9);
    let expected = reference_kmac(&key, &[b"commitment", b"counter"]);
    assert_eq!(kmac_256(key, b"commitment", Some(b"counter"), None), expected);
    assert_eq!(kmac_256(key, b"commitmentcounter", None, None), expected);
    assert_eq!(kmac_256(key, b"commit", Some(b"ment"), Some(b"counter")), expected);
    assert_eq!(kmac_256(key, b"commitment", None, Some(b"counter")), expected);
    assert_ne!(kmac_256(key, b"commitment", None, None), expected);
    assert_ne!(kmac_256(small(8), b"commitment", Some(b"counter"), None), expected);
    assert_ne!(expected, key);
}

#[test]
fn nizk_proof_with_nonce_is_determined_by_its_inputs() {
    let nonce = Scalar::from_bytes_mod_order(small(11));
    let private_key = small(3);
    let secret = small(42);
    let counter = [0u8, 0, 0, 1];
    let (r, commitment, challenge, response) =
        nizk_proof_with_nonce(nonce, private_key, secret, counter);
    assert_eq!(r.to_bytes(), small(11));
    assert_eq!(commitment, key_gen_from_seed(small(11)).0);
    assert_eq!(challenge, kmac_256(secret, &commitment, Some(&counter), None));
    assert_eq!(
        response,
        generate_proof_response(
            nonce,
            Scalar::from_bytes_mod_order(private_key),
            Scalar::from_bytes_mod_order(challenge)
        )
    );
    assert!(verify_challenge(secret, counter, commitment, challenge));
    assert!(!verify_challenge(secret, [0, 0, 0, 2], commitment, challenge));
    assert!(!verify_challenge(small(43), counter, commitment, challenge));
}

#[test]
fn honest_nizk_proof_passes_both_checks() {
    for _ in 0..10 {
        let (public, private) = key_gen();
        let secret = generate_random_32bytes();
        let counter = [0u8, 0, 1, 7];
        let (_, commitment, challenge, response) = nizk_proof(private, secret, counter);
        assert_eq!(
            verify_nizk_proof(public, secret, counter, (commitment, challenge, response)),
            (true, true)
        );
    }
}

#[test]
fn tampered_nizk_proof_fails_a_check() {
    let (public, private) = key_gen();
    let secret = generate_random_32bytes();
    let counter = [0u8, 0, 0, 1];
    let (_, commitment, challenge, response) = nizk_proof(private, secret, counter);

    let mut bad_response = response;
    bad_response[0] ^= 1;
    assert_eq!(
        verify_nizk_proof(public, secret, counter, (commitment, challenge, bad_response)),
        (false, true)
    );

    let mut bad_challenge = challenge;
    bad_challenge[0] ^= 1;
    let verdict = verify_nizk_proof(public, secret, counter, (commitment, bad_challenge, response));
    assert!(!verdict.1);
    assert!(!verdict.0);

    let other_commitment = key_gen().0;
    let verdict =
        verify_nizk_proof(public, secret, counter, (other_commitment, challenge, response));
    assert_eq!(verdict, (false, false));

    let mut bad_secret = secret;
    bad_secret[31] ^= 0x80;
    assert_eq!(
        verify_nizk_proof(public, bad_secret, counter, (commitment, challenge, response)),
        (true, false)
    );
    assert_eq!(
        verify_nizk_proof(public, secret, [0, 0, 0, 2], (commitment, challenge, response)),
        (true, false)
    );

    let other_public = key_gen().0;
    assert_eq!(
        verify_nizk_proof(other_public, secret, counter, (commitment, challenge, response)),
        (false, true)
    );
}

#[test]
fn response_is_read_modulo_the_group_order() {
    let (public, private) = key_gen_from_seed(small(3));
    let nonce = Scalar::from_bytes_mod_order(small(11));
    let challenge = Scalar::from_bytes_mod_order(small(7));
    let commitment = key_gen_from_seed(small(11)).0;
    let response = generate_proof_response(nonce, Scalar::from_bytes_mod_order(private), challenge);
    assert_eq!(response, small(32));
    assert!(verify_int_proof(public, (commitment, challenge, response)));
    let mut shifted = GROUP_ORDER;
    shifted[0] = 13;
    shifted[1] = 212;
    assert!(verify_int_proof(public, (commitment, challenge, shifted)));
    assert!(!verify_int_proof(public, (commitment, challenge, small(33))));
}

#[test]
fn honest_interactive_proof_is_accepted() {
    for _ in 0..10 {
        let (public, private) = key_gen();
        let nonce = generate_random_scalar();
        let commitment = key_gen_from_seed(nonce.to_bytes()).0;
        let challenge = Scalar::from_bytes_mod_order(generate_random_32bytes());
        let response =
            generate_proof_response(nonce, Scalar::from_bytes_mod_order(private), challenge);
        assert!(verify_int_proof(public, (commitment, challenge, response)));
        let other = Scalar::from_bytes_mod_order(generate_random_32bytes());
        assert!(!verify_int_proof(public, (commitment, other, response)));
    }
}

#[test]
fn constant_triples_are_rejected() {
    let (public, _) = key_gen();
    let secret = generate_random_32bytes();
    let counter = [0u8, 0, 0, 1];
    let zeros = ([0u8; 32], [0u8; 32], [0u8; 32]);
    let ones = ([1u8; 32], [1u8; 32], [1u8; 32]);
    let full = ([255u8; 32], [255u8; 32], [255u8; 32]);
    for triple in [zeros, ones, full] {
        let (schnorr, mac) = verify_nizk_proof(public, secret, counter, triple);
        assert!(!(schnorr && mac));
        assert!(!mac);
        assert!(!verify_int_proof(
            public,
            (triple.0, Scalar::from_bytes_mod_order(triple.1), triple.2)
        ));
    }
}

#[test]
fn random_triples_are_rejected() {
    let (public, _) = key_gen();
    let secret = generate_random_32bytes();
    for _ in 0..50 {
        let triple = (key_gen().0, generate_random_32bytes(), generate_random_32bytes());
        let (schnorr, mac) = verify_nizk_proof(public, secret, [0, 0, 0, 1], triple);
        assert!(!schnorr);
        assert!(!mac);
    }
}

#[test]
fn point_decoding_agrees_with_the_curve() {
    let mut valid = 0;
    let mut invalid = 0;
    for first in 0..=255u8 {
        let bytes = small(first);
        match CompressedEdwardsY(bytes).decompress() {
            Some(point) => {
                valid += 1;
                let decoded = bytes_to_edwards(&bytes).unwrap();
                assert_eq!(decoded.compressed, point.compress().to_bytes());
            }
            None => {
                invalid += 1;
                assert!(matches!(bytes_to_edwards(&bytes), Err(InvalidPoint)));
            }
        }
    }
    assert!(valid > 0);
    assert!(invalid > 0);
}

#[test]
fn base_point_decodes_to_itself() {
    let base = hex32("5866666666666666666666666666666666666666666666666666666666666666");
    assert_eq!(bytes_to_edwards(&base).unwrap().compressed, base);
}

#[test]
fn invalid_points_fail_verification_without_panic() {
    let mut invalid = None;
    for first in 0..=255u8 {
        if CompressedEdwardsY(small(first)).decompress().is_none() {
            invalid = Some(small(first));
            break;
        }
    }
    let invalid = invalid.unwrap();
    let (public, private) = key_gen();
    let secret = generate_random_32bytes();
    let counter = [0u8, 0, 0, 1];
    let (_, commitment, challenge, response) = nizk_proof(private, secret, counter);
    assert_eq!(
        verify_nizk_proof(invalid, secret, counter, (commitment, challenge, response)),
        (false, true)
    );
    assert!(!verify_nizk_proof(public, secret, counter, (invalid, challenge, response)).0);
    assert!(!verify_int_proof(
        invalid,
        (commitment, Scalar::from_bytes_mod_order(challenge), response)
    ));
    assert!(!verify_int_proof(
        public,
        (invalid, Scalar::from_bytes_mod_order(challenge), response)
    ));
}

#[test]
fn bytes32_eq_compares_all_bytes() {
    let a = small(1);
    let mut b = small(1);
    assert!(bytes32_eq(&a, &b));
    b[31] = 1;
    assert!(!bytes32_eq(&a, &b));
}
