use expander_rs::hash::sha2_256::SHA256hasher;
use expander_rs::{grind, Config, FieldArith, FieldSerde, Fr, Msn61, Transcript, M31};
use sha2::{Digest, Sha256};

#[test]
fn sha256_of_abc() {
    let hasher = SHA256hasher {};
    let digest = hasher.hash(b"abcdef", 3);
    let expected: [u8; 32] = [
        186, 120, 22, 191, 143, 1, 207, 234, 65, 65, 64, 222, 93, 174, 34, 35, 176, 3, 97, 163,
        150, 23, 122, 156, 180, 16, 255, 97, 242, 0, 21, 173,
    ];
    assert_eq!(digest, expected);
    let mut buffer = expected;
    hasher.hash_inplace(&mut buffer);
    let twice: [u8; 32] = Sha256::digest(expected).into();
    assert_eq!(buffer, twice);
    assert_ne!(buffer, expected);
}

#[test]
fn fresh_transcript_is_empty() {
    let t = Transcript::new();
    assert_eq!(t.digest, [0u8; 32]);
    assert_eq!(t.hash_start_idx, 0);
    assert_eq!(t.counter, 0);
    assert!(t.proof.bytes.is_empty());
}

#[test]
fn appending_only_grows_the_proof() {
    let mut t = Transcript::new();
    t.append_u8_slice(&[1, 2, 3, 4], 2);
    t.append_f(M31 { v: 0x0a0b_0c0d });
    t.append_fs(&vec![Msn61 { v: 1 }, Msn61 { v: 2 }]);
    assert_eq!(
        t.proof.bytes,
        vec![1, 2, 0x0d, 0x0c, 0x0b, 0x0a, 1, 0, 0, 0, 0, 0, 0, 0, 2, 0, 0, 0, 0, 0, 0, 0]
    );
    assert_eq!(t.digest, [0u8; 32]);
    assert_eq!(t.counter, 0);
}

#[test]
fn a_squeeze_hashes_digest_pending_bytes_and_counter() {
    let mut t = Transcript::new();
    t.append_u8_slice(&[7, 8, 9], 3);
    t.hash_to_digest();
    let mut input = vec![0u8; 32];
    input.extend_from_slice(&[7, 8, 9]);
    input.extend_from_slice(&0u64.to_le_bytes());
    let first: [u8; 32] = Sha256::digest(&input).into();
    assert_eq!(t.digest, first);
    assert_eq!(t.hash_start_idx, 3);
    assert_eq!(t.counter, 1);
    // nothing pending now: the digest and the counter alone
    t.hash_to_digest();
    let mut input = first.to_vec();
    input.extend_from_slice(&1u64.to_le_bytes());
    let second: [u8; 32] = Sha256::digest(&input).into();
    assert_eq!(t.digest, second);
    assert_eq!(t.counter, 2);
    assert_eq!(t.proof.bytes, vec![7, 8, 9]);
}

#[test]
fn challenges_are_read_off_the_digest() {
    let mut a = Transcript::new();
    a.append_f(Fr::from_u32(5));
    let mut b = Transcript::new();
    b.append_f(Fr::from_u32(5));
    let c1 = a.challenge_f::<Fr>();
    assert_eq!(c1, Fr::from_uniform_bytes(&a.digest));
    assert_eq!(c1, b.challenge_fext::<Fr>());
    let c2 = a.challenge_f::<Fr>();
    assert_ne!(c1, c2);
    let more = b.challenge_fs::<Fr>(3);
    assert_eq!(more.len(), 3);
    assert_eq!(more[0], c2);
    assert_eq!(more[1], a.challenge_f::<Fr>());
    let indices = a.challenge_usizes(4);
    assert_eq!(indices.len(), 4);
    assert_eq!(a.counter, 7);
    let word = u32::from_le_bytes([a.digest[0], a.digest[1], a.digest[2], a.digest[3]]);
    assert_eq!(indices[3], word as usize);
    assert!(b.challenge_fs::<Fr>(0).is_empty());
}

#[test]
fn challenges_depend_on_what_was_appended() {
    let mut a = Transcript::new();
    a.append_u8_slice(&[1], 1);
    let mut b = Transcript::new();
    b.append_u8_slice(&[2], 1);
    assert_ne!(a.challenge_f::<M31>(), b.challenge_f::<M31>());
    let mut c = Transcript::new();
    let mut d = Transcript::new();
    let first = c.challenge_f::<Msn61>();
    d.append_u8_slice(&[], 0);
    assert_eq!(first, d.challenge_f::<Msn61>());
}

#[test]
fn grinding_appends_the_iterated_hash_of_the_challenges() {
    // one challenge of 32 bytes, hashed once
    let config = Config::bn254_config();
    let mut t = Transcript::new();
    t.append_u8_slice(&[1, 2, 3], 3);
    let mut mirror = Transcript::new();
    mirror.append_u8_slice(&[1, 2, 3], 3);
    grind::<Fr>(&mut t, &config);
    let challenge = mirror.challenge_f::<Fr>();
    let mut seed = Vec::new();
    challenge.serialize_into(&mut seed);
    let expected: [u8; 32] = Sha256::digest(&seed).into();
    assert_eq!(t.proof.bytes.len(), 3 + 32);
    assert_eq!(t.proof.bytes[3..].to_vec(), expected.to_vec());
    assert_eq!(t.counter, 1);
}

#[test]
fn grinding_packs_small_challenges_and_hashes_often() {
    // eight challenges of 4 bytes, hashed 2^10 times
    let config = Config::m31_config();
    let mut t = Transcript::new();
    let mut mirror = Transcript::new();
    grind::<M31>(&mut t, &config);
    let challenges = mirror.challenge_fs::<M31>(8);
    let mut seed = Vec::new();
    for c in challenges.iter() {
        c.serialize_into(&mut seed);
    }
    assert_eq!(seed.len(), 32);
    let mut expected: [u8; 32] = seed.try_into().unwrap();
    for _ in 0..1024 {
        expected = Sha256::digest(expected).into();
    }
    assert_eq!(t.proof.bytes, expected.to_vec());
    assert_eq!(t.counter, 8);
}
