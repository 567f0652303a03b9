use expander_rs::deepfold::{
    fold_values, halve, reduced_indices, DeepFoldParam, DeepFoldProver, DeepFoldVerifier,
    InterpolateValue, MerkleRoot, QueryResult,
};
use expander_rs::merkle_tree::{MerkleTreeVerifier, HASH_SIZE};
use expander_rs::poly::fold_in_place;
use expander_rs::shuffle::update_claim;
use expander_rs::{
    CommitmentSerde, FieldArith, Fr, MultiLinearPoly, PolyCommitProver, PolyCommitVerifier, Proof,
    Radix2Group, Transcript,
};
use rand::rngs::StdRng;
use rand::SeedableRng;

fn param(variable_num: usize, query_num: usize) -> DeepFoldParam<Fr> {
    let mut mult_subgroups = vec![Radix2Group::<Fr>::new(variable_num as u32 + 3)];
    for i in 1..variable_num {
        let next = mult_subgroups[i - 1].exp(2);
        mult_subgroups.push(next);
    }
    DeepFoldParam { mult_subgroups, variable_num, query_num }
}

fn random_poly(rng: &mut StdRng, var_num: usize) -> MultiLinearPoly<Fr> {
    MultiLinearPoly { var_num, evals: (0..1 << var_num).map(|_| Fr::random_unsafe(rng)).collect() }
}

fn random_point(rng: &mut StdRng, var_num: usize) -> Vec<Fr> {
    (0..var_num).map(|_| Fr::random_unsafe(rng)).collect()
}

#[test]
fn indices_are_reduced_sorted_and_deduplicated() {
    assert_eq!(reduced_indices(&vec![5, 3, 9, 3], 4), vec![1, 3]);
    assert_eq!(reduced_indices(&vec![7, 6, 5, 4, 3, 2, 1, 0], 8), vec![0, 1, 2, 3, 4, 5, 6, 7]);
    assert_eq!(reduced_indices(&vec![12, 4, 8], 4), vec![0]);
    assert_eq!(reduced_indices(&vec![], 4), Vec::<usize>::new());
    assert_eq!(reduced_indices(&vec![10, 2, 7], 1), vec![0]);
}

#[test]
fn parameters_are_set_up_for_a_blowup() {
    let pp = DeepFoldParam::<Fr>::setup(3, 3, 30).unwrap();
    assert_eq!(pp.variable_num, 3);
    assert_eq!(pp.query_num, 30);
    let sizes: Vec<usize> = pp.mult_subgroups.iter().map(|g| g.size()).collect();
    assert_eq!(sizes, vec![64, 32, 16]);
    assert_eq!(pp.half_size(2), 8);
    for i in 1..3 {
        let before = &pp.mult_subgroups[i - 1];
        assert_eq!(pp.mult_subgroups[i].omega, before.omega.mul(&before.omega));
    }
    // no variable, or a subgroup that the field does not have
    assert!(DeepFoldParam::<Fr>::setup(0, 3, 30).is_none());
    assert!(DeepFoldParam::<Fr>::setup(20, 9, 30).is_none());
    assert!(DeepFoldParam::<Fr>::setup(3, 3, usize::MAX).is_none());
}

#[test]
fn the_claim_moves_along_a_line() {
    let (claim, sent, z) = (Fr::from_u32(10), Fr::from_u32(25), Fr::from_u32(7));
    assert_eq!(update_claim(&claim, &sent, &z, &z), claim);
    assert_eq!(update_claim(&claim, &sent, &Fr::from_u32(8), &z), sent);
    // 10 + (9 - 7) * (25 - 10)
    assert_eq!(update_claim(&claim, &sent, &Fr::from_u32(9), &z), Fr::from_u32(40));
}

#[test]
fn merkle_root_travels_as_thirty_two_bytes() {
    let root = MerkleRoot([7u8; HASH_SIZE]);
    assert_eq!(root.size(), 32);
    let mut buffer = vec![1u8];
    root.serialize_into(&mut buffer);
    assert_eq!(buffer.len(), 33);
    assert_eq!(MerkleRoot::deserialize_from(&buffer[1..], 16).unwrap().0, [7u8; HASH_SIZE]);
    assert!(MerkleRoot::deserialize_from(&buffer[..31], 16).is_none());
    assert_eq!(MerkleRoot::default().0, [0u8; HASH_SIZE]);
}

#[test]
fn folding_a_pair_exact_values() {
    let (x, nx) = (Fr::from_u32(10), Fr::from_u32(4));
    let (challenge, inv) = (Fr::from_u32(3), Fr::from_u32(5));
    // sum + challenge * ((x - nx) * inv - sum) = 14 + 3 * (30 - 14)
    assert_eq!(fold_values(&x, &nx, &challenge, &inv), Fr::from_u32(62));
    assert_eq!(halve(&Fr::from_u32(62)), Fr::from_u32(31));
    assert_eq!(halve(&Fr::from_u32(1)), Fr::inv_2());
}

#[test]
fn queries_open_under_the_commitment() {
    let mut rng = StdRng::seed_from_u64(0x7175_6572);
    let value: Vec<Fr> = (0..16).map(|_| Fr::random_unsafe(&mut rng)).collect();
    let table = InterpolateValue::new(value.clone(), 2);
    assert_eq!(table.leave_num(), 8);
    let root = table.commit();
    let indices = vec![1, 4, 7];
    let (proof_bytes, proof_values) = table.query(&indices);
    // first the values at the indices, then those half the codeword further
    assert_eq!(proof_values, vec![value[1], value[4], value[7], value[9], value[12], value[15]]);
    let verifier = MerkleTreeVerifier::new(8, &root);
    assert_eq!(proof_bytes.len(), verifier.proof_length(&indices));
    let answers = QueryResult::from_answers(proof_bytes, &indices, &proof_values, 8);
    // the answers are held by their index in the codeword
    assert_eq!(answers.proof_values.len(), 6);
    for index in [1usize, 4, 7, 9, 12, 15] {
        assert_eq!(answers.proof_values[&index], value[index]);
    }
    assert!(!answers.proof_values.contains_key(&6));
    assert!(answers.verify_merkle_tree(&indices, 2, &verifier));
    let mut wrong = answers.clone();
    wrong.proof_values.insert(9, value[9].add(&Fr::one()));
    assert!(!wrong.verify_merkle_tree(&indices, 2, &verifier));
    // the same multi-proof does not open other leaves
    let others = vec![1, 4, 6];
    let (_, other_values) = table.query(&others);
    let moved =
        QueryResult::from_answers(answers.proof_bytes.clone(), &others, &other_values, 8);
    assert!(!moved.verify_merkle_tree(&others, 2, &verifier));
}

#[test]
fn the_next_codeword_is_the_codeword_of_the_folded_polynomial() {
    let mut rng = StdRng::seed_from_u64(0x666f_6c64);
    let pp = param(3, 30);
    let poly = random_poly(&mut rng, 3);
    let challenge = Fr::random_unsafe(&mut rng);
    let codeword = InterpolateValue::new(pp.mult_subgroups[0].fft(poly.evals.clone()), 2);
    let next = DeepFoldProver::<Fr>::evaluate_next_domain(&codeword, &pp, 0, challenge);
    let mut folded = poly.evals.clone();
    fold_in_place(&mut folded, 4, &challenge);
    folded.truncate(4);
    assert_eq!(next, pp.mult_subgroups[1].fft(folded));
}

fn open_and_check(var_num: usize, seed: u64) -> (DeepFoldParam<Fr>, MerkleRoot, Vec<Fr>, Fr, Proof) {
    let mut rng = StdRng::seed_from_u64(seed);
    let pp = param(var_num, 30);
    let poly = random_poly(&mut rng, var_num);
    let point = random_point(&mut rng, var_num);
    let eval = MultiLinearPoly::<Fr>::eval_multilinear_ext(&poly.evals, &point);
    let prover = DeepFoldProver::<Fr>::new(&pp, &poly);
    let commitment = prover.commit(&pp);
    let mut transcript = Transcript::new();
    prover.open(&pp, &point, &mut transcript);
    let proof = Proof::from_bytes(transcript.proof.bytes.clone());
    (pp, commitment, point, eval, proof)
}

fn check(pp: &DeepFoldParam<Fr>, commitment: MerkleRoot, point: &[Fr], eval: Fr, proof: &Proof) -> bool {
    let verifier = DeepFoldVerifier::<Fr>::new(pp, commitment);
    let mut transcript = Transcript::new();
    let mut proof = Proof::from_bytes(proof.bytes.clone());
    verifier.verify(pp, point, eval, &mut transcript, &mut proof)
}

#[test]
fn commit_open_verify_round_trip() {
    for (var_num, seed) in [(1usize, 11u64), (2, 12), (3, 13), (4, 14), (5, 15)] {
        let (pp, commitment, point, eval, proof) = open_and_check(var_num, seed);
        assert!(check(&pp, commitment, &point, eval, &proof), "{} variables", var_num);
    }
}

#[test]
fn a_wrong_value_is_rejected() {
    let (pp, commitment, point, eval, proof) = open_and_check(3, 21);
    assert!(check(&pp, commitment, &point, eval, &proof));
    assert!(!check(&pp, commitment, &point, eval.add(&Fr::one()), &proof));
    let mut other_point = point.clone();
    other_point[1] = other_point[1].add(&Fr::one());
    assert!(!check(&pp, commitment, &other_point, eval, &proof));
    // a point of the wrong length
    assert!(!check(&pp, commitment, &point[..2], eval, &proof));
    let mut other_root = commitment;
    other_root.0[0] ^= 1;
    assert!(!check(&pp, other_root, &point, eval, &proof));
}

#[test]
fn every_flipped_byte_of_an_opening_is_rejected() {
    let (pp, commitment, point, eval, proof) = open_and_check(2, 31);
    assert!(check(&pp, commitment, &point, eval, &proof));
    for idx in 0..proof.bytes.len() {
        let mut bad = Proof::from_bytes(proof.bytes.clone());
        bad.bytes[idx] ^= 1;
        assert!(!check(&pp, commitment, &point, eval, &bad), "byte {}", idx);
    }
}

#[test]
fn a_short_opening_is_rejected() {
    let (pp, commitment, point, eval, proof) = open_and_check(3, 41);
    for len in [0, 31, 32, 64, 200, proof.bytes.len() - 1] {
        let short = Proof::from_bytes(proof.bytes[..len].to_vec());
        assert!(!check(&pp, commitment, &point, eval, &short), "length {}", len);
    }
}

#[test]
fn the_opening_has_the_documented_layout() {
    let (pp, _, _, _, proof) = open_and_check(3, 51);
    // per round an element and then a root, the last round an element
    let commit_phase = 32 + 32 + 32 + 32 + 32 + 32;
    assert!(proof.bytes.len() > commit_phase);
    // the queries: for each round a multi-proof and two elements per index
    let mut replay = Transcript::new();
    for round in 0..3 {
        replay.append_u8_slice(&proof.bytes[64 * round..], 32);
        replay.challenge_fext::<Fr>();
        replay.append_u8_slice(&proof.bytes[64 * round + 32..], 32);
    }
    let mut indices = replay.challenge_usizes(pp.query_num);
    let mut expected = commit_phase;
    for round in 0..3 {
        let half = pp.mult_subgroups[round].size() / 2;
        indices = reduced_indices(&indices, half);
        let verifier = MerkleTreeVerifier::new(half, &[0u8; HASH_SIZE]);
        expected += verifier.proof_length(&indices) + 2 * indices.len() * 32;
    }
    assert_eq!(proof.bytes.len(), expected);
}

#[test]
fn an_accepted_opening_is_read_to_its_end_and_mirrored() {
    for (var_num, seed) in [(1usize, 51u64), (3, 52), (4, 53)] {
        let mut rng = StdRng::seed_from_u64(seed);
        let pp = param(var_num, 30);
        let poly = random_poly(&mut rng, var_num);
        let point = random_point(&mut rng, var_num);
        let eval = MultiLinearPoly::<Fr>::eval_multilinear_ext(&poly.evals, &point);
        let prover = DeepFoldProver::<Fr>::new(&pp, &poly);
        let commitment = prover.commit(&pp);
        let mut sent = Transcript::new();
        sent.append_u8_slice(&[7, 7, 7], 3);
        prover.open(&pp, &point, &mut sent);

        let verifier = DeepFoldVerifier::<Fr>::new(&pp, commitment);
        let mut mirror = Transcript::new();
        mirror.append_u8_slice(&[7, 7, 7], 3);
        let mut proof = Proof::from_bytes(sent.proof.bytes.clone());
        proof.step(3);
        assert!(verifier.verify(&pp, &point, eval, &mut mirror, &mut proof));
        assert_eq!(proof.bytes, sent.proof.bytes);
        assert_eq!(proof.idx, proof.bytes.len());
        assert_eq!(mirror.proof.bytes, sent.proof.bytes);
        assert_eq!(mirror.digest, sent.digest);
        assert_eq!(mirror.counter, sent.counter);
        assert_eq!(mirror.hash_start_idx, sent.hash_start_idx);
    }
}

#[test]
fn a_rejected_opening_leaves_the_bytes_alone() {
    let (pp, commitment, point, eval, proof) = open_and_check(3, 61);
    let verifier = DeepFoldVerifier::<Fr>::new(&pp, commitment);
    let mut bad = Proof::from_bytes(proof.bytes.clone());
    let last = bad.bytes.len() - 1;
    bad.bytes[last] ^= 0x80;
    let kept = bad.bytes.clone();
    let mut transcript = Transcript::new();
    assert!(!verifier.verify(&pp, &point, eval, &mut transcript, &mut bad));
    assert_eq!(bad.bytes, kept);
}
