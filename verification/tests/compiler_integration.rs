use expander_rs::raw::{RawCommitment, RawCommitmentProver, RawCommitmentVerifier};
use expander_rs::{
    Circuit, CircuitLayer, CommitmentSerde, Config, Field, FieldArith, GateAdd, GateMul,
    MultiLinearPoly, PolyCommitProver, PolyCommitVerifier, Proof, Prover, Transcript, Verifier, M31,
};
use rand::rngs::StdRng;
use rand::{Rng, SeedableRng};

type F = M31;

/// Two layers that end in one wire: `(w0 * w1 - w2) * w3`, which is zero for
/// a witness with `w0 * w1 = w2`.
fn constraint_circuit() -> Circuit<F> {
    let mut circuit = Circuit::default();
    let mut l0 = CircuitLayer::default();
    l0.input_var_num = 2;
    l0.output_var_num = 1;
    l0.mul.push(GateMul { i_ids: [0, 1], o_id: 0, coef: F::from_u32(1) });
    l0.add.push(GateAdd { i_ids: [2], o_id: 0, coef: F::one().neg() });
    l0.add.push(GateAdd { i_ids: [3], o_id: 1, coef: F::from_u32(1) });
    circuit.layers.push(l0);
    let mut l1 = CircuitLayer::default();
    l1.input_var_num = 1;
    l1.output_var_num = 0;
    l1.mul.push(GateMul { i_ids: [0, 1], o_id: 0, coef: F::from_u32(1) });
    circuit.layers.push(l1);
    circuit
}

fn load_witness(circuit: &mut Circuit<F>, witness: &[u32]) {
    circuit.layers[0].input_vals =
        MultiLinearPoly { var_num: 2, evals: witness.iter().map(|w| F::from_u32(*w)).collect() };
}

#[test]
fn test_compiler_format_integration() {
    let config = Config::bn254_config();
    println!("Config created.");
    let mut circuit = constraint_circuit();
    println!("Circuit loaded.");
    load_witness(&mut circuit, &[6, 7, 42, 9]);
    println!("Witness loaded.");
    circuit.evaluate();
    println!("Circuit evaluated.");
    // check last layer first output
    let last_layer = circuit.layers.last().unwrap();
    let last_layer_first_output = last_layer.output_vals.evals[0];
    assert_eq!(last_layer_first_output, F::zero());

    let mut prover = Prover::<_, RawCommitmentProver<_>>::new(&config, ());
    prover.prepare_mem(&circuit);
    let (claimed_v, proof) = prover.prove(&circuit);
    println!("Proof generated. Size: {} bytes", proof.bytes.len());
    // the proof travels as bytes
    let proof = Proof::from_bytes(proof.bytes.clone());

    let verifier = Verifier::<_, RawCommitmentVerifier<_>>::new(&config, ());
    println!("Verifier created.");
    assert!(verifier.verify(&circuit, &claimed_v, &proof));
    println!("Correct proof verified.");
    let mut bad_proof = Proof::from_bytes(proof.bytes.clone());
    let rng = &mut StdRng::seed_from_u64(0x636f_6d70);
    let random_idx = rng.gen_range(0..bad_proof.bytes.len());
    let random_change = rng.gen_range(1..256) as u8;
    bad_proof.bytes[random_idx] ^= random_change;
    assert!(!verifier.verify(&circuit, &claimed_v, &bad_proof));
    println!("Bad proof rejected.");
}

#[test]
fn the_claim_on_a_single_output_is_the_output() {
    let config = Config::bn254_config();
    let mut circuit = constraint_circuit();
    load_witness(&mut circuit, &[6, 7, 42, 9]);
    circuit.evaluate();
    let mut prover = Prover::<F, RawCommitmentProver<F>>::new(&config, ());
    prover.prepare_mem(&circuit);
    let (claimed_v, _) = prover.prove(&circuit);
    // no output variable, so no point is drawn: the claim is the value itself
    assert_eq!(claimed_v, vec![F::zero()]);
    assert_eq!(claimed_v[0], circuit.layers[1].output_vals.evals[0]);

    load_witness(&mut circuit, &[6, 7, 41, 9]);
    circuit.evaluate();
    let (claimed_v, proof) = prover.prove(&circuit);
    assert_eq!(claimed_v, vec![F::from_u32(9)]);
    let verifier = Verifier::<F, RawCommitmentVerifier<F>>::new(&config, ());
    assert!(verifier.verify(&circuit, &claimed_v, &proof));
    // the true output is nine: a claim of zero does not pass
    assert!(!verifier.verify(&circuit, &[F::zero()], &proof));
}

#[test]
fn raw_commitment_is_the_polynomial() {
    let poly = MultiLinearPoly { var_num: 2, evals: vec![F::from_u32(1), F::from_u32(2), F::from_u32(3), F::from_u32(4)] };
    let prover = RawCommitmentProver::<F>::new(&(), &poly);
    let commitment = prover.commit(&());
    assert_eq!(commitment.poly_vals, poly.evals);
    assert_eq!(commitment.size(), 16);
    let mut buffer = Vec::new();
    commitment.serialize_into(&mut buffer);
    assert_eq!(buffer, vec![1, 0, 0, 0, 2, 0, 0, 0, 3, 0, 0, 0, 4, 0, 0, 0]);
    let read = RawCommitment::<F>::deserialize_from(&buffer, 4).unwrap();
    assert_eq!(read.poly_vals, poly.evals);
    // too short, or not canonical
    assert!(RawCommitment::<F>::deserialize_from(&buffer, 5).is_none());
    buffer[4..8].copy_from_slice(&[0xff, 0xff, 0xff, 0x7f]);
    assert!(RawCommitment::<F>::deserialize_from(&buffer, 4).is_none());
    assert!(RawCommitment::<F>::deserialize_from(&buffer, 1).is_some());
    assert!(RawCommitment::<F>::deserialize_from(&[], 0).is_some());

    // opening sends nothing; verifying evaluates
    let mut transcript = Transcript::new();
    let point = vec![F::from_u32(3), F::from_u32(5)];
    prover.open(&(), &point, &mut transcript);
    assert!(transcript.proof.bytes.is_empty());
    let verifier = RawCommitmentVerifier::<F>::new(&(), commitment);
    let mut proof = Proof::default();
    // 1 + x0 + 2 x1 at (3, 5)
    assert!(verifier.verify(&(), &point, F::from_u32(14), &mut transcript, &mut proof));
    assert!(!verifier.verify(&(), &point, F::from_u32(15), &mut transcript, &mut proof));
    assert!(!verifier.verify(&(), &point[..1], F::from_u32(14), &mut transcript, &mut proof));
}
