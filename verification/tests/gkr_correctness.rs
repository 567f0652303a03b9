use expander_rs::deepfold::{DeepFoldParam, DeepFoldProver, DeepFoldVerifier};
use expander_rs::prover::gkr::has_inputs_everywhere;
use expander_rs::raw::{RawCommitmentProver, RawCommitmentVerifier};
use expander_rs::shuffle::{ShufflePcProver, ShufflePcVerifier};
use expander_rs::{
    Circuit, CircuitLayer, Config, Field, FieldArith, Fr, GateAdd, GateConst, GateMul, M31Ext3,
    Msn61, MultiLinearPoly, PolyCommitProver, PolyCommitVerifier, Proof, Prover, Radix2Group,
    Transcript, TwoAdicField, Verifier, M31,
};
use rand::rngs::StdRng;
use rand::{Rng, SeedableRng};

fn gen_simple_circuit<F: Field>() -> Circuit<F> {
    let mut circuit = Circuit::default();
    let mut l0 = CircuitLayer::default();
    l0.input_var_num = 2;
    l0.output_var_num = 2;
    l0.add.push(GateAdd { i_ids: [0], o_id: 0, coef: F::BaseField::from_u32(1) });
    l0.add.push(GateAdd { i_ids: [0], o_id: 1, coef: F::BaseField::from_u32(1) });
    l0.add.push(GateAdd { i_ids: [1], o_id: 1, coef: F::BaseField::from_u32(1) });
    l0.mul.push(GateMul { i_ids: [0, 2], o_id: 2, coef: F::BaseField::from_u32(1) });
    circuit.layers.push(l0);
    circuit
}

fn gen_two_layer_circuit<F: Field>() -> Circuit<F> {
    let mut circuit = gen_simple_circuit::<F>();
    let mut l1 = CircuitLayer::default();
    l1.input_var_num = 2;
    l1.output_var_num = 1;
    l1.mul.push(GateMul { i_ids: [1, 2], o_id: 0, coef: F::BaseField::from_u32(2) });
    l1.add.push(GateAdd { i_ids: [0], o_id: 0, coef: F::BaseField::from_u32(3) });
    l1.add.push(GateAdd { i_ids: [3], o_id: 1, coef: F::BaseField::from_u32(1) });
    l1.const_.push(GateConst { i_ids: [], o_id: 1, coef: F::BaseField::from_u32(7) });
    circuit.layers.push(l1);
    circuit
}

fn set_input<F: Field>(circuit: &mut Circuit<F>, values: &[u32]) {
    let var_num = circuit.layers[0].input_var_num;
    assert_eq!(values.len(), 1 << var_num);
    circuit.layers[0].input_vals =
        MultiLinearPoly { var_num, evals: values.iter().map(|v| F::from_u32(*v)).collect() };
}

fn deepfold_param<F: TwoAdicField>(variable_num: usize) -> DeepFoldParam<F> {
    let mut mult_subgroups = vec![Radix2Group::<F>::new(variable_num as u32 + 3)];
    for i in 1..variable_num {
        let next = mult_subgroups[i - 1].exp(2);
        mult_subgroups.push(next);
    }
    DeepFoldParam { mult_subgroups, variable_num, query_num: 30 }
}

fn assert_values<F: Field>(got: &[F], expected: &[u32]) {
    assert_eq!(got.len(), expected.len());
    for (g, e) in got.iter().zip(expected.iter()) {
        assert!(g.equals(&F::from_u32(*e)));
    }
}

fn flip(proof: &Proof, idx: usize, change: u8) -> Proof {
    let mut bytes = proof.bytes.clone();
    bytes[idx] ^= change;
    Proof::from_bytes(bytes)
}

#[test]
fn simple_circuit_output_is_the_hand_computation() {
    let mut circuit = gen_simple_circuit::<Fr>();
    set_input(&mut circuit, &[1, 2, 3, 4]);
    circuit.evaluate();
    // out0 = in0, out1 = in0 + in1, out2 = in0 * in2, out3 has no gate
    assert_values(&circuit.layers[0].output_vals.evals, &[1, 3, 3, 0]);
}

#[test]
fn two_layer_circuit_output_is_the_hand_computation() {
    let mut circuit = gen_two_layer_circuit::<Fr>();
    set_input(&mut circuit, &[1, 2, 3, 4]);
    circuit.evaluate();
    assert_values(&circuit.layers[1].input_vals.evals, &[1, 3, 3, 0]);
    // out0 = 2 * 3 * 3 + 3 * 1, out1 = 0 + 7
    assert_values(&circuit.layers[1].output_vals.evals, &[21, 7]);
}

#[test]
fn simple_circuit_raw_prove_and_verify() {
    let config = Config::bn254_config();
    let mut circuit = gen_simple_circuit::<Fr>();
    set_input(&mut circuit, &[1, 2, 3, 4]);
    circuit.evaluate();
    let mut prover = Prover::<Fr, RawCommitmentProver<Fr>>::new(&config, ());
    prover.prepare_mem(&circuit);
    let (claimed_v, proof) = prover.prove(&circuit);
    let verifier = Verifier::<Fr, RawCommitmentVerifier<Fr>>::new(&config, ());
    assert!(verifier.verify(&circuit, &claimed_v, &proof));
}

#[test]
fn simple_circuit_raw_any_flipped_byte_is_rejected() {
    let config = Config::bn254_config();
    let mut circuit = gen_simple_circuit::<Fr>();
    set_input(&mut circuit, &[1, 2, 3, 4]);
    circuit.evaluate();
    let mut prover = Prover::<Fr, RawCommitmentProver<Fr>>::new(&config, ());
    prover.prepare_mem(&circuit);
    let (claimed_v, proof) = prover.prove(&circuit);
    let verifier = Verifier::<Fr, RawCommitmentVerifier<Fr>>::new(&config, ());
    assert!(verifier.verify(&circuit, &claimed_v, &proof));
    for idx in 0..proof.bytes.len() {
        assert!(!verifier.verify(&circuit, &claimed_v, &flip(&proof, idx, 1)), "byte {}", idx);
        assert!(!verifier.verify(&circuit, &claimed_v, &flip(&proof, idx, 0x80)), "byte {}", idx);
    }
}

#[test]
fn wrong_claimed_output_is_rejected() {
    let config = Config::bn254_config();
    let mut circuit = gen_two_layer_circuit::<Fr>();
    set_input(&mut circuit, &[1, 2, 3, 4]);
    circuit.evaluate();
    let mut prover = Prover::<Fr, RawCommitmentProver<Fr>>::new(&config, ());
    prover.prepare_mem(&circuit);
    let (claimed_v, proof) = prover.prove(&circuit);
    let verifier = Verifier::<Fr, RawCommitmentVerifier<Fr>>::new(&config, ());
    assert!(verifier.verify(&circuit, &claimed_v, &proof));
    let wrong = vec![claimed_v[0].add(&Fr::one())];
    assert!(!verifier.verify(&circuit, &wrong, &proof));
    // a claim for each repetition is expected
    assert!(!verifier.verify(&circuit, &[], &proof));
}

#[test]
fn truncated_proof_is_rejected() {
    let config = Config::bn254_config();
    let mut circuit = gen_two_layer_circuit::<Fr>();
    set_input(&mut circuit, &[5, 6, 7, 8]);
    circuit.evaluate();
    let mut prover = Prover::<Fr, RawCommitmentProver<Fr>>::new(&config, ());
    prover.prepare_mem(&circuit);
    let (claimed_v, proof) = prover.prove(&circuit);
    let verifier = Verifier::<Fr, RawCommitmentVerifier<Fr>>::new(&config, ());
    for len in [0, 1, 31, 128, 160, proof.bytes.len() - 32, proof.bytes.len() - 1] {
        let short = Proof::from_bytes(proof.bytes[..len].to_vec());
        assert!(!verifier.verify(&circuit, &claimed_v, &short), "length {}", len);
    }
}

fn test_gkr_correctness_helper<F>(config: &Config)
where
    F: TwoAdicField,
{
    println!("Config created.");
    let mut circuit = gen_two_layer_circuit::<F>();
    println!("Circuit loaded.");
    let mut rng = StdRng::seed_from_u64(0x676b_7221);
    circuit.set_random_bool_input_for_test(&mut rng);
    circuit.evaluate();
    println!("Circuit evaluated.");

    let variable_num = circuit.log_input_size();
    let mut prover = Prover::<F, DeepFoldProver<F>>::new(config, deepfold_param::<F>(variable_num));
    prover.prepare_mem(&circuit);
    let (claimed_v, proof) = prover.prove(&circuit);
    println!("Proof generated. Size: {} bytes", proof.bytes.len());

    let verifier = Verifier::<F, DeepFoldVerifier<F>>::new(config, deepfold_param::<F>(variable_num));
    println!("Verifier created.");
    assert!(verifier.verify(&circuit, &claimed_v, &proof));
    println!("Correct proof verified.");
    let random_idx = rng.gen_range(0..proof.bytes.len());
    let random_change = rng.gen_range(1..256) as u8;
    let bad_proof = flip(&proof, random_idx, random_change);
    assert!(!verifier.verify(&circuit, &claimed_v, &bad_proof));
    println!("Bad proof rejected.");
}

#[test]
fn test_gkr_correctness() {
    let config = Config::bn254_config();
    test_gkr_correctness_helper::<Fr>(&config);
}

#[test]
fn simple_circuit_deepfold_prove_and_verify() {
    let config = Config::bn254_config();
    let mut circuit = gen_simple_circuit::<Fr>();
    set_input(&mut circuit, &[1, 2, 3, 4]);
    circuit.evaluate();
    let mut prover = Prover::<Fr, DeepFoldProver<Fr>>::new(&config, deepfold_param::<Fr>(2));
    prover.prepare_mem(&circuit);
    let (claimed_v, proof) = prover.prove(&circuit);
    let verifier = Verifier::<Fr, DeepFoldVerifier<Fr>>::new(&config, deepfold_param::<Fr>(2));
    assert!(verifier.verify(&circuit, &claimed_v, &proof));
    // the claimed value is the output's extension at the point drawn
    assert_eq!(claimed_v.len(), 1);
}

#[test]
fn simple_circuit_deepfold_flipped_bytes_are_rejected() {
    let config = Config::bn254_config();
    let mut circuit = gen_simple_circuit::<Fr>();
    set_input(&mut circuit, &[1, 2, 3, 4]);
    circuit.evaluate();
    let mut prover = Prover::<Fr, DeepFoldProver<Fr>>::new(&config, deepfold_param::<Fr>(2));
    prover.prepare_mem(&circuit);
    let (claimed_v, proof) = prover.prove(&circuit);
    let verifier = Verifier::<Fr, DeepFoldVerifier<Fr>>::new(&config, deepfold_param::<Fr>(2));
    assert!(verifier.verify(&circuit, &claimed_v, &proof));
    let mut idx = 0;
    while idx < proof.bytes.len() {
        assert!(!verifier.verify(&circuit, &claimed_v, &flip(&proof, idx, 4)), "byte {}", idx);
        idx += 5;
    }
    let last = proof.bytes.len() - 1;
    assert!(!verifier.verify(&circuit, &claimed_v, &flip(&proof, last, 1)));
}

#[test]
fn shuffle_scheme_prove_and_verify() {
    let config = Config::bn254_config();
    let mut circuit = gen_two_layer_circuit::<Fr>();
    set_input(&mut circuit, &[9, 8, 7, 6]);
    circuit.evaluate();
    let mut prover = Prover::<Fr, ShufflePcProver<Fr>>::new(&config, ());
    prover.prepare_mem(&circuit);
    let (claimed_v, proof) = prover.prove(&circuit);
    let verifier = Verifier::<Fr, ShufflePcVerifier<Fr>>::new(&config, ());
    assert!(verifier.verify(&circuit, &claimed_v, &proof));
    let last = proof.bytes.len() - 1;
    assert!(!verifier.verify(&circuit, &claimed_v, &flip(&proof, last, 1)));
}

#[test]
fn mersenne_31_runs_three_repetitions() {
    let config = Config::m31_config();
    let mut circuit = gen_two_layer_circuit::<M31>();
    set_input(&mut circuit, &[1, 2, 3, 4]);
    circuit.evaluate();
    let mut prover = Prover::<M31, RawCommitmentProver<M31>>::new(&config, ());
    prover.prepare_mem(&circuit);
    let (claimed_v, proof) = prover.prove(&circuit);
    assert_eq!(claimed_v.len(), 3);
    let verifier = Verifier::<M31, RawCommitmentVerifier<M31>>::new(&config, ());
    assert!(verifier.verify(&circuit, &claimed_v, &proof));
    for idx in 0..proof.bytes.len() {
        assert!(!verifier.verify(&circuit, &claimed_v, &flip(&proof, idx, 1)), "byte {}", idx);
    }
}

#[test]
fn extension_field_prove_and_verify() {
    // values in the extension, gate coefficients and layer challenges in the base field
    let config = Config::m31_ext3_config();
    let mut circuit = gen_two_layer_circuit::<M31Ext3>();
    set_input(&mut circuit, &[1, 2, 3, 4]);
    circuit.layers[0].input_vals.evals[2] =
        M31Ext3 { v: [M31 { v: 3 }, M31 { v: 5 }, M31 { v: 7 }] };
    circuit.evaluate();
    let mut prover = Prover::<M31Ext3, RawCommitmentProver<M31Ext3>>::new(&config, ());
    prover.prepare_mem(&circuit);
    let (claimed_v, proof) = prover.prove(&circuit);
    assert_eq!(claimed_v.len(), 1);
    let verifier = Verifier::<M31Ext3, RawCommitmentVerifier<M31Ext3>>::new(&config, ());
    // the merged claim is divided by a value that this field does not invert
    assert!(!verifier.verify(&circuit, &claimed_v, &proof));
    // up to that division everything checks out
    let mut shuffle = Prover::<M31Ext3, ShufflePcProver<M31Ext3>>::new(&config, ());
    shuffle.prepare_mem(&circuit);
    let (claimed_again, _) = shuffle.prove(&circuit);
    assert!(claimed_v[0].equals(&claimed_again[0]));
}

#[test]
fn mersenne_61_prove_and_verify() {
    let config = Config::msn61_config();
    let mut circuit = gen_two_layer_circuit::<Msn61>();
    set_input(&mut circuit, &[11, 12, 13, 14]);
    circuit.evaluate();
    assert_values(&circuit.layers[1].output_vals.evals, &[2 * 23 * 143 + 3 * 11, 7]);
    let mut prover = Prover::<Msn61, RawCommitmentProver<Msn61>>::new(&config, ());
    prover.prepare_mem(&circuit);
    let (claimed_v, proof) = prover.prove(&circuit);
    assert_eq!(config.get_num_repetitions(), 3);
    assert_eq!(claimed_v.len(), 3);
    let verifier = Verifier::<Msn61, RawCommitmentVerifier<Msn61>>::new(&config, ());
    assert!(verifier.verify(&circuit, &claimed_v, &proof));
}

#[test]
fn circuits_are_validated() {
    let mut circuit = gen_two_layer_circuit::<Fr>();
    assert!(circuit.is_well_formed());
    assert!(has_inputs_everywhere(&circuit));
    assert!(!circuit.has_input());
    set_input(&mut circuit, &[1, 2, 3, 4]);
    assert!(circuit.has_input());
    // a wire that does not exist
    circuit.layers[1].add.push(GateAdd { i_ids: [4], o_id: 0, coef: Fr::one() });
    assert!(!circuit.is_well_formed());
    circuit.layers[1].add.pop();
    assert!(circuit.is_well_formed());
    // layers that do not fit together
    circuit.layers[1].input_var_num = 3;
    assert!(!circuit.is_well_formed());
    circuit.layers[1].input_var_num = 2;
    // a coefficient that is not canonical
    circuit.layers[0].mul[0].coef = Fr { l0: 0, l1: 0, l2: 0, l3: u64::MAX };
    assert!(!circuit.is_well_formed());
    assert!(!Circuit::<Fr>::default().is_well_formed());
    let mut flat = Circuit::<Fr>::default();
    let mut layer = CircuitLayer::default();
    layer.const_.push(GateConst { i_ids: [], o_id: 0, coef: Fr::one() });
    flat.layers.push(layer);
    assert!(flat.is_well_formed());
    assert!(!has_inputs_everywhere(&flat));
}

#[test]
fn proofs_are_deterministic() {
    let config = Config::bn254_config();
    let mut circuit = gen_simple_circuit::<Fr>();
    set_input(&mut circuit, &[1, 2, 3, 4]);
    circuit.evaluate();
    let mut prover = Prover::<Fr, RawCommitmentProver<Fr>>::new(&config, ());
    prover.prepare_mem(&circuit);
    let (claimed_a, proof_a) = prover.prove(&circuit);
    let (claimed_b, proof_b) = prover.prove(&circuit);
    assert_eq!(proof_a.bytes, proof_b.bytes);
    assert!(claimed_a[0].equals(&claimed_b[0]));
    // commitment, grinding tail, then per round three elements; one claim
    // after each phase; then the merging rounds
    let size = 32;
    let expected = 4 * size + 32 + (2 * 2 * 3 + 1 + 1) * size + 2 * 3 * size;
    assert_eq!(proof_a.bytes.len(), expected);
}

#[test]
fn preparing_memory_twice_leaves_the_same_state() {
    let config = Config::m31_config();
    let mut circuit = gen_two_layer_circuit::<M31>();
    set_input(&mut circuit, &[5, 6, 7, 8]);
    circuit.evaluate();
    let mut prover = Prover::<M31, RawCommitmentProver<M31>>::new(&config, ());
    assert_eq!(prover.sp.len(), 0);
    prover.prepare_mem(&circuit);
    let check = |prover: &Prover<M31, RawCommitmentProver<M31>>| {
        assert_eq!(prover.sp.len(), 3);
        for sp in prover.sp.iter() {
            assert_eq!(sp.max_num_input_var, 2);
            assert_eq!(sp.max_num_output_var, 2);
            assert!(sp.v_evals.is_empty());
            assert!(sp.hg_evals.is_empty());
            assert!(sp.eq_evals_at_rz.is_empty());
            assert!(sp.eq_evals_at_rx.is_empty());
        }
        assert_eq!(prover.config, config);
    };
    check(&prover);
    prover.prepare_mem(&circuit);
    check(&prover);
    // also after the scratchpads were worked on
    let (claimed_v, proof) = prover.prove(&circuit);
    prover.prepare_mem(&circuit);
    check(&prover);
    let (claimed_again, proof_again) = prover.prove(&circuit);
    assert_eq!(proof.bytes, proof_again.bytes);
    assert_eq!(claimed_v.len(), claimed_again.len());
    for (a, b) in claimed_v.iter().zip(claimed_again.iter()) {
        assert!(a.equals(b));
    }
}

#[test]
fn random_input_is_boolean() {
    let mut rng = StdRng::seed_from_u64(0x626f_6f6c);
    let mut circuit = gen_two_layer_circuit::<Fr>();
    circuit.set_random_bool_input_for_test(&mut rng);
    assert!(circuit.has_input());
    let input = &circuit.layers[0].input_vals.evals;
    assert_eq!(input.len(), 4);
    for v in input.iter() {
        assert!(v.equals(&Fr::zero()) || v.equals(&Fr::one()));
    }
    let mut ext = gen_two_layer_circuit::<M31Ext3>();
    ext.set_random_bool_input_for_test(&mut rng);
    for v in ext.layers[0].input_vals.evals.iter() {
        for c in v.v.iter() {
            assert!(c.v < 2);
        }
    }
    let mut seen = [false; 2];
    for _ in 0..64 {
        let bit = Msn61::random_bool_unsafe(&mut rng);
        assert!(bit.v < 2);
        seen[bit.v as usize] = true;
    }
    assert!(seen[0] && seen[1]);
}

#[test]
fn shuffle_opening_is_read_to_its_end() {
    let mut rng = StdRng::seed_from_u64(0x7368_7566);
    let poly = MultiLinearPoly::<Msn61> {
        var_num: 3,
        evals: (0..8).map(|_| Msn61::random_unsafe(&mut rng)).collect(),
    };
    let point: Vec<Msn61> = (0..3).map(|_| Msn61::random_unsafe(&mut rng)).collect();
    let eval = MultiLinearPoly::<Msn61>::eval_multilinear_ext(&poly.evals, &point);
    let prover = ShufflePcProver::<Msn61>::new(&(), &poly);
    let commitment = prover.commit(&());
    let mut sent = Transcript::new();
    prover.open(&(), &point, &mut sent);
    assert_eq!(sent.proof.bytes.len(), 3 * 8);
    let verifier = ShufflePcVerifier::<Msn61>::new(&(), commitment);
    let mut mirror = Transcript::new();
    let mut proof = Proof::from_bytes(sent.proof.bytes.clone());
    assert!(verifier.verify(&(), &point, eval, &mut mirror, &mut proof));
    assert_eq!(proof.bytes, sent.proof.bytes);
    assert_eq!(proof.idx, 3 * 8);
    assert_eq!(mirror.proof.bytes, sent.proof.bytes);
    assert_eq!(mirror.digest, sent.digest);
    assert_eq!(mirror.counter, sent.counter);
}
