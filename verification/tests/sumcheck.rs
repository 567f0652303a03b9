use expander_rs::prover::sumcheck::{combine_eq_tables, sumcheck_next_domain};
use expander_rs::prover::sumcheck_helper::{eq_table_of, output_weights_of, sum_rounds};
use expander_rs::verify::{
    degree_2_eval, eq_eval_at, eval_sparse_circuit_connect_poly, lagrange_eval,
    sumcheck_verify_gkr_layer,
};
use expander_rs::{
    eq_evals_at_primitive, gkr_prove, gkr_verify, merge_multilinear_evals,
    sumcheck_prove_gkr_layer, Circuit, CircuitLayer, Config, Field, FieldArith, GateAdd, GateConst,
    GateMul, GkrScratchpad, Msn61, MultiLinearPoly, Proof, SumcheckGkrHelper, Transcript, Verifier,
};
use expander_rs::raw::RawCommitmentVerifier;
use rand::rngs::StdRng;
use rand::SeedableRng;

fn msn(v: u64) -> Msn61 {
    Msn61 { v }
}

fn layer() -> CircuitLayer<Msn61> {
    let mut l = CircuitLayer::default();
    l.input_var_num = 2;
    l.output_var_num = 1;
    l.mul.push(GateMul { i_ids: [0, 1], o_id: 0, coef: msn(2) });
    l.mul.push(GateMul { i_ids: [2, 3], o_id: 1, coef: msn(1) });
    l.add.push(GateAdd { i_ids: [3], o_id: 0, coef: msn(5) });
    l.const_.push(GateConst { i_ids: [], o_id: 1, coef: msn(11) });
    l
}

fn evaluated_circuit(input: &[u64]) -> Circuit<Msn61> {
    let mut circuit = Circuit::default();
    let mut l = layer();
    l.input_vals = MultiLinearPoly { var_num: 2, evals: input.iter().map(|v| msn(*v)).collect() };
    circuit.layers.push(l);
    circuit.evaluate();
    circuit
}

#[test]
fn equality_tables_exact_values() {
    let mut table = vec![msn(0); 4];
    eq_evals_at_primitive(&[msn(3), msn(5)], &msn(2), &mut table);
    // 2 (1-3)(1-5), 2 * 3 (1-5), 2 (1-3) 5, 2 * 3 * 5, index bit 0 going with the first variable
    let p = expander_rs::field::msn61_ext::MSN61_MOD;
    assert_eq!(table, vec![msn(16), msn(p - 24), msn(p - 20), msn(30)]);
    // at a vertex: the indicator of the vertex, scaled
    assert_eq!(eq_table_of(&[msn(1), msn(0)], &msn(7)), vec![msn(0), msn(7), msn(0), msn(0)]);
    assert_eq!(eq_table_of::<Msn61>(&[], &msn(7)), vec![msn(7)]);
    assert_eq!(
        output_weights_of(&[msn(1)], &[msn(0)], &msn(3), &msn(4)),
        vec![msn(4), msn(3)]
    );
}

#[test]
fn the_quadratic_through_three_values() {
    // 2 x^2 + 3 x + 1 takes 1, 6, 15 at 0, 1, 2
    let (p0, p1, p2) = (msn(1), msn(6), msn(15));
    assert_eq!(degree_2_eval(p0, p1, p2, msn(0)), msn(1));
    assert_eq!(degree_2_eval(p0, p1, p2, msn(1)), msn(6));
    assert_eq!(degree_2_eval(p0, p1, p2, msn(2)), msn(15));
    assert_eq!(degree_2_eval(p0, p1, p2, msn(5)), msn(66));
    assert_eq!(lagrange_eval(&p0, &p1, &p2, &msn(5)), msn(66));
    assert_eq!(lagrange_eval(&p0, &p1, &p2, &msn(0)), msn(1));
    assert_eq!(lagrange_eval(&p0, &p1, &p2, &msn(1)), msn(6));
    assert_eq!(lagrange_eval(&p0, &p1, &p2, &msn(2)), msn(15));
}

#[test]
fn round_sums_exact_values() {
    let v = vec![msn(1), msn(2), msn(3), msn(4)];
    let hg = vec![msn(5), msn(6), msn(7), msn(8)];
    let sums = sum_rounds(&v, &hg);
    // 1*5 + 3*7, 2*6 + 4*8, (4-1)(12-5) + (8-3)(16-7)
    assert_eq!(sums, (msn(26), msn(44), msn(66)));
    // at 0 and at 1 the round polynomial adds up to the sum of all products
    assert_eq!(sums.0.add(&sums.1), msn(1 * 5 + 2 * 6 + 3 * 7 + 4 * 8));
    assert_eq!(sum_rounds::<Msn61>(&vec![], &vec![]), (msn(0), msn(0), msn(0)));
    let mut table = vec![msn(1), msn(2), msn(3), msn(4)];
    sumcheck_next_domain(&mut table, 2, msn(10));
    assert_eq!(table, vec![msn(11), msn(13), msn(3), msn(4)]);
}

#[test]
fn wiring_polynomial_at_vertices_picks_the_gates() {
    let l = layer();
    // output wire 0 with weight 1: inputs 0 and 1 multiply into it
    let at = |x: u64, y: u64| {
        eval_sparse_circuit_connect_poly::<Msn61, 2>(
            &l.mul,
            &[msn(0)],
            &[msn(0)],
            msn(1),
            msn(0),
            &[vec![msn(x & 1), msn(x >> 1)], vec![msn(y & 1), msn(y >> 1)]],
        )
    };
    assert_eq!(at(0, 1), msn(2));
    assert_eq!(at(1, 0), msn(0));
    assert_eq!(at(2, 3), msn(0));
    // both claims on output wire 1, weights 3 and 4: wires (2, 3) multiply into wire 1
    let both = eval_sparse_circuit_connect_poly::<Msn61, 2>(
        &l.mul,
        &[msn(1)],
        &[msn(1)],
        msn(3),
        msn(4),
        &[vec![msn(0), msn(1)], vec![msn(1), msn(1)]],
    );
    assert_eq!(both, msn(7));
    let add = eval_sparse_circuit_connect_poly::<Msn61, 1>(
        &l.add,
        &[msn(0)],
        &[msn(0)],
        msn(1),
        msn(0),
        &[vec![msn(1), msn(1)]],
    );
    assert_eq!(add, msn(5));
    let constant = eval_sparse_circuit_connect_poly::<Msn61, 0>(
        &l.const_,
        &[msn(1)],
        &[msn(0)],
        msn(2),
        msn(9),
        &[],
    );
    assert_eq!(constant, msn(22));
    let none = eval_sparse_circuit_connect_poly::<Msn61, 0>(&[], &[], &[], msn(2), msn(9), &[]);
    assert_eq!(none, msn(0));
}

#[test]
fn equality_polynomial_at_a_point() {
    // at vertices: 1 where the points agree, 0 where they differ
    assert_eq!(eq_eval_at(&vec![msn(1), msn(0)], &vec![msn(1), msn(0)]), msn(1));
    assert_eq!(eq_eval_at(&vec![msn(1), msn(0)], &vec![msn(1), msn(1)]), msn(0));
    // (3 z + (1-3)(1-z)) at z = 2: 6 + 2
    assert_eq!(eq_eval_at(&vec![msn(3)], &vec![msn(2)]), msn(8));
    assert_eq!(eq_eval_at::<Msn61>(&vec![], &vec![]), msn(1));
    let table = combine_eq_tables::<Msn61>(&vec![vec![msn(0)], vec![msn(1)]], &msn(10), 1);
    // (eq(z0, x) * 10) + eq(z1, x)
    assert_eq!(table, vec![msn(10), msn(1)]);
}

#[test]
fn layer_evaluation_exact_values() {
    let circuit = evaluated_circuit(&[1, 2, 3, 4]);
    // out0 = 2 * 1 * 2 + 5 * 4, out1 = 3 * 4 + 11
    assert_eq!(circuit.layers[0].output_vals.evals, vec![msn(24), msn(23)]);
    assert_eq!(circuit.log_input_size(), 2);
    assert_eq!(circuit.layers[0].evaluate(&vec![msn(0); 4]), vec![msn(0), msn(11)]);
}

#[test]
fn helper_tables_and_claims() {
    let circuit = evaluated_circuit(&[1, 2, 3, 4]);
    let l = &circuit.layers[0];
    let sp = GkrScratchpad::<Msn61>::new(2, 1);
    // the claim on output wire 0 alone
    let mut helper = SumcheckGkrHelper::new(l, &[msn(0)], &[msn(0)], &msn(1), &msn(0), sp);
    helper.prepare_g_x_vals(l);
    assert_eq!(helper.sp.v_evals, vec![msn(1), msn(2), msn(3), msn(4)]);
    // input 0 is multiplied with input 1 into wire 0: 2 * in1; input 3 is added in: 5
    assert_eq!(helper.sp.hg_evals, vec![msn(4), msn(0), msn(0), msn(5)]);
    let evals = helper.poly_evals_at(0, 2);
    // the round polynomial sums to the output on wire 0
    assert_eq!(evals[0].add(&evals[1]), msn(24));
    helper.receive_challenge(l, 0, msn(0));
    helper.receive_challenge(l, 1, msn(0));
    assert_eq!(helper.rx, vec![msn(0), msn(0)]);
    assert_eq!(helper.vx_claim(), msn(1));
    helper.prepare_h_y_vals(l, msn(1));
    // with rx at vertex 0 only the product of inputs 0 and 1 is left: 1 * 2 at input 1
    assert_eq!(helper.sp.hg_evals, vec![msn(0), msn(2), msn(0), msn(0)]);
    helper.receive_challenge(l, 2, msn(1));
    helper.receive_challenge(l, 3, msn(0));
    assert_eq!(helper.ry, vec![msn(1), msn(0)]);
    assert_eq!(helper.vy_claim(), msn(2));
    let sp = helper.into_scratchpad();
    assert_eq!(sp.max_num_input_var, 2);
    assert_eq!(sp.max_num_output_var, 1);
}

#[test]
fn layer_sumcheck_round_trip() {
    let config = Config { num_repetitions: 1, ..Config::msn61_config() };
    let circuit = evaluated_circuit(&[3, 1, 4, 1]);
    let l = &circuit.layers[0];
    let out = &l.output_vals.evals;
    let rz0 = vec![vec![msn(12345)]];
    let rz1 = vec![vec![msn(67)]];
    let (alpha, beta) = (msn(1000), msn(2000));
    let v0 = MultiLinearPoly::<Msn61>::eval_multilinear(out, &rz0[0]);
    let v1 = MultiLinearPoly::<Msn61>::eval_multilinear(out, &rz1[0]);
    let mut sp = vec![GkrScratchpad::<Msn61>::new(2, 1)];
    let mut transcript = Transcript::new();
    let (rx, ry) =
        sumcheck_prove_gkr_layer(l, &rz0, &rz1, &alpha, &beta, &mut transcript, &mut sp, &config);
    assert_eq!(sp.len(), 1);
    assert_eq!(rx[0].len(), 2);
    assert_eq!(ry[0].len(), 2);
    // per round three elements, one claim after each phase
    assert_eq!(transcript.proof.bytes.len(), (4 * 3 + 2) * 8);

    let mut proof = Proof::from_bytes(transcript.proof.bytes.clone());
    let mut mirror = Transcript::new();
    let got = sumcheck_verify_gkr_layer(
        l,
        &rz0,
        &rz1,
        &vec![v0],
        &vec![v1],
        alpha,
        beta,
        &mut proof,
        &mut mirror,
        &config,
    )
    .unwrap();
    assert!(got.0);
    assert_eq!(got.1, rx);
    assert_eq!(got.2, ry);
    // the claims are the input's extension at the two points
    let input = &l.input_vals.evals;
    assert_eq!(got.3[0], MultiLinearPoly::<Msn61>::eval_multilinear(input, &rx[0]));
    assert_eq!(got.4[0], MultiLinearPoly::<Msn61>::eval_multilinear(input, &ry[0]));
    assert_eq!(proof.position(), proof.bytes.len());
    assert_eq!(mirror.proof.bytes, transcript.proof.bytes);

    // a wrong claim on the output fails the checks, a short proof the reading
    let mut proof = Proof::from_bytes(transcript.proof.bytes.clone());
    let mut mirror = Transcript::new();
    let wrong = sumcheck_verify_gkr_layer(
        l,
        &rz0,
        &rz1,
        &vec![v0.add(&msn(1))],
        &vec![v1],
        alpha,
        beta,
        &mut proof,
        &mut mirror,
        &config,
    )
    .unwrap();
    assert!(!wrong.0);
    let mut short = Proof::from_bytes(transcript.proof.bytes[..50].to_vec());
    let mut mirror = Transcript::new();
    assert!(sumcheck_verify_gkr_layer(
        l,
        &rz0,
        &rz1,
        &vec![v0],
        &vec![v1],
        alpha,
        beta,
        &mut short,
        &mut mirror,
        &config
    )
    .is_none());
}

#[test]
fn reduction_round_trip() {
    let config = Config { num_repetitions: 1, ..Config::msn61_config() };
    let circuit = evaluated_circuit(&[2, 7, 1, 8]);
    let mut sp = vec![GkrScratchpad::<Msn61>::new(2, 1)];
    let mut transcript = Transcript::new();
    let (claimed_v, rz0, rz1) = gkr_prove(&circuit, &mut sp, &mut transcript, &config);
    let mut proof = Proof::from_bytes(transcript.proof.bytes.clone());
    let mut mirror = Transcript::new();
    let got = gkr_verify(&circuit, &claimed_v, &mut mirror, &mut proof, &config).unwrap();
    assert!(got.0);
    assert_eq!(got.1, rz0);
    assert_eq!(got.2, rz1);
    assert_eq!(mirror.digest, transcript.digest);
    let input = &circuit.layers[0].input_vals.evals;
    assert_eq!(got.3[0], MultiLinearPoly::<Msn61>::eval_multilinear(input, &rz0[0]));
    assert_eq!(got.4[0], MultiLinearPoly::<Msn61>::eval_multilinear(input, &rz1[0]));
}

#[test]
fn merging_round_trip() {
    let mut rng = StdRng::seed_from_u64(0x6d65_7267);
    let evals: Vec<Msn61> = (0..8).map(|_| Msn61::random_unsafe(&mut rng)).collect();
    let zs: Vec<Vec<Msn61>> =
        (0..3).map(|_| (0..3).map(|_| Msn61::random_unsafe(&mut rng)).collect()).collect();
    let ys: Vec<Msn61> =
        zs.iter().map(|z| MultiLinearPoly::<Msn61>::eval_multilinear(&evals, z)).collect();
    let mut transcript = Transcript::new();
    transcript.append_u8_slice(&[1, 2, 3], 3);
    let poly = MultiLinearPoly { var_num: 3, evals: evals.clone() };
    let new_point = merge_multilinear_evals(poly, zs.clone(), &mut transcript);
    assert_eq!(new_point.len(), 3);
    // three elements per round
    assert_eq!(transcript.proof.bytes.len(), 3 + 3 * 3 * 8);

    let mut mirror = Transcript::new();
    mirror.append_u8_slice(&[1, 2, 3], 3);
    let mut proof = Proof::from_bytes(transcript.proof.bytes.clone());
    proof.step(3);
    let (point, claim) = Verifier::<Msn61, RawCommitmentVerifier<Msn61>>::merge_evals(
        zs.clone(),
        &ys,
        &mut mirror,
        &mut proof,
    )
    .unwrap();
    assert_eq!(point, new_point);
    assert_eq!(claim, MultiLinearPoly::<Msn61>::eval_multilinear_ext(&evals, &point));

    // a wrong claim does not sum up, a short proof cannot be read
    let mut mirror = Transcript::new();
    mirror.append_u8_slice(&[1, 2, 3], 3);
    let mut proof = Proof::from_bytes(transcript.proof.bytes.clone());
    proof.step(3);
    let mut wrong = ys.clone();
    wrong[1] = wrong[1].add(&msn(1));
    assert!(Verifier::<Msn61, RawCommitmentVerifier<Msn61>>::merge_evals(
        zs.clone(),
        &wrong,
        &mut mirror,
        &mut proof
    )
    .is_none());
    let mut mirror = Transcript::new();
    mirror.append_u8_slice(&[1, 2, 3], 3);
    let mut short = Proof::from_bytes(transcript.proof.bytes[..30].to_vec());
    short.step(3);
    assert!(Verifier::<Msn61, RawCommitmentVerifier<Msn61>>::merge_evals(
        zs,
        &ys,
        &mut mirror,
        &mut short
    )
    .is_none());
}
