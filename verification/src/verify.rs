//! The whole verifier: it mirrors the prover's transcript from the proof,
//! checks the sumcheck of every layer and the merging of the claims on the
//! input, and has the commitment scheme check the merged claim.
use crate::circuit::{pow2_usize, Circuit, CircuitLayer, Gate};
use crate::config::Config;
use crate::field::algebra::{
    field_sub, lemma_add_interchange, lemma_add_sub_cancel, lemma_mul_swap, lemma_mul_two,
    lemma_mul_zero, lemma_one_mul, lemma_small_differences, lemma_sub_add_cancel,
    lemma_sub_chain, lemma_zero_add, two,
};
use crate::field::{pow2, Field, FieldArith, FieldSerde};
use crate::poly::all_wf;
use crate::poly_commit::{CommitmentSerde, PolyCommitVerifier};
use crate::prover::gkr::{draw_points, draw_points_from, empty_points, push_coordinate, zero_points};
use crate::prover::gkr::layers_have_inputs;
use crate::prover::linear_gkr::{grind, grind_transcript};
use crate::prover::proof_buffer::{read_field, read_slice, Proof};
use crate::prover::sumcheck::{points_wf, send_round, vec_views};
use crate::prover::sumcheck_helper::{
    eq_scaled, eq_table, eq_table_of, lemma_eq_scaled_wf, output_weights, output_weights_of, zeros,
};
use crate::transcript::{Transcript, TranscriptState};
use vstd::prelude::*;
use vstd::slice::slice_to_vec;

verus! {

/// The value at `x` of the polynomial of degree 2 that takes the values
/// `p0`, `p1`, `p2` at 0, 1, 2: with `c2 = (p2 - 2 p1 + p0) / 2` and
/// `c1 = p1 - p0 - c2`, it is `p0 + (c2 x + c1) x`.
pub open spec fn quadratic_at<F: Field>(p0: F, p1: F, p2: F, x: F::BaseField) -> F {
    let c2 = F::spec_inv_2().spec_mul(field_sub(field_sub(p2, p1), p1).spec_add(p0));
    let c1 = field_sub(field_sub(p1, p0), c2);
    p0.spec_add(c2.spec_mul(F::spec_from_base(x)).spec_add(c1).spec_mul(F::spec_from_base(x)))
}

/// The polynomial passes through `p0` at 0 and through `p1` at 1.
pub proof fn lemma_quadratic_at_zero_and_one<F: Field>(p0: F, p1: F, p2: F)
    requires
        p0.wf(),
        p1.wf(),
        p2.wf(),
    ensures
        quadratic_at(p0, p1, p2, F::BaseField::spec_zero()) == p0,
        quadratic_at(p0, p1, p2, F::BaseField::spec_one()) == p1,
{
    let zero = F::BaseField::spec_zero();
    let one = F::BaseField::spec_one();
    F::BaseField::lemma_constants_wf();
    F::lemma_constants_wf();
    F::lemma_from_base_homomorphism(zero, one);
    let e = field_sub(field_sub(p2, p1), p1).spec_add(p0);
    let c2 = F::spec_inv_2().spec_mul(e);
    let d = field_sub(p1, p0);
    let c1 = field_sub(d, c2);
    F::lemma_closed(p2, p1);
    F::lemma_closed(p1, p0);
    F::lemma_closed(p2, p1.spec_neg());
    F::lemma_closed(field_sub(p2, p1), p1.spec_neg());
    F::lemma_closed(field_sub(field_sub(p2, p1), p1), p0);
    F::lemma_closed(F::spec_inv_2(), e);
    F::lemma_closed(p0, p0);
    F::lemma_closed(p1, p0.spec_neg());
    F::lemma_closed(c2, c2);
    F::lemma_closed(d, c2.spec_neg());
    // at 0: everything but p0 is multiplied by zero
    F::lemma_closed(c2, F::spec_zero());
    F::lemma_closed(c2.spec_mul(F::spec_zero()), c1);
    lemma_mul_zero(c2.spec_mul(F::spec_zero()).spec_add(c1));
    F::lemma_add_zero(p0);
    // at 1: p0 + (c2 + c1) = p0 + (p1 - p0) = p1
    F::lemma_mul_one(c2);
    F::lemma_closed(c2, c1);
    F::lemma_mul_one(c2.spec_add(c1));
    lemma_add_sub_cancel(c2, d);
    lemma_add_sub_cancel(p0, p1);
}

/// The polynomial passes through `p2` at 2.
pub proof fn lemma_quadratic_at_two<F: Field>(p0: F, p1: F, p2: F)
    requires
        p0.wf(),
        p1.wf(),
        p2.wf(),
    ensures
        quadratic_at(
            p0,
            p1,
            p2,
            F::BaseField::spec_one().spec_add(F::BaseField::spec_one()),
        ) == p2,
{
    let one_b = F::BaseField::spec_one();
    F::BaseField::lemma_constants_wf();
    F::lemma_constants_wf();
    F::lemma_from_base_homomorphism(one_b, one_b);
    let t = two::<F>();
    assert(F::spec_from_base(one_b.spec_add(one_b)) == t);
    let b = field_sub(p2, p1);
    let d = field_sub(p1, p0);
    let e = field_sub(b, p1).spec_add(p0);
    let c2 = F::spec_inv_2().spec_mul(e);
    let c1 = field_sub(d, c2);
    F::lemma_closed(p2, p1);
    F::lemma_closed(p1, p0);
    F::lemma_closed(p0, p1);
    F::lemma_closed(p2, p1.spec_neg());
    F::lemma_closed(p1, p0.spec_neg());
    F::lemma_closed(b, p1.spec_neg());
    F::lemma_closed(field_sub(b, p1), p0);
    F::lemma_closed(F::spec_inv_2(), e);
    F::lemma_closed(c2, c2);
    F::lemma_closed(d, c2.spec_neg());
    F::lemma_closed(c2, d);
    F::lemma_closed(d, d);
    lemma_mul_two(c2);
    lemma_mul_two(c2.spec_add(d));
    // c2 * 2 = (inv_2 * 2) * e = e, so e = c2 + c2
    lemma_mul_swap(F::spec_inv_2(), e, t);
    lemma_one_mul(e);
    // (c2 + c2) + (d - c2) = (c2 + d) + (c2 - c2) = c2 + d
    lemma_add_interchange(c2, c2, d, c2.spec_neg());
    F::lemma_add_neg(c2);
    F::lemma_add_zero(c2.spec_add(d));
    // (c2 + d) * 2 = (c2 + c2) + (d + d) = e + (d + d)
    lemma_add_interchange(c2, d, c2, d);
    // e + (d + d) = ((b - p1) + d) + (p0 + d) = (b - p0) + p1
    lemma_add_interchange(field_sub(b, p1), p0, d, d);
    lemma_sub_chain(b, p1, p0);
    lemma_add_sub_cancel(p0, p1);
    // p0 + ((b - p0) + p1) = p0 + ((b + p1) - p0) = b + p1 = p2
    F::lemma_closed(b, p0.spec_neg());
    F::lemma_closed(b, p1);
    F::lemma_add_associative(b, p0.spec_neg(), p1);
    F::lemma_add_commutative(p0.spec_neg(), p1);
    F::lemma_add_associative(b, p1, p0.spec_neg());
    lemma_add_sub_cancel(p0, b.spec_add(p1));
    lemma_sub_add_cancel(p2, p1);
}

/// The value at `x` of the polynomial of degree 2 through `p0`, `p1`, `p2`.
pub fn degree_2_eval<F: Field>(p0: F, p1: F, p2: F, x: F::BaseField) -> (r: F)
    requires
        p0.wf(),
        p1.wf(),
        p2.wf(),
        x.wf(),
    ensures
        r == quadratic_at(p0, p1, p2, x),
        r.wf(),
{
    let c2 = F::inv_2().mul(&p2.sub(&p1).sub(&p1).add(&p0));
    let c1 = p1.sub(&p0).sub(&c2);
    p0.add(&c2.mul_base_elem(&x).add(&c1).mul_base_elem(&x))
}

/// The weight of a gate at the points `ris` of its first `k` inputs: the
/// weight of its output wire times, for each of those inputs, the equality
/// polynomial of the input's point at the input's index.
pub open spec fn gate_weight<F: Field, const INPUT_NUM: usize>(
    g: Gate<F, INPUT_NUM>,
    weights: Seq<F::BaseField>,
    ris: Seq<Seq<F::BaseField>>,
    k: nat,
) -> F::BaseField
    decreases k,
{
    if k == 0 {
        weights[g.o_id as int]
    } else {
        gate_weight(g, weights, ris, (k - 1) as nat).spec_mul(
            eq_scaled(ris[k - 1], F::BaseField::spec_one(), g.i_ids[k - 1] as int),
        )
    }
}

/// The wiring polynomial of a list of gates at the points `ris`, for the
/// output weights `weights`: the sum over the gates of their weight times
/// their coefficient.
pub open spec fn connect_sum<F: Field, const INPUT_NUM: usize>(
    gates: Seq<Gate<F, INPUT_NUM>>,
    weights: Seq<F::BaseField>,
    ris: Seq<Seq<F::BaseField>>,
) -> F::BaseField
    decreases gates.len(),
{
    if gates.len() == 0 {
        F::BaseField::spec_zero()
    } else {
        connect_sum(gates.drop_last(), weights, ris).spec_add(
            gate_weight(gates.last(), weights, ris, INPUT_NUM as nat).spec_mul(gates.last().coef),
        )
    }
}

/// The wiring polynomial of a list of gates: with `eq` the equality
/// polynomial, the sum over the gates of
/// `coef * (alpha * eq(rz0, o) + beta * eq(rz1, o)) * prod_k eq(ris[k], i_k)`.
pub open spec fn connect_poly<F: Field, const INPUT_NUM: usize>(
    gates: Seq<Gate<F, INPUT_NUM>>,
    rz0: Seq<F::BaseField>,
    rz1: Seq<F::BaseField>,
    alpha: F::BaseField,
    beta: F::BaseField,
    ris: Seq<Seq<F::BaseField>>,
) -> F::BaseField {
    connect_sum(gates, output_weights(rz0, rz1, alpha, beta), ris)
}

/// The gates name wires that exist: output wires among `2^out_vars`, and
/// input `k` among `2^|ris[k]|`; their coefficients are canonical.
pub open spec fn gates_fit<F: Field, const INPUT_NUM: usize>(
    gates: Seq<Gate<F, INPUT_NUM>>,
    out_vars: nat,
    ris: Seq<Seq<F::BaseField>>,
) -> bool {
    forall|m: int|
        0 <= m < gates.len() ==> (#[trigger] gates[m]).coef.wf() && gates[m].o_id < pow2(out_vars)
            && forall|k: int|
            0 <= k < INPUT_NUM ==> (#[trigger] gates[m].i_ids[k]) < pow2(ris[k].len())
}

/// The weight of a gate is canonical.
pub proof fn lemma_gate_weight_wf<F: Field, const INPUT_NUM: usize>(
    g: Gate<F, INPUT_NUM>,
    weights: Seq<F::BaseField>,
    ris: Seq<Seq<F::BaseField>>,
    k: nat,
)
    requires
        k <= INPUT_NUM,
        all_wf(weights),
        g.o_id < weights.len(),
        ris.len() == INPUT_NUM,
        forall|m: int| 0 <= m < ris.len() ==> all_wf(#[trigger] ris[m]),
    ensures
        gate_weight(g, weights, ris, k).wf(),
    decreases k,
{
    if k > 0 {
        lemma_gate_weight_wf(g, weights, ris, (k - 1) as nat);
        F::BaseField::lemma_constants_wf();
        assert(all_wf(ris[k - 1]));
        lemma_eq_scaled_wf(ris[k - 1], F::BaseField::spec_one(), g.i_ids[k - 1] as int);
        F::BaseField::lemma_closed(
            gate_weight(g, weights, ris, (k - 1) as nat),
            eq_scaled(ris[k - 1], F::BaseField::spec_one(), g.i_ids[k - 1] as int),
        );
    } else {
        assert(weights[g.o_id as int].wf());
    }
}

/// The wiring polynomial of `gates` at the points `ris` of their inputs, for
/// the claim on the output at `rz0` and `rz1`, weighted by `alpha` and
/// `beta`.
pub fn eval_sparse_circuit_connect_poly<F: Field, const INPUT_NUM: usize>(
    gates: &[Gate<F, INPUT_NUM>],
    rz0: &[F::BaseField],
    rz1: &[F::BaseField],
    alpha: F::BaseField,
    beta: F::BaseField,
    ris: &[Vec<F::BaseField>],
) -> (v: F::BaseField)
    requires
        rz0@.len() == rz1@.len() < 32,
        all_wf(rz0@),
        all_wf(rz1@),
        alpha.wf(),
        beta.wf(),
        ris@.len() == INPUT_NUM,
        forall|k: int| 0 <= k < ris@.len() ==> (#[trigger] ris@[k])@.len() < 32 && all_wf(ris@[k]@),
        gates_fit(gates@, rz0@.len(), vec_views(ris@)),
    ensures
        v == connect_poly(gates@, rz0@, rz1@, alpha, beta, vec_views(ris@)),
        v.wf(),
{
    let weights = output_weights_of(rz0, rz1, &alpha, &beta);
    let one = F::BaseField::one();
    let mut eq_evals_at_ris: Vec<Vec<F::BaseField>> = Vec::new();
    let mut i: usize = 0;
    while i < INPUT_NUM
        invariant
            i <= INPUT_NUM == ris@.len(),
            one == F::BaseField::spec_one(),
            one.wf(),
            forall|k: int|
                0 <= k < ris@.len() ==> (#[trigger] ris@[k])@.len() < 32 && all_wf(ris@[k]@),
            eq_evals_at_ris@.len() == i,
            forall|k: int|
                0 <= k < i ==> (#[trigger] eq_evals_at_ris@[k])@ == eq_table(
                    ris@[k]@,
                    F::BaseField::spec_one(),
                ) && all_wf(eq_evals_at_ris@[k]@),
        decreases INPUT_NUM - i,
    {
        proof {
            assert(ris@[i as int]@.len() < 32 && all_wf(ris@[i as int]@));
        }
        eq_evals_at_ris.push(eq_table_of(ris[i].as_slice(), &one));
        i += 1;
    }
    let ghost points = vec_views(ris@);
    let mut v = F::BaseField::zero();
    let mut m: usize = 0;
    proof {
        assert(gates@.subrange(0, 0) =~= Seq::<Gate<F, INPUT_NUM>>::empty());
    }
    while m < gates.len()
        invariant
            m <= gates@.len(),
            points == vec_views(ris@),
            ris@.len() == INPUT_NUM,
            gates_fit(gates@, rz0@.len(), points),
            weights@ == output_weights(rz0@, rz1@, alpha, beta),
            all_wf(weights@),
            forall|k: int| 0 <= k < ris@.len() ==> all_wf(#[trigger] points[k]),
            eq_evals_at_ris@.len() == INPUT_NUM,
            forall|k: int|
                0 <= k < INPUT_NUM ==> (#[trigger] eq_evals_at_ris@[k])@ == eq_table(
                    ris@[k]@,
                    F::BaseField::spec_one(),
                ) && all_wf(eq_evals_at_ris@[k]@),
            v.wf(),
            v == connect_sum(gates@.subrange(0, m as int), weights@, points),
        decreases gates@.len() - m,
    {
        let g = &gates[m];
        proof {
            assert(gates@.subrange(0, m + 1).drop_last() =~= gates@.subrange(0, m as int));
            assert(gates@.subrange(0, m + 1).last() == gates@[m as int]);
            assert(gates@[m as int].o_id < pow2(rz0@.len()));
            assert(weights@[g.o_id as int].wf());
        }
        let mut prod = weights[g.o_id];
        let mut k: usize = 0;
        while k < INPUT_NUM
            invariant
                k <= INPUT_NUM == ris@.len(),
                points == vec_views(ris@),
                *g == gates@[m as int],
                m < gates@.len(),
                gates_fit(gates@, rz0@.len(), points),
                all_wf(weights@),
                forall|q: int| 0 <= q < ris@.len() ==> all_wf(#[trigger] points[q]),
                g.o_id < weights@.len(),
                eq_evals_at_ris@.len() == INPUT_NUM,
                forall|q: int|
                    0 <= q < INPUT_NUM ==> (#[trigger] eq_evals_at_ris@[q])@ == eq_table(
                        ris@[q]@,
                        F::BaseField::spec_one(),
                    ) && all_wf(eq_evals_at_ris@[q]@),
                prod.wf(),
                prod == gate_weight(*g, weights@, points, k as nat),
            decreases INPUT_NUM - k,
        {
            proof {
                assert(gates@[m as int].i_ids[k as int] < pow2(points[k as int].len()));
                assert(points[k as int] == ris@[k as int]@);
                assert(eq_evals_at_ris@[k as int]@ == eq_table(
                    ris@[k as int]@,
                    F::BaseField::spec_one(),
                ));
                assert(eq_evals_at_ris@[k as int]@[g.i_ids[k as int] as int].wf());
            }
            prod = prod.mul(&eq_evals_at_ris[k][g.i_ids[k]]);
            k += 1;
        }
        v = v.add(&prod.mul(&g.coef));
        m += 1;
    }
    proof {
        assert(gates@.subrange(0, gates@.len() as int) =~= gates@);
    }
    v
}

/// The verifier's state in the sumcheck of one layer, as mathematical
/// values: for each repetition the running claim, the challenges of the two
/// phases and the claim on the input at `rx`; and whether every check so
/// far has held.
pub struct LayerCheck<F: Field> {
    pub sum: Seq<F>,
    pub rx: Seq<Seq<F::BaseField>>,
    pub ry: Seq<Seq<F::BaseField>>,
    pub vx_claim: Seq<F>,
    pub verified: bool,
}

/// The verifier's state in the sumcheck of one layer.
pub struct LayerCheckState<F: Field> {
    pub sum: Vec<F>,
    pub rx: Vec<Vec<F::BaseField>>,
    pub ry: Vec<Vec<F::BaseField>>,
    pub vx_claim: Vec<F>,
    pub verified: bool,
}

impl<F: Field> View for LayerCheckState<F> {
    type V = LayerCheck<F>;

    open spec fn view(&self) -> LayerCheck<F> {
        LayerCheck {
            sum: self.sum@,
            rx: vec_views(self.rx@),
            ry: vec_views(self.ry@),
            vx_claim: self.vx_claim@,
            verified: self.verified,
        }
    }
}

/// What the sumcheck of one layer yields to the verifier.
pub struct LayerOutcome<F: Field> {
    /// Whether every check held.
    pub verified: bool,
    pub rx: Seq<Seq<F::BaseField>>,
    pub ry: Seq<Seq<F::BaseField>>,
    /// The claims on the input at `rx`.
    pub vx_claim: Seq<F>,
    /// The claims on the input at `ry`.
    pub vy_claim: Seq<F>,
    pub t: TranscriptState,
    pub cursor: nat,
}

/// The claim that the sumcheck of a layer starts from: the two claims on
/// the output, weighted, less what the constant gates contribute.
pub open spec fn initial_sum<F: Field>(
    layer: CircuitLayer<F>,
    rz0: Seq<F::BaseField>,
    rz1: Seq<F::BaseField>,
    v0: F,
    v1: F,
    alpha: F::BaseField,
    beta: F::BaseField,
) -> F {
    field_sub(
        v0.spec_mul(F::spec_from_base(alpha)).spec_add(v1.spec_mul(F::spec_from_base(beta))),
        F::spec_one().spec_mul(
            F::spec_from_base(connect_poly(layer.const_@, rz0, rz1, alpha, beta, Seq::empty())),
        ),
    )
}

/// The running claim after the first phase: less the claim on the input at
/// `rx` times the wiring polynomial of the addition gates there.
pub open spec fn after_first_phase<F: Field>(
    layer: CircuitLayer<F>,
    rz0: Seq<F::BaseField>,
    rz1: Seq<F::BaseField>,
    alpha: F::BaseField,
    beta: F::BaseField,
    sum: F,
    vx: F,
    rx: Seq<F::BaseField>,
) -> F {
    field_sub(
        sum,
        vx.spec_mul(F::spec_from_base(connect_poly(layer.add@, rz0, rz1, alpha, beta, seq![rx]))),
    )
}

/// What the running claim must be in the end: the two claims on the input
/// times the wiring polynomial of the multiplication gates at their points.
pub open spec fn final_product<F: Field>(
    layer: CircuitLayer<F>,
    rz0: Seq<F::BaseField>,
    rz1: Seq<F::BaseField>,
    alpha: F::BaseField,
    beta: F::BaseField,
    vx: F,
    vy: F,
    rx: Seq<F::BaseField>,
    ry: Seq<F::BaseField>,
) -> F {
    vx.spec_mul(
        vy.spec_mul(
            F::spec_from_base(connect_poly(layer.mul@, rz0, rz1, alpha, beta, seq![rx, ry])),
        ),
    )
}

/// One round of one repetition, as the verifier sees it: it reads the round
/// polynomial, draws the challenge, checks the polynomial against the
/// running claim and moves the claim; the round that ends the first phase
/// also reads the claim on the input at `rx`. `None` where the proof runs
/// out or holds an encoding that is not canonical.
pub open spec fn check_round<F: Field>(
    layer: CircuitLayer<F>,
    rz0: Seq<F::BaseField>,
    rz1: Seq<F::BaseField>,
    alpha: F::BaseField,
    beta: F::BaseField,
    s: LayerCheck<F>,
    i_var: int,
    j: int,
    t: TranscriptState,
    bytes: Seq<u8>,
    cursor: nat,
) -> Option<(LayerCheck<F>, TranscriptState, nat)> {
    let size = F::spec_size();
    match read_field::<F>(bytes, cursor) {
        None => None,
        Some(p0) => match read_field::<F>(bytes, cursor + size) {
            None => None,
            Some(p1) => match read_field::<F>(bytes, cursor + 2 * size) {
                None => None,
                Some(p2) => {
                    let sent = send_round(t, (p0, p1, p2));
                    let r = sent.challenge_f::<F>();
                    let first = i_var < layer.input_var_num;
                    let rx = if first {
                        s.rx.update(j, s.rx[j].push(r))
                    } else {
                        s.rx
                    };
                    let ry = if first {
                        s.ry
                    } else {
                        s.ry.update(j, s.ry[j].push(r))
                    };
                    let verified = s.verified && p0.spec_add(p1) == s.sum[j];
                    let moved = quadratic_at(p0, p1, p2, r);
                    if i_var == layer.input_var_num - 1 {
                        match read_field::<F>(bytes, cursor + 3 * size) {
                            None => None,
                            Some(vx) => Some(
                                (
                                    LayerCheck {
                                        sum: s.sum.update(
                                            j,
                                            after_first_phase(
                                                layer,
                                                rz0,
                                                rz1,
                                                alpha,
                                                beta,
                                                moved,
                                                vx,
                                                rx[j],
                                            ),
                                        ),
                                        rx,
                                        ry,
                                        vx_claim: s.vx_claim.update(j, vx),
                                        verified,
                                    },
                                    sent.squeeze().append(vx.spec_serialize()),
                                    cursor + 4 * size,
                                ),
                            ),
                        }
                    } else {
                        Some(
                            (
                                LayerCheck {
                                    sum: s.sum.update(j, moved),
                                    rx,
                                    ry,
                                    vx_claim: s.vx_claim,
                                    verified,
                                },
                                sent.squeeze(),
                                cursor + 3 * size,
                            ),
                        )
                    }
                },
            },
        },
    }
}

/// The state after the rounds from round `i_var` of repetition `j` on.
pub open spec fn check_rounds_from<F: Field>(
    layer: CircuitLayer<F>,
    rz0: Seq<Seq<F::BaseField>>,
    rz1: Seq<Seq<F::BaseField>>,
    alpha: F::BaseField,
    beta: F::BaseField,
    s: LayerCheck<F>,
    i_var: nat,
    j: nat,
    t: TranscriptState,
    bytes: Seq<u8>,
    cursor: nat,
) -> Option<(LayerCheck<F>, TranscriptState, nat)>
    decreases 2 * layer.input_var_num - i_var, rz0.len() - j,
{
    if i_var >= 2 * layer.input_var_num {
        Some((s, t, cursor))
    } else if j >= rz0.len() {
        check_rounds_from(layer, rz0, rz1, alpha, beta, s, i_var + 1, 0, t, bytes, cursor)
    } else {
        match check_round(
            layer,
            rz0[j as int],
            rz1[j as int],
            alpha,
            beta,
            s,
            i_var as int,
            j as int,
            t,
            bytes,
            cursor,
        ) {
            None => None,
            Some((next, sent, after)) => check_rounds_from(
                layer,
                rz0,
                rz1,
                alpha,
                beta,
                next,
                i_var,
                j + 1,
                sent,
                bytes,
                after,
            ),
        }
    }
}

/// The outcome after the claims on the input at `ry` of the repetitions
/// `j ..` were read and the final check of each was made.
pub open spec fn check_vy_from<F: Field>(
    layer: CircuitLayer<F>,
    rz0: Seq<Seq<F::BaseField>>,
    rz1: Seq<Seq<F::BaseField>>,
    alpha: F::BaseField,
    beta: F::BaseField,
    s: LayerCheck<F>,
    j: nat,
    verified: bool,
    vy: Seq<F>,
    t: TranscriptState,
    bytes: Seq<u8>,
    cursor: nat,
) -> Option<LayerOutcome<F>>
    decreases rz0.len() - j,
{
    if j >= rz0.len() {
        Some(
            LayerOutcome { verified, rx: s.rx, ry: s.ry, vx_claim: s.vx_claim, vy_claim: vy, t, cursor },
        )
    } else {
        match read_field::<F>(bytes, cursor) {
            None => None,
            Some(v) => check_vy_from(
                layer,
                rz0,
                rz1,
                alpha,
                beta,
                s,
                j + 1,
                verified && s.sum[j as int] == final_product(
                    layer,
                    rz0[j as int],
                    rz1[j as int],
                    alpha,
                    beta,
                    s.vx_claim[j as int],
                    v,
                    s.rx[j as int],
                    s.ry[j as int],
                ),
                vy.push(v),
                t.append(v.spec_serialize()),
                bytes,
                cursor + F::spec_size(),
            ),
        }
    }
}

/// The state that the sumcheck of a layer starts from.
pub open spec fn start_check<F: Field>(
    layer: CircuitLayer<F>,
    rz0: Seq<Seq<F::BaseField>>,
    rz1: Seq<Seq<F::BaseField>>,
    claimed_v0: Seq<F>,
    claimed_v1: Seq<F>,
    alpha: F::BaseField,
    beta: F::BaseField,
) -> LayerCheck<F> {
    LayerCheck {
        sum: Seq::new(
            rz0.len(),
            |j: int| initial_sum(layer, rz0[j], rz1[j], claimed_v0[j], claimed_v1[j], alpha, beta),
        ),
        rx: empty_points(rz0.len()),
        ry: empty_points(rz0.len()),
        vx_claim: Seq::new(rz0.len(), |j: int| F::spec_zero()),
        verified: true,
    }
}

/// The outcome of the sumcheck of one layer, for the claims `claimed_v0`
/// and `claimed_v1` on its output at `rz0` and `rz1`.
pub open spec fn verify_layer<F: Field>(
    layer: CircuitLayer<F>,
    rz0: Seq<Seq<F::BaseField>>,
    rz1: Seq<Seq<F::BaseField>>,
    claimed_v0: Seq<F>,
    claimed_v1: Seq<F>,
    alpha: F::BaseField,
    beta: F::BaseField,
    t: TranscriptState,
    bytes: Seq<u8>,
    cursor: nat,
) -> Option<LayerOutcome<F>> {
    match check_rounds_from(
        layer,
        rz0,
        rz1,
        alpha,
        beta,
        start_check(layer, rz0, rz1, claimed_v0, claimed_v1, alpha, beta),
        0,
        0,
        t,
        bytes,
        cursor,
    ) {
        None => None,
        Some((s, sent, after)) => check_vy_from(
            layer,
            rz0,
            rz1,
            alpha,
            beta,
            s,
            0,
            s.verified,
            Seq::empty(),
            sent,
            bytes,
            after,
        ),
    }
}

/// Repetition `k` has been through `rounds` rounds: its points have the
/// lengths that go with that, and its values are canonical.
pub open spec fn rep_ready<F: Field>(s: LayerCheck<F>, n: int, k: int, rounds: int) -> bool {
    &&& s.rx[k].len() == (if rounds < n {
        rounds
    } else {
        n
    })
    &&& s.ry[k].len() == (if rounds < n {
        0
    } else {
        rounds - n
    })
    &&& all_wf(s.rx[k])
    &&& all_wf(s.ry[k])
    &&& s.sum[k].wf()
    &&& s.vx_claim[k].wf()
}

/// The state holds `reps` repetitions.
pub open spec fn check_sized<F: Field>(s: LayerCheck<F>, reps: int) -> bool {
    s.sum.len() == reps && s.rx.len() == reps && s.ry.len() == reps && s.vx_claim.len() == reps
}

/// The constant gates of a well-formed layer fit any output point.
pub proof fn lemma_const_gates_fit<F: Field>(layer: CircuitLayer<F>)
    requires
        layer.gates_wf(),
    ensures
        gates_fit(layer.const_@, layer.output_var_num as nat, Seq::empty()),
{
    assert forall|m: int| 0 <= m < layer.const_@.len() implies (
    #[trigger] layer.const_@[m]).coef.wf() && layer.const_@[m].o_id < pow2(
        layer.output_var_num as nat,
    ) && forall|k: int| 0 <= k < 0 ==> (#[trigger] layer.const_@[m].i_ids[k]) < pow2(
        Seq::<Seq<F::BaseField>>::empty()[k].len(),
    ) by {}
}

/// The addition gates of a well-formed layer fit any input point.
pub proof fn lemma_add_gates_fit<F: Field>(layer: CircuitLayer<F>, rx: Seq<F::BaseField>)
    requires
        layer.gates_wf(),
        rx.len() == layer.input_var_num,
    ensures
        gates_fit(layer.add@, layer.output_var_num as nat, seq![rx]),
{
    assert forall|m: int| 0 <= m < layer.add@.len() implies (#[trigger] layer.add@[m]).coef.wf()
        && layer.add@[m].o_id < pow2(layer.output_var_num as nat) && forall|k: int|
        0 <= k < 1 ==> (#[trigger] layer.add@[m].i_ids[k]) < pow2(seq![rx][k].len()) by {
        assert(layer.add@[m].i_ids[0] < pow2(layer.input_var_num as nat));
    }
}

/// The multiplication gates of a well-formed layer fit any two input
/// points.
pub proof fn lemma_mul_gates_fit<F: Field>(
    layer: CircuitLayer<F>,
    rx: Seq<F::BaseField>,
    ry: Seq<F::BaseField>,
)
    requires
        layer.gates_wf(),
        rx.len() == layer.input_var_num,
        ry.len() == layer.input_var_num,
    ensures
        gates_fit(layer.mul@, layer.output_var_num as nat, seq![rx, ry]),
{
    assert forall|m: int| 0 <= m < layer.mul@.len() implies (#[trigger] layer.mul@[m]).coef.wf()
        && layer.mul@[m].o_id < pow2(layer.output_var_num as nat) && forall|k: int|
        0 <= k < 2 ==> (#[trigger] layer.mul@[m].i_ids[k]) < pow2(seq![rx, ry][k].len()) by {
        assert(layer.mul@[m].i_ids[0] < pow2(layer.input_var_num as nat));
        assert(layer.mul@[m].i_ids[1] < pow2(layer.input_var_num as nat));
    }
}

/// Runs round `i_var` for repetition `j`. Fails where the proof runs out
/// or holds an encoding that is not canonical.
pub fn check_one_round<F: Field>(
    layer: &CircuitLayer<F>,
    rz0: &Vec<F::BaseField>,
    rz1: &Vec<F::BaseField>,
    alpha: F::BaseField,
    beta: F::BaseField,
    state: &mut LayerCheckState<F>,
    i_var: usize,
    j: usize,
    proof: &mut Proof,
    transcript: &mut Transcript,
) -> (ok: bool)
    requires
        layer.gates_wf(),
        layer.input_var_num >= 1,
        i_var < 2 * layer.input_var_num,
        rz0@.len() == layer.output_var_num,
        rz1@.len() == layer.output_var_num,
        all_wf(rz0@),
        all_wf(rz1@),
        alpha.wf(),
        beta.wf(),
        j < old(state)@.sum.len(),
        check_sized(old(state)@, old(state)@.sum.len() as int),
        rep_ready(old(state)@, layer.input_var_num as int, j as int, i_var as int),
        old(transcript).wf(),
    ensures
        final(proof).bytes == old(proof).bytes,
        final(transcript).wf(),
        ok == check_round(
            *layer,
            rz0@,
            rz1@,
            alpha,
            beta,
            old(state)@,
            i_var as int,
            j as int,
            old(transcript)@,
            old(proof).bytes@,
            old(proof).cursor(),
        ).is_some(),
        ok ==> check_round(
            *layer,
            rz0@,
            rz1@,
            alpha,
            beta,
            old(state)@,
            i_var as int,
            j as int,
            old(transcript)@,
            old(proof).bytes@,
            old(proof).cursor(),
        ) == Some((final(state)@, final(transcript)@, final(proof).cursor())),
        ok ==> check_sized(final(state)@, old(state)@.sum.len() as int) && rep_ready(
            final(state)@,
            layer.input_var_num as int,
            j as int,
            i_var + 1,
        ) && forall|k: int|
            0 <= k < old(state)@.sum.len() && k != j ==> final(state)@.rx[k] == old(state)@.rx[k]
                && final(state)@.ry[k] == old(state)@.ry[k] && final(state)@.sum[k] == old(
                state,
            )@.sum[k] && final(state)@.vx_claim[k] == old(state)@.vx_claim[k],
{
    let n = layer.input_var_num;
    let p0 = match proof.get_next_and_step::<F>() {
        None => {
            return false;
        },
        Some(x) => x,
    };
    let p1 = match proof.get_next_and_step::<F>() {
        None => {
            return false;
        },
        Some(x) => x,
    };
    let p2 = match proof.get_next_and_step::<F>() {
        None => {
            return false;
        },
        Some(x) => x,
    };
    transcript.append_f(p0);
    transcript.append_f(p1);
    transcript.append_f(p2);
    let r = transcript.challenge_f::<F>();
    let ghost before = state@;
    if i_var < n {
        proof {
            assert(before.rx[j as int] == state.rx@[j as int]@);
        }
        push_coordinate(&mut state.rx, j, r);
    } else {
        proof {
            assert(before.ry[j as int] == state.ry@[j as int]@);
        }
        push_coordinate(&mut state.ry, j, r);
    }
    proof {
        assert(state.sum@[j as int].wf());
    }
    let holds = p0.add(&p1).equals(&state.sum[j]);
    state.verified = state.verified && holds;
    let moved = degree_2_eval(p0, p1, p2, r);
    if i_var == n - 1 {
        let vx = match proof.get_next_and_step::<F>() {
            None => {
                return false;
            },
            Some(x) => x,
        };
        let mut ris: Vec<Vec<F::BaseField>> = Vec::new();
        ris.push(slice_to_vec(state.rx[j].as_slice()));
        proof {
            assert(vec_views(state.rx@)[j as int] == state.rx@[j as int]@);
            assert(vec_views(ris@) =~= seq![state@.rx[j as int]]);
            lemma_add_gates_fit(*layer, state@.rx[j as int]);
        }
        let wiring = eval_sparse_circuit_connect_poly::<F, 1>(
            layer.add.as_slice(),
            rz0.as_slice(),
            rz1.as_slice(),
            alpha,
            beta,
            ris.as_slice(),
        );
        state.sum[j] = moved.sub(&vx.mul_base_elem(&wiring));
        state.vx_claim[j] = vx;
        transcript.append_f(vx);
    } else {
        state.sum[j] = moved;
    }
    proof {
        let size = F::spec_size();
        assert(old(proof).cursor() + size + size == old(proof).cursor() + 2 * size);
        assert(old(proof).cursor() + 2 * size + size == old(proof).cursor() + 3 * size);
        assert(old(proof).cursor() + 3 * size + size == old(proof).cursor() + 4 * size);
    }
    true
}

/// The verifier's side of the sumcheck of one layer, for the claims
/// `claimed_v0` and `claimed_v1` on the layer's output at `rz0` and `rz1`,
/// weighted by `alpha` and `beta`. Yields whether every check held, the two
/// points on the layer's input that each repetition ends with, and the
/// claims on the input at those points. Fails where the proof runs out or
/// holds an encoding that is not canonical.
pub fn sumcheck_verify_gkr_layer<F: Field>(
    layer: &CircuitLayer<F>,
    rz0: &Vec<Vec<F::BaseField>>,
    rz1: &Vec<Vec<F::BaseField>>,
    claimed_v0: &Vec<F>,
    claimed_v1: &Vec<F>,
    alpha: F::BaseField,
    beta: F::BaseField,
    proof: &mut Proof,
    transcript: &mut Transcript,
    config: &Config,
) -> (r: Option<(bool, Vec<Vec<F::BaseField>>, Vec<Vec<F::BaseField>>, Vec<F>, Vec<F>)>)
    requires
        layer.gates_wf(),
        layer.input_var_num >= 1,
        rz0@.len() == config.num_repetitions,
        rz1@.len() == config.num_repetitions,
        claimed_v0@.len() == config.num_repetitions,
        claimed_v1@.len() == config.num_repetitions,
        points_wf(vec_views(rz0@), layer.output_var_num as nat),
        points_wf(vec_views(rz1@), layer.output_var_num as nat),
        all_wf(claimed_v0@),
        all_wf(claimed_v1@),
        alpha.wf(),
        beta.wf(),
        old(transcript).wf(),
    ensures
        final(proof).bytes == old(proof).bytes,
        final(transcript).wf(),
        r.is_some() == verify_layer(
            *layer,
            vec_views(rz0@),
            vec_views(rz1@),
            claimed_v0@,
            claimed_v1@,
            alpha,
            beta,
            old(transcript)@,
            old(proof).bytes@,
            old(proof).cursor(),
        ).is_some(),
        r matches Some(got) ==> verify_layer(
            *layer,
            vec_views(rz0@),
            vec_views(rz1@),
            claimed_v0@,
            claimed_v1@,
            alpha,
            beta,
            old(transcript)@,
            old(proof).bytes@,
            old(proof).cursor(),
        ) == Some(
            LayerOutcome {
                verified: got.0,
                rx: vec_views(got.1@),
                ry: vec_views(got.2@),
                vx_claim: got.3@,
                vy_claim: got.4@,
                t: final(transcript)@,
                cursor: final(proof).cursor(),
            },
        ) && got.1@.len() == config.num_repetitions && got.2@.len() == config.num_repetitions
            && got.3@.len() == config.num_repetitions && got.4@.len() == config.num_repetitions
            && points_wf(vec_views(got.1@), layer.input_var_num as nat) && points_wf(
            vec_views(got.2@),
            layer.input_var_num as nat,
        ) && all_wf(got.3@) && all_wf(got.4@),
{
    let ghost total = verify_layer(
        *layer,
        vec_views(rz0@),
        vec_views(rz1@),
        claimed_v0@,
        claimed_v1@,
        alpha,
        beta,
        old(transcript)@,
        old(proof).bytes@,
        old(proof).cursor(),
    );
    let reps = config.get_num_repetitions();
    let n = layer.input_var_num;
    let one = F::one();
    let mut sum: Vec<F> = Vec::new();
    let no_points: Vec<Vec<F::BaseField>> = Vec::new();
    let mut j: usize = 0;
    while j < reps
        invariant
            j <= reps,
            layer.gates_wf(),
            rz0@.len() == reps,
            rz1@.len() == reps,
            claimed_v0@.len() == reps,
            claimed_v1@.len() == reps,
            points_wf(vec_views(rz0@), layer.output_var_num as nat),
            points_wf(vec_views(rz1@), layer.output_var_num as nat),
            all_wf(claimed_v0@),
            all_wf(claimed_v1@),
            alpha.wf(),
            beta.wf(),
            one == F::spec_one(),
            one.wf(),
            no_points@.len() == 0,
            sum@.len() == j,
            all_wf(sum@),
            forall|k: int|
                0 <= k < j ==> #[trigger] sum@[k] == initial_sum(
                    *layer,
                    rz0@[k]@,
                    rz1@[k]@,
                    claimed_v0@[k],
                    claimed_v1@[k],
                    alpha,
                    beta,
                ),
        decreases reps - j,
    {
        proof {
            assert(vec_views(rz0@)[j as int] == rz0@[j as int]@);
            assert(vec_views(rz1@)[j as int] == rz1@[j as int]@);
            assert(claimed_v0@[j as int].wf() && claimed_v1@[j as int].wf());
            lemma_const_gates_fit(*layer);
            assert(vec_views(no_points@) =~= Seq::<Seq<F::BaseField>>::empty());
        }
        let wiring = eval_sparse_circuit_connect_poly::<F, 0>(
            layer.const_.as_slice(),
            rz0[j].as_slice(),
            rz1[j].as_slice(),
            alpha,
            beta,
            no_points.as_slice(),
        );
        sum.push(
            claimed_v0[j].mul_base_elem(&alpha).add(&claimed_v1[j].mul_base_elem(&beta)).sub(
                &one.mul_base_elem(&wiring),
            ),
        );
        j += 1;
    }
    let rx = crate::prover::gkr::new_points::<F::BaseField>(reps);
    let ry = crate::prover::gkr::new_points::<F::BaseField>(reps);
    let vx_claim = zeros::<F>(reps);
    let mut state = LayerCheckState { sum, rx, ry, vx_claim, verified: true };
    let ghost start = start_check(
        *layer,
        vec_views(rz0@),
        vec_views(rz1@),
        claimed_v0@,
        claimed_v1@,
        alpha,
        beta,
    );
    proof {
        assert(state@.sum =~= start.sum);
        assert(state@.vx_claim =~= start.vx_claim);
        F::lemma_constants_wf();
    }
    let ghost rounds = check_rounds_from(
        *layer,
        vec_views(rz0@),
        vec_views(rz1@),
        alpha,
        beta,
        start,
        0,
        0,
        old(transcript)@,
        old(proof).bytes@,
        old(proof).cursor(),
    );
    let mut i_var: usize = 0;
    while i_var < 2 * n
        invariant
            i_var <= 2 * n,
            n == layer.input_var_num >= 1,
            layer.gates_wf(),
            rz0@.len() == reps,
            rz1@.len() == reps,
            points_wf(vec_views(rz0@), layer.output_var_num as nat),
            points_wf(vec_views(rz1@), layer.output_var_num as nat),
            alpha.wf(),
            beta.wf(),
            transcript.wf(),
            proof.bytes == old(proof).bytes,
            check_sized(state@, reps as int),
            forall|k: int|
                0 <= k < reps ==> #[trigger] rep_ready(state@, n as int, k, i_var as int),
            total == verify_layer(
                *layer,
                vec_views(rz0@),
                vec_views(rz1@),
                claimed_v0@,
                claimed_v1@,
                alpha,
                beta,
                old(transcript)@,
                old(proof).bytes@,
                old(proof).cursor(),
            ),
            rounds == check_rounds_from(
                *layer,
                vec_views(rz0@),
                vec_views(rz1@),
                alpha,
                beta,
                start,
                0,
                0,
                old(transcript)@,
                old(proof).bytes@,
                old(proof).cursor(),
            ),
            total == (match rounds {
                None => None,
                Some((s, sent, after)) => check_vy_from(
                    *layer,
                    vec_views(rz0@),
                    vec_views(rz1@),
                    alpha,
                    beta,
                    s,
                    0,
                    s.verified,
                    Seq::empty(),
                    sent,
                    old(proof).bytes@,
                    after,
                ),
            }),
            check_rounds_from(
                *layer,
                vec_views(rz0@),
                vec_views(rz1@),
                alpha,
                beta,
                state@,
                i_var as nat,
                0,
                transcript@,
                proof.bytes@,
                proof.cursor(),
            ) == rounds,
        decreases 2 * n - i_var,
    {
        let ghost next_round: int = i_var + 1;
        let mut j: usize = 0;
        while j < reps
            invariant
                j <= reps,
                i_var < 2 * n,
                next_round == i_var + 1,
                n == layer.input_var_num >= 1,
                layer.gates_wf(),
                rz0@.len() == reps,
                rz1@.len() == reps,
                points_wf(vec_views(rz0@), layer.output_var_num as nat),
                points_wf(vec_views(rz1@), layer.output_var_num as nat),
                alpha.wf(),
                beta.wf(),
                transcript.wf(),
                proof.bytes == old(proof).bytes,
                check_sized(state@, reps as int),
                forall|k: int|
                    j <= k < reps ==> #[trigger] rep_ready(state@, n as int, k, i_var as int),
                total == verify_layer(
                    *layer,
                    vec_views(rz0@),
                    vec_views(rz1@),
                    claimed_v0@,
                    claimed_v1@,
                    alpha,
                    beta,
                    old(transcript)@,
                    old(proof).bytes@,
                    old(proof).cursor(),
                ),
                forall|k: int| 0 <= k < j ==> #[trigger] rep_ready(state@, n as int, k, next_round),
                rounds == check_rounds_from(
                    *layer,
                    vec_views(rz0@),
                    vec_views(rz1@),
                    alpha,
                    beta,
                    start,
                    0,
                    0,
                    old(transcript)@,
                    old(proof).bytes@,
                    old(proof).cursor(),
                ),
                total == (match rounds {
                    None => None,
                    Some((s, sent, after)) => check_vy_from(
                        *layer,
                        vec_views(rz0@),
                        vec_views(rz1@),
                        alpha,
                        beta,
                        s,
                        0,
                        s.verified,
                        Seq::empty(),
                        sent,
                        old(proof).bytes@,
                        after,
                    ),
                }),
                check_rounds_from(
                    *layer,
                    vec_views(rz0@),
                    vec_views(rz1@),
                    alpha,
                    beta,
                    state@,
                    i_var as nat,
                    j as nat,
                    transcript@,
                    proof.bytes@,
                    proof.cursor(),
                ) == rounds,
            decreases reps - j,
        {
            let ghost before = state@;
            proof {
                assert(vec_views(rz0@)[j as int] == rz0@[j as int]@);
                assert(vec_views(rz1@)[j as int] == rz1@[j as int]@);
                assert(rep_ready(state@, n as int, j as int, i_var as int));
            }
            let ok = check_one_round(
                layer,
                &rz0[j],
                &rz1[j],
                alpha,
                beta,
                &mut state,
                i_var,
                j,
                proof,
                transcript,
            );
            if !ok {
                return None;
            }
            proof {
                assert forall|k: int| j + 1 <= k < reps implies #[trigger] rep_ready(
                    state@,
                    n as int,
                    k,
                    i_var as int,
                ) by {
                    assert(rep_ready(before, n as int, k, i_var as int));
                }
                assert forall|k: int| 0 <= k < j + 1 implies #[trigger] rep_ready(
                    state@,
                    n as int,
                    k,
                    next_round,
                ) by {
                    if k < j {
                        assert(rep_ready(before, n as int, k, next_round));
                    }
                }
            }
            j += 1;
        }
        i_var += 1;
    }
    let ghost checked = state@;
    let ghost sent = transcript@;
    let ghost after = proof.cursor();
    let mut verified = state.verified;
    let mut vy_claim: Vec<F> = Vec::new();
    let mut j: usize = 0;
    while j < reps
        invariant
            j <= reps,
            n == layer.input_var_num >= 1,
            layer.gates_wf(),
            rz0@.len() == reps,
            rz1@.len() == reps,
            points_wf(vec_views(rz0@), layer.output_var_num as nat),
            points_wf(vec_views(rz1@), layer.output_var_num as nat),
            alpha.wf(),
            beta.wf(),
            transcript.wf(),
            proof.bytes == old(proof).bytes,
            state@ == checked,
            check_sized(checked, reps as int),
            total == verify_layer(
                *layer,
                vec_views(rz0@),
                vec_views(rz1@),
                claimed_v0@,
                claimed_v1@,
                alpha,
                beta,
                old(transcript)@,
                old(proof).bytes@,
                old(proof).cursor(),
            ),
            forall|k: int| 0 <= k < reps ==> #[trigger] rep_ready(checked, n as int, k, 2 * n),
            vy_claim@.len() == j,
            all_wf(vy_claim@),
            total == check_vy_from(
                *layer,
                vec_views(rz0@),
                vec_views(rz1@),
                alpha,
                beta,
                checked,
                0,
                checked.verified,
                Seq::empty(),
                sent,
                old(proof).bytes@,
                after,
            ),
            check_vy_from(
                *layer,
                vec_views(rz0@),
                vec_views(rz1@),
                alpha,
                beta,
                checked,
                j as nat,
                verified,
                vy_claim@,
                transcript@,
                proof.bytes@,
                proof.cursor(),
            ) == total,
        decreases reps - j,
    {
        let vy = match proof.get_next_and_step::<F>() {
            None => {
                return None;
            },
            Some(x) => x,
        };
        let mut ris: Vec<Vec<F::BaseField>> = Vec::new();
        ris.push(slice_to_vec(state.rx[j].as_slice()));
        ris.push(slice_to_vec(state.ry[j].as_slice()));
        proof {
            assert(rep_ready(checked, n as int, j as int, 2 * n));
            assert(vec_views(rz0@)[j as int] == rz0@[j as int]@);
            assert(vec_views(rz1@)[j as int] == rz1@[j as int]@);
            assert(vec_views(state.rx@)[j as int] == state.rx@[j as int]@);
            assert(vec_views(state.ry@)[j as int] == state.ry@[j as int]@);
            assert(vec_views(ris@) =~= seq![checked.rx[j as int], checked.ry[j as int]]);
            lemma_mul_gates_fit(*layer, checked.rx[j as int], checked.ry[j as int]);
            assert(state.sum@[j as int].wf() && state.vx_claim@[j as int].wf());
        }
        let wiring = eval_sparse_circuit_connect_poly::<F, 2>(
            layer.mul.as_slice(),
            rz0[j].as_slice(),
            rz1[j].as_slice(),
            alpha,
            beta,
            ris.as_slice(),
        );
        let product = state.vx_claim[j].mul(&vy.mul_base_elem(&wiring));
        let holds = state.sum[j].equals(&product);
        verified = verified && holds;
        transcript.append_f(vy);
        vy_claim.push(vy);
        j += 1;
    }
    proof {
        assert forall|k: int| 0 <= k < reps implies (#[trigger] vec_views(state.rx@)[k]).len() == n
            && all_wf(vec_views(state.rx@)[k]) by {
            assert(rep_ready(checked, n as int, k, 2 * n));
        }
        assert forall|k: int| 0 <= k < reps implies (#[trigger] vec_views(state.ry@)[k]).len() == n
            && all_wf(vec_views(state.ry@)[k]) by {
            assert(rep_ready(checked, n as int, k, 2 * n));
        }
        assert forall|k: int| 0 <= k < reps implies (#[trigger] state.vx_claim@[k]).wf() by {
            assert(rep_ready(checked, n as int, k, 2 * n));
        }
        assert(total == Some(
            LayerOutcome {
                verified,
                rx: vec_views(state.rx@),
                ry: vec_views(state.ry@),
                vx_claim: state.vx_claim@,
                vy_claim: vy_claim@,
                t: transcript@,
                cursor: proof.cursor(),
            },
        ));
    }
    Some((verified, state.rx, state.ry, state.vx_claim, vy_claim))
}

/// What the reduction of the output claim yields to the verifier.
pub struct GkrOutcome<F: Field> {
    /// Whether every check of every layer held.
    pub verified: bool,
    /// The two points on the circuit's input of each repetition.
    pub rz0: Seq<Seq<F::BaseField>>,
    pub rz1: Seq<Seq<F::BaseField>>,
    /// The claims on the input at those points.
    pub claimed_v0: Seq<F>,
    pub claimed_v1: Seq<F>,
    pub t: TranscriptState,
    pub cursor: nat,
}

/// The outcome after the layers below layer `i` were checked, from the top
/// down.
pub open spec fn verify_layers_from<F: Field>(
    circuit: Circuit<F>,
    i: nat,
    rz0: Seq<Seq<F::BaseField>>,
    rz1: Seq<Seq<F::BaseField>>,
    claimed_v0: Seq<F>,
    claimed_v1: Seq<F>,
    alpha: F::BaseField,
    beta: F::BaseField,
    verified: bool,
    t: TranscriptState,
    bytes: Seq<u8>,
    cursor: nat,
) -> Option<GkrOutcome<F>>
    decreases i,
{
    if i == 0 {
        Some(GkrOutcome { verified, rz0, rz1, claimed_v0, claimed_v1, t, cursor })
    } else {
        match verify_layer(
            circuit.layers@[i - 1],
            rz0,
            rz1,
            claimed_v0,
            claimed_v1,
            alpha,
            beta,
            t,
            bytes,
            cursor,
        ) {
            None => None,
            Some(o) => verify_layers_from(
                circuit,
                (i - 1) as nat,
                o.rx,
                o.ry,
                o.vx_claim,
                o.vy_claim,
                o.t.challenge_f::<F>(),
                o.t.squeeze().challenge_f::<F>(),
                verified && o.verified,
                o.t.squeeze().squeeze(),
                bytes,
                o.cursor,
            ),
        }
    }
}

/// The outcome of the reduction of the claims `claimed_v` on the output:
/// the point of each claim is drawn, and the layers are checked from the
/// top down. `None` where the proof runs out or holds an encoding that is
/// not canonical.
pub open spec fn gkr_verdict<F: Field>(
    circuit: Circuit<F>,
    claimed_v: Seq<F>,
    t: TranscriptState,
    bytes: Seq<u8>,
    cursor: nat,
) -> Option<GkrOutcome<F>> {
    let last = circuit.layers@.last();
    let (rz0, drawn) = draw_points_from::<F>(
        last.output_var_num as nat,
        0,
        0,
        empty_points(claimed_v.len()),
        t,
    );
    verify_layers_from(
        circuit,
        circuit.layers@.len(),
        rz0,
        zero_points(claimed_v.len(), last.output_var_num as nat),
        claimed_v,
        Seq::new(claimed_v.len(), |j: int| F::spec_zero()),
        F::BaseField::spec_one(),
        F::BaseField::spec_zero(),
        true,
        drawn,
        bytes,
        cursor,
    )
}

/// The verifier's side of the reduction of the claims `claimed_v` on the
/// circuit's output to claims on its input. Yields whether every check
/// held, the two points on the input of each repetition, and the claims at
/// those points. Fails where the proof runs out or holds an encoding that
/// is not canonical.
pub fn gkr_verify<F: Field>(
    circuit: &Circuit<F>,
    claimed_v: &[F],
    transcript: &mut Transcript,
    proof: &mut Proof,
    config: &Config,
) -> (r: Option<(bool, Vec<Vec<F::BaseField>>, Vec<Vec<F::BaseField>>, Vec<F>, Vec<F>)>)
    requires
        circuit.wf(),
        layers_have_inputs(*circuit),
        claimed_v@.len() == config.num_repetitions,
        all_wf(claimed_v@),
        old(transcript).wf(),
    ensures
        final(proof).bytes == old(proof).bytes,
        final(transcript).wf(),
        r.is_some() == gkr_verdict(
            *circuit,
            claimed_v@,
            old(transcript)@,
            old(proof).bytes@,
            old(proof).cursor(),
        ).is_some(),
        r matches Some(got) ==> gkr_verdict(
            *circuit,
            claimed_v@,
            old(transcript)@,
            old(proof).bytes@,
            old(proof).cursor(),
        ) == Some(
            GkrOutcome {
                verified: got.0,
                rz0: vec_views(got.1@),
                rz1: vec_views(got.2@),
                claimed_v0: got.3@,
                claimed_v1: got.4@,
                t: final(transcript)@,
                cursor: final(proof).cursor(),
            },
        ) && got.1@.len() == config.num_repetitions && got.2@.len() == config.num_repetitions
            && got.3@.len() == config.num_repetitions && got.4@.len() == config.num_repetitions
            && points_wf(vec_views(got.1@), circuit.layers@[0].input_var_num as nat) && points_wf(
            vec_views(got.2@),
            circuit.layers@[0].input_var_num as nat,
        ) && all_wf(got.3@) && all_wf(got.4@),
{
    let ghost total = gkr_verdict(
        *circuit,
        claimed_v@,
        old(transcript)@,
        old(proof).bytes@,
        old(proof).cursor(),
    );
    let reps = config.get_num_repetitions();
    let layer_num = circuit.layers.len();
    let out_vars = circuit.layers[layer_num - 1].output_var_num;
    let mut rz0 = draw_points::<F>(out_vars, reps, transcript);
    let mut rz1: Vec<Vec<F::BaseField>> = Vec::new();
    let mut j: usize = 0;
    while j < reps
        invariant
            j <= reps,
            rz1@.len() == j,
            forall|k: int|
                0 <= k < j ==> (#[trigger] rz1@[k])@ == Seq::new(
                    out_vars as nat,
                    |m: int| F::BaseField::spec_zero(),
                ),
        decreases reps - j,
    {
        let zero_point = zeros::<F::BaseField>(out_vars);
        proof {
            assert(zero_point@ =~= Seq::new(out_vars as nat, |m: int| F::BaseField::spec_zero()));
        }
        rz1.push(zero_point);
        j += 1;
    }
    let mut claimed_v0 = slice_to_vec(claimed_v);
    let mut claimed_v1 = zeros::<F>(reps);
    proof {
        assert(vec_views(rz1@) =~= zero_points::<F::BaseField>(reps as nat, out_vars as nat));
        assert(claimed_v1@ =~= Seq::new(claimed_v@.len(), |j: int| F::spec_zero()));
        F::BaseField::lemma_constants_wf();
        assert forall|k: int| 0 <= k < reps implies (#[trigger] vec_views(rz1@)[k]).len()
            == out_vars && all_wf(vec_views(rz1@)[k]) by {}
    }
    let mut alpha = F::BaseField::one();
    let mut beta = F::BaseField::zero();
    let mut verified = true;
    let mut i: usize = layer_num;
    while i > 0
        invariant
            i <= layer_num == circuit.layers@.len(),
            circuit.wf(),
            layers_have_inputs(*circuit),
            reps == config.num_repetitions,
            rz0@.len() == reps,
            rz1@.len() == reps,
            claimed_v0@.len() == reps,
            claimed_v1@.len() == reps,
            all_wf(claimed_v0@),
            all_wf(claimed_v1@),
            alpha.wf(),
            beta.wf(),
            transcript.wf(),
            proof.bytes == old(proof).bytes,
            i > 0 ==> points_wf(vec_views(rz0@), circuit.layers@[i - 1].output_var_num as nat)
                && points_wf(vec_views(rz1@), circuit.layers@[i - 1].output_var_num as nat),
            i == 0 ==> points_wf(vec_views(rz0@), circuit.layers@[0].input_var_num as nat)
                && points_wf(vec_views(rz1@), circuit.layers@[0].input_var_num as nat),
            total == gkr_verdict(
                *circuit,
                claimed_v@,
                old(transcript)@,
                old(proof).bytes@,
                old(proof).cursor(),
            ),
            verify_layers_from(
                *circuit,
                i as nat,
                vec_views(rz0@),
                vec_views(rz1@),
                claimed_v0@,
                claimed_v1@,
                alpha,
                beta,
                verified,
                transcript@,
                proof.bytes@,
                proof.cursor(),
            ) == total,
        decreases i,
    {
        i -= 1;
        proof {
            assert(circuit.layers@[i as int].gates_wf());
            assert(circuit.layers@[i as int].input_var_num >= 1);
            if i > 0 {
                assert(circuit.layers@[i - 1].output_var_num
                    == circuit.layers@[(i - 1) + 1].input_var_num);
            }
        }
        let got = match sumcheck_verify_gkr_layer(
            &circuit.layers[i],
            &rz0,
            &rz1,
            &claimed_v0,
            &claimed_v1,
            alpha,
            beta,
            proof,
            transcript,
            config,
        ) {
            None => {
                return None;
            },
            Some(got) => got,
        };
        verified = verified && got.0;
        rz0 = got.1;
        rz1 = got.2;
        claimed_v0 = got.3;
        claimed_v1 = got.4;
        alpha = transcript.challenge_f::<F>();
        beta = transcript.challenge_f::<F>();
    }
    Some((verified, rz0, rz1, claimed_v0, claimed_v1))
}

/// The values `ys` combined by Horner's rule in `r`, the first `count` of
/// them.
pub open spec fn horner<F: FieldArith>(ys: Seq<F>, r: F, count: nat) -> F
    decreases count,
{
    if count == 0 {
        F::spec_zero()
    } else {
        horner(ys, r, (count - 1) as nat).spec_mul(r).spec_add(ys[count - 1])
    }
}

/// The value at `c` of the polynomial of degree 2 that takes the values
/// `x0`, `x1`, `x2` at 0, 1, 2, by Lagrange's formula:
/// `x0 (1 - c)(2 - c)/2 + x1 c (2 - c) + x2 c (c - 1)/2`.
pub open spec fn lagrange_at<F: FieldArith>(x0: F, x1: F, x2: F, c: F) -> F {
    let one = F::spec_one();
    let two = F::spec_from_u32(2);
    let half = F::spec_inv_2();
    x0.spec_mul(field_sub(one, c)).spec_mul(field_sub(two, c)).spec_mul(half).spec_add(
        x1.spec_mul(c).spec_mul(field_sub(two, c)),
    ).spec_add(x2.spec_mul(c).spec_mul(field_sub(c, one)).spec_mul(half))
}

/// The equality polynomial of the base-field point `z` at the first `count`
/// coordinates of `point`: the product over the coordinates of
/// `2 p z + (1 - z) - p`.
pub open spec fn eq_at_point<F: Field>(point: Seq<F>, z: Seq<F::BaseField>, count: nat) -> F
    decreases count,
{
    if count == 0 {
        F::spec_one()
    } else {
        let p = point[count - 1];
        let pz = p.spec_mul(F::spec_from_base(z[count - 1]));
        eq_at_point(point, z, (count - 1) as nat).spec_mul(
            field_sub(
                pz.spec_add(pz).spec_add(
                    F::spec_one().spec_add(F::spec_from_base(z[count - 1].spec_neg())),
                ),
                p,
            ),
        )
    }
}

/// The equality polynomials of the first `count` points of `zs` at `point`,
/// combined by Horner's rule in `r`.
pub open spec fn combined_eq_at<F: Field>(
    zs: Seq<Seq<F::BaseField>>,
    point: Seq<F>,
    r: F,
    count: nat,
) -> F
    decreases count,
{
    if count == 0 {
        F::spec_zero()
    } else {
        combined_eq_at(zs, point, r, (count - 1) as nat).spec_mul(r).spec_add(
            eq_at_point(point, zs[count - 1], point.len()),
        )
    }
}

/// The point, the running claim, the transcript and the read position after
/// the rounds `i ..` of the merging sumcheck, as the verifier sees them:
/// each round reads the round polynomial, which must sum to the running
/// claim, draws a challenge and moves the claim. `None` where the proof
/// runs out, holds an encoding that is not canonical, or a round polynomial
/// does not sum to the claim.
pub open spec fn merge_check_from<F: Field>(
    i: nat,
    var_num: nat,
    sum: F,
    point: Seq<F>,
    t: TranscriptState,
    bytes: Seq<u8>,
    cursor: nat,
) -> Option<(Seq<F>, F, TranscriptState, nat)>
    decreases var_num - i,
{
    if i >= var_num {
        Some((point, sum, t, cursor))
    } else {
        let size = F::spec_size();
        match read_field::<F>(bytes, cursor) {
            None => None,
            Some(x0) => match read_field::<F>(bytes, cursor + size) {
                None => None,
                Some(x1) => match read_field::<F>(bytes, cursor + 2 * size) {
                    None => None,
                    Some(x2) => if sum == x0.spec_add(x1) {
                        let sent = send_round(t, (x0, x1, x2));
                        let c = sent.challenge_fext::<F>();
                        merge_check_from(
                            i + 1,
                            var_num,
                            lagrange_at(x0, x1, x2, c),
                            point.push(c),
                            sent.squeeze(),
                            bytes,
                            cursor + 3 * size,
                        )
                    } else {
                        None
                    },
                },
            },
        }
    }
}

/// What merging the claims `ys` at the points `zs` yields to the verifier:
/// the merged point, the claim at it, the transcript and the read position.
/// The claim is the final running claim divided by the combined equality
/// polynomials at the merged point; `None` also where that cannot be
/// inverted.
pub open spec fn merge_verdict<F: Field>(
    zs: Seq<Seq<F::BaseField>>,
    ys: Seq<F>,
    var_num: nat,
    t: TranscriptState,
    bytes: Seq<u8>,
    cursor: nat,
) -> Option<(Seq<F>, F, TranscriptState, nat)> {
    let r = t.challenge_fext::<F>();
    match merge_check_from(
        0,
        var_num,
        horner(ys, r, ys.len()),
        Seq::empty(),
        t.squeeze(),
        bytes,
        cursor,
    ) {
        None => None,
        Some((point, sum, sent, after)) => match combined_eq_at(zs, point, r, zs.len()).spec_inv() {
            None => None,
            Some(inverse) => Some((point, sum.spec_mul(inverse), sent, after)),
        },
    }
}

/// The polynomial passes through `x0` at 0, through `x1` at 1 and through
/// `x2` at 2.
pub proof fn lemma_lagrange_at_nodes<F: FieldArith>(x0: F, x1: F, x2: F)
    requires
        x0.wf(),
        x1.wf(),
        x2.wf(),
    ensures
        lagrange_at(x0, x1, x2, F::spec_zero()) == x0,
        lagrange_at(x0, x1, x2, F::spec_one()) == x1,
        lagrange_at(x0, x1, x2, two::<F>()) == x2,
{
    let zero = F::spec_zero();
    let one = F::spec_one();
    let t = two::<F>();
    let half = F::spec_inv_2();
    F::lemma_constants_wf();
    F::lemma_from_u32_constants();
    lemma_small_differences::<F>();
    lemma_mul_two(x0);
    F::lemma_mul_commutative(half, t);
    F::lemma_closed(x0, t);
    F::lemma_closed(x1, t);
    F::lemma_closed(x2, t);
    F::lemma_closed(x0, one);
    F::lemma_closed(x1, one);
    F::lemma_closed(x2, one);
    F::lemma_mul_one(x0);
    F::lemma_mul_one(x1);
    F::lemma_mul_one(x2);
    F::lemma_mul_one(x2.spec_mul(t));
    lemma_mul_zero(x0);
    lemma_mul_zero(x1);
    lemma_mul_zero(x2);
    lemma_mul_zero(t);
    lemma_mul_zero(one);
    lemma_mul_zero(half);
    lemma_mul_zero(x1.spec_mul(t));
    lemma_mul_zero(x2.spec_mul(one));
    // at 0: 2 - 0 = 2, and the other two terms hold the factor zero
    F::lemma_closed(one, one);
    F::lemma_add_zero(t);
    F::lemma_closed(zero, one);
    F::lemma_closed(zero, one.spec_neg());
    lemma_mul_zero(field_sub(zero, one));
    // at 2: the first two terms hold the factor 2 - 2
    F::lemma_closed(t, t);
    F::lemma_closed(one, t.spec_neg());
    F::lemma_closed(x0, field_sub(one, t));
    lemma_mul_zero(x0.spec_mul(field_sub(one, t)));
    // x * 2 * half = x * (2 * half) = x
    F::lemma_mul_associative(x0, t, half);
    F::lemma_mul_associative(x2, t, half);
    F::lemma_add_zero(x0);
    F::lemma_add_zero(x1);
    F::lemma_add_zero(zero);
    lemma_zero_add(x1);
    lemma_zero_add(x2);
}

/// The value at `c` of the polynomial of degree 2 through `x0`, `x1`, `x2`.
pub fn lagrange_eval<F: FieldArith>(x0: &F, x1: &F, x2: &F, c: &F) -> (r: F)
    requires
        x0.wf(),
        x1.wf(),
        x2.wf(),
        c.wf(),
    ensures
        r == lagrange_at(*x0, *x1, *x2, *c),
        r.wf(),
{
    let one = F::one();
    let two = F::from_u32(2);
    let half = F::inv_2();
    x0.mul(&one.sub(c)).mul(&two.sub(c)).mul(&half).add(&x1.mul(c).mul(&two.sub(c))).add(
        &x2.mul(c).mul(&c.sub(&one)).mul(&half),
    )
}

/// The equality polynomial of the base-field point `z` at `point`.
pub fn eq_eval_at<F: Field>(point: &Vec<F>, z: &Vec<F::BaseField>) -> (r: F)
    requires
        point@.len() == z@.len(),
        all_wf(point@),
        all_wf(z@),
    ensures
        r == eq_at_point(point@, z@, point@.len()),
        r.wf(),
{
    let one = F::one();
    let mut prod = F::one();
    let mut i: usize = 0;
    while i < point.len()
        invariant
            i <= point@.len() == z@.len(),
            all_wf(point@),
            all_wf(z@),
            one == F::spec_one(),
            one.wf(),
            prod.wf(),
            prod == eq_at_point(point@, z@, i as nat),
        decreases point@.len() - i,
    {
        proof {
            assert(point@[i as int].wf() && z@[i as int].wf());
        }
        let res_x = point[i].mul_base_elem(&z[i]);
        let factor = res_x.add(&res_x).add(&one.add_base_elem(&z[i].neg())).sub(&point[i]);
        prod = prod.mul(&factor);
        i += 1;
    }
    prod
}

/// The whole verifier, for the commitment scheme `PC`.
pub struct Verifier<F: Field, PC: PolyCommitVerifier<F>> {
    pub config: Config,
    pub pp: PC::Param,
    pub _field: core::marker::PhantomData<F>,
}

/// The verdict on a proof: the commitment at its head is read and absorbed,
/// the grinding is redone and compared with what the proof holds, the claim
/// on the output is reduced to claims on the input, those are merged into
/// one, and the commitment scheme checks the merged claim.
pub open spec fn proof_verdict<F: Field, PC: PolyCommitVerifier<F>>(
    pp: &PC::Param,
    circuit: Circuit<F>,
    claimed_v: Seq<F>,
    config: Config,
    bytes: Seq<u8>,
) -> bool {
    let var_num = circuit.layers@[0].input_var_num as nat;
    let size = PC::Commitment::spec_encoded_len(pow2(var_num));
    let commitment = bytes.subrange(0, size as int);
    let ground = grind_transcript::<F>(TranscriptState::initial().append(commitment), config);
    &&& claimed_v.len() == config.num_repetitions
    &&& PC::Commitment::spec_decodes(bytes, pow2(var_num))
    &&& read_slice(bytes, size, 32) == Some(ground.bytes.subrange(size as int, (size + 32) as int))
    &&& match gkr_verdict(circuit, claimed_v, ground, bytes, size + 32) {
        None => false,
        Some(o) => match merge_verdict(
            o.rz0 + o.rz1,
            o.claimed_v0 + o.claimed_v1,
            var_num,
            o.t,
            bytes,
            o.cursor,
        ) {
            None => false,
            Some((point, claim, merged, after)) => o.verified && PC::spec_verify(
                pp,
                commitment,
                point,
                claim,
                merged,
                bytes,
                after,
            ),
        },
    }
}

impl<F: Field, PC: PolyCommitVerifier<F>> Verifier<F, PC> {
    /// A verifier for `config`, with the parameters `pp` of the commitment
    /// scheme.
    pub fn new(config: &Config, pp: PC::Param) -> (r: Self)
        ensures
            r.config == *config,
            r.pp == pp,
    {
        Verifier { config: *config, pp, _field: core::marker::PhantomData }
    }

    /// The verifier's side of the merging of the claims `ys` at the points
    /// `zs`. Yields the merged point and the claim at it. Fails where the
    /// proof runs out or holds an encoding that is not canonical, where a
    /// round polynomial does not sum to the running claim, and where the
    /// combined equality polynomials at the merged point cannot be inverted.
    pub fn merge_evals(
        zs: Vec<Vec<F::BaseField>>,
        ys: &Vec<F>,
        transcript: &mut Transcript,
        proof: &mut Proof,
    ) -> (r: Option<(Vec<F>, F)>)
        requires
            zs@.len() >= 1,
            points_wf(vec_views(zs@), zs@[0]@.len()),
            all_wf(ys@),
            old(transcript).wf(),
        ensures
            final(proof).bytes == old(proof).bytes,
            final(transcript).wf(),
            r.is_some() == merge_verdict(
                vec_views(zs@),
                ys@,
                zs@[0]@.len(),
                old(transcript)@,
                old(proof).bytes@,
                old(proof).cursor(),
            ).is_some(),
            r matches Some(got) ==> merge_verdict(
                vec_views(zs@),
                ys@,
                zs@[0]@.len(),
                old(transcript)@,
                old(proof).bytes@,
                old(proof).cursor(),
            ) == Some((got.0@, got.1, final(transcript)@, final(proof).cursor())) && all_wf(got.0@)
                && got.0@.len() == zs@[0]@.len() && got.1.wf(),
    {
        let ghost total = merge_verdict(
            vec_views(zs@),
            ys@,
            zs@[0]@.len(),
            old(transcript)@,
            old(proof).bytes@,
            old(proof).cursor(),
        );
        let r = transcript.challenge_fext::<F>();
        let mut sum = F::zero();
        let mut k: usize = 0;
        while k < ys.len()
            invariant
                k <= ys@.len(),
                all_wf(ys@),
                r.wf(),
                sum.wf(),
                sum == horner(ys@, r, k as nat),
            decreases ys@.len() - k,
        {
            proof {
                assert(ys@[k as int].wf());
            }
            sum = sum.mul(&r).add(&ys[k]);
            k += 1;
        }
        let var_num = zs[0].len();
        let mut res: Vec<F> = Vec::new();
        let ghost rounds = merge_check_from(
            0,
            var_num as nat,
            sum,
            Seq::empty(),
            transcript@,
            proof.bytes@,
            proof.cursor(),
        );
        let mut i: usize = 0;
        while i < var_num
            invariant
                i <= var_num == zs@[0]@.len(),
                r == old(transcript)@.challenge_fext::<F>(),
                sum.wf(),
                transcript.wf(),
                proof.bytes == old(proof).bytes,
                res@.len() == i,
                all_wf(res@),
                total == merge_verdict(
                    vec_views(zs@),
                    ys@,
                    zs@[0]@.len(),
                    old(transcript)@,
                    old(proof).bytes@,
                    old(proof).cursor(),
                ),
                total == (match rounds {
                    None => None,
                    Some((point, claim, sent, after)) => match combined_eq_at(
                        vec_views(zs@),
                        point,
                        r,
                        zs@.len(),
                    ).spec_inv() {
                        None => None,
                        Some(inverse) => Some((point, claim.spec_mul(inverse), sent, after)),
                    },
                }),
                merge_check_from(
                    i as nat,
                    var_num as nat,
                    sum,
                    res@,
                    transcript@,
                    proof.bytes@,
                    proof.cursor(),
                ) == rounds,
            decreases var_num - i,
        {
            let ghost start = proof.cursor();
            let x_0 = match proof.get_next_and_step::<F>() {
                None => {
                    return None;
                },
                Some(x) => x,
            };
            let x_1 = match proof.get_next_and_step::<F>() {
                None => {
                    return None;
                },
                Some(x) => x,
            };
            let x_2 = match proof.get_next_and_step::<F>() {
                None => {
                    return None;
                },
                Some(x) => x,
            };
            proof {
                let size = F::spec_size();
                assert(start + size + size == start + 2 * size);
                assert(start + 2 * size + size == start + 3 * size);
            }
            if !sum.equals(&x_0.add(&x_1)) {
                return None;
            }
            transcript.append_f(x_0);
            transcript.append_f(x_1);
            transcript.append_f(x_2);
            let challenge = transcript.challenge_fext::<F>();
            res.push(challenge);
            sum = lagrange_eval(&x_0, &x_1, &x_2, &challenge);
            i += 1;
        }
        let mut eq_prod = F::zero();
        let mut j: usize = 0;
        while j < zs.len()
            invariant
                j <= zs@.len(),
                points_wf(vec_views(zs@), var_num as nat),
                res@.len() == var_num,
                all_wf(res@),
                r.wf(),
                eq_prod.wf(),
                eq_prod == combined_eq_at(vec_views(zs@), res@, r, j as nat),
            decreases zs@.len() - j,
        {
            proof {
                assert(vec_views(zs@)[j as int] == zs@[j as int]@);
            }
            let prod = eq_eval_at(&res, &zs[j]);
            eq_prod = eq_prod.mul(&r).add(&prod);
            j += 1;
        }
        match eq_prod.inv() {
            None => None,
            Some(inverse) => {
                let claim = sum.mul(&inverse);
                Some((res, claim))
            },
        }
    }

    /// Whether `proof` shows that `circuit` gives the output values that
    /// `claimed_v` claims. Every failure gives `false`.
    pub fn verify(&self, circuit: &Circuit<F>, claimed_v: &[F], proof: &Proof) -> (r: bool)
        requires
            circuit.wf(),
            layers_have_inputs(*circuit),
            self.config.wf(),
            self.config.num_repetitions <= usize::MAX / 2,
            self.config.num_repetitions >= 1,
            all_wf(claimed_v@),
            PC::param_wf(&self.pp),
        ensures
            r == proof_verdict::<F, PC>(&self.pp, *circuit, claimed_v@, self.config, proof.bytes@),
    {
        if claimed_v.len() != self.config.get_num_repetitions() {
            return false;
        }
        proof {
            assert(circuit.layers@[0].gates_wf());
        }
        let poly_size = pow2_usize(circuit.layers[0].input_var_num);
        let commitment = match PC::Commitment::deserialize_from(proof.bytes.as_slice(), poly_size) {
            None => {
                return false;
            },
            Some(c) => c,
        };
        let size = commitment.size();
        let ghost encoded = commitment.spec_serialize();
        let pc_verifier = PC::new(&self.pp, commitment);
        let mut transcript = Transcript::new();
        transcript.append_u8_slice(proof.bytes.as_slice(), size);
        grind::<F>(&mut transcript, &self.config);
        let ghost ground = transcript@;
        let mut proof = Proof::from_bytes(slice_to_vec(proof.bytes.as_slice()));
        proof.step(size);
        let held = match proof.get_next_hash() {
            None => {
                return false;
            },
            Some(h) => h,
        };
        let total = transcript.proof.bytes.len();
        let mut same = true;
        let mut k: usize = 0;
        proof {
            assert(held@.subrange(0, 0) =~= transcript.proof.bytes@.subrange(
                size as int,
                size as int,
            ));
        }
        while k < 32
            invariant
                k <= 32,
                size + 32 == total == transcript.proof.bytes@.len(),
                same == (held@.subrange(0, k as int) == transcript.proof.bytes@.subrange(
                    size as int,
                    size + k,
                )),
            decreases 32 - k,
        {
            let ghost left = held@.subrange(0, k + 1);
            let ghost right = transcript.proof.bytes@.subrange(size as int, size + k + 1);
            proof {
                assert(left.drop_last() =~= held@.subrange(0, k as int));
                assert(right.drop_last() =~= transcript.proof.bytes@.subrange(
                    size as int,
                    size + k,
                ));
                assert(left.last() == held@[k as int]);
                assert(right.last() == transcript.proof.bytes@[size + k]);
                if left == right {
                    assert(left.drop_last() == right.drop_last());
                }
                if left.drop_last() == right.drop_last() && left.last() == right.last() {
                    assert(left =~= right);
                }
            }
            if held[k] != transcript.proof.bytes[size + k] {
                same = false;
            }
            k += 1;
        }
        proof {
            assert(held@.subrange(0, 32) =~= held@);
        }
        if !same {
            return false;
        }
        let (verified, rz0, rz1, claimed_v0, claimed_v1) = match gkr_verify(
            circuit,
            claimed_v,
            &mut transcript,
            &mut proof,
            &self.config,
        ) {
            None => {
                return false;
            },
            Some(got) => got,
        };
        let reps = rz0.len();
        let var_num = circuit.layers[0].input_var_num;
        let mut zs = rz0;
        let mut ys = claimed_v0;
        let ghost first_points = vec_views(zs@);
        let ghost first_claims = ys@;
        let mut j: usize = 0;
        while j < reps
            invariant
                j <= reps == rz1@.len() == claimed_v1@.len(),
                zs@.len() == reps + j,
                ys@.len() == reps + j,
                vec_views(zs@) == first_points + vec_views(rz1@).subrange(0, j as int),
                ys@ == first_claims + claimed_v1@.subrange(0, j as int),
            decreases reps - j,
        {
            let ghost before = vec_views(zs@);
            let ghost claims = ys@;
            zs.push(slice_to_vec(rz1[j].as_slice()));
            ys.push(claimed_v1[j]);
            proof {
                assert(vec_views(zs@) =~= before.push(rz1@[j as int]@));
                assert(vec_views(rz1@).subrange(0, j + 1) =~= vec_views(rz1@).subrange(
                    0,
                    j as int,
                ).push(rz1@[j as int]@));
                assert(vec_views(zs@) =~= first_points + vec_views(rz1@).subrange(0, j + 1));
                assert(ys@ =~= first_claims + claimed_v1@.subrange(0, j + 1));
            }
            j += 1;
        }
        proof {
            assert(vec_views(rz1@).subrange(0, reps as int) =~= vec_views(rz1@));
            assert(claimed_v1@.subrange(0, reps as int) =~= claimed_v1@);
            assert forall|k: int| 0 <= k < zs@.len() implies (#[trigger] vec_views(zs@)[k]).len()
                == var_num && all_wf(vec_views(zs@)[k]) by {
                if k < reps {
                    assert(vec_views(zs@)[k] == first_points[k]);
                } else {
                    assert(vec_views(zs@)[k] == vec_views(rz1@)[k - reps]);
                }
            }
            assert forall|k: int| 0 <= k < ys@.len() implies (#[trigger] ys@[k]).wf() by {
                if k < reps {
                    assert(ys@[k] == first_claims[k]);
                } else {
                    assert(ys@[k] == claimed_v1@[k - reps]);
                }
            }
            assert(vec_views(zs@)[0] == zs@[0]@);
        }
        let (new_point, claim) = match Self::merge_evals(zs, &ys, &mut transcript, &mut proof) {
            None => {
                return false;
            },
            Some(got) => got,
        };
        let v = pc_verifier.verify(&self.pp, new_point.as_slice(), claim, &mut transcript, &mut proof);
        verified && v
    }
}

} // verus!
