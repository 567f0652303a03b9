//! The prover's side of the reduction of a claim on a circuit's output,
//! layer by layer, to claims on its input.
use crate::circuit::{lemma_layer_output_wf, Circuit};
use crate::config::Config;
use crate::field::{Field, FieldArith};
use crate::poly::{all_wf, embed_point, mle_eval, MultiLinearPoly};
use crate::prover::sumcheck::{points_wf, prove_layer, sumcheck_prove_gkr_layer, vec_views};
use crate::prover::sumcheck_helper::{zeros, GkrScratchpad};
use crate::transcript::{Transcript, TranscriptState};
use vstd::prelude::*;

verus! {

/// The points and the transcript after the coordinates `var ..` were drawn:
/// each coordinate is drawn once for each repetition, in turn, from
/// repetition `j` on for coordinate `var`.
pub open spec fn draw_points_from<F: Field>(
    var_num: nat,
    var: nat,
    j: nat,
    points: Seq<Seq<F::BaseField>>,
    t: TranscriptState,
) -> (Seq<Seq<F::BaseField>>, TranscriptState)
    decreases var_num - var, points.len() - j,
{
    if var >= var_num {
        (points, t)
    } else if j >= points.len() {
        draw_points_from::<F>(var_num, var + 1, 0, points, t)
    } else {
        draw_points_from::<F>(
            var_num,
            var,
            j + 1,
            points.update(j as int, points[j as int].push(t.challenge_f::<F>())),
            t.squeeze(),
        )
    }
}

/// `count` points without coordinates.
pub open spec fn empty_points<B>(count: nat) -> Seq<Seq<B>> {
    Seq::new(count, |j: int| Seq::<B>::empty())
}

/// `count` points with `var_num` coordinates, all zero.
pub open spec fn zero_points<B: FieldArith>(count: nat, var_num: nat) -> Seq<Seq<B>> {
    Seq::new(count, |j: int| Seq::new(var_num, |k: int| B::spec_zero()))
}

/// The value of the polynomial with the values `output` at each point.
pub open spec fn output_claims<F: Field>(output: Seq<F>, points: Seq<Seq<F::BaseField>>) -> Seq<F> {
    Seq::new(points.len(), |j: int| mle_eval(output, embed_point::<F>(points[j])))
}

/// The points on the circuit's input and the transcript after the layers
/// below layer `i` were reduced, from the top down: each layer runs its
/// sumcheck, and two challenges weight the two claims it ends with.
pub open spec fn prove_layers_from<F: Field>(
    circuit: Circuit<F>,
    i: nat,
    rz0: Seq<Seq<F::BaseField>>,
    rz1: Seq<Seq<F::BaseField>>,
    alpha: F::BaseField,
    beta: F::BaseField,
    t: TranscriptState,
) -> (Seq<Seq<F::BaseField>>, Seq<Seq<F::BaseField>>, TranscriptState)
    decreases i,
{
    if i == 0 {
        (rz0, rz1, t)
    } else {
        let (rx, ry, sent) = prove_layer(circuit.layers@[i - 1], rz0, rz1, alpha, beta, t);
        prove_layers_from(
            circuit,
            (i - 1) as nat,
            rx,
            ry,
            sent.challenge_f::<F>(),
            sent.squeeze().challenge_f::<F>(),
            sent.squeeze().squeeze(),
        )
    }
}

/// What the reduction yields for `reps` repetitions: the claimed value of
/// the output at the point drawn for each repetition, the two points on the
/// input that each repetition ends with, and the transcript.
pub open spec fn gkr_proof<F: Field>(circuit: Circuit<F>, reps: nat, t: TranscriptState) -> (
    Seq<F>,
    Seq<Seq<F::BaseField>>,
    Seq<Seq<F::BaseField>>,
    TranscriptState,
) {
    let last = circuit.layers@.last();
    let (rz0, drawn) = draw_points_from::<F>(
        last.output_var_num as nat,
        0,
        0,
        empty_points(reps),
        t,
    );
    let (rx, ry, reduced) = prove_layers_from(
        circuit,
        circuit.layers@.len(),
        rz0,
        zero_points(reps, last.output_var_num as nat),
        F::BaseField::spec_one(),
        F::BaseField::spec_zero(),
        drawn,
    );
    (output_claims(last.output_vals.evals@, rz0), rx, ry, reduced)
}

/// Where the last layer has a single output wire, no point is drawn for it,
/// and every repetition claims the value on that wire.
pub proof fn lemma_single_output_claim<F: Field>(
    circuit: Circuit<F>,
    reps: nat,
    t: TranscriptState,
    j: int,
)
    requires
        circuit.layers@.len() >= 1,
        circuit.layers@.last().output_var_num == 0,
        0 <= j < reps,
    ensures
        gkr_proof(circuit, reps, t).0.len() == reps,
        gkr_proof(circuit, reps, t).0[j] == circuit.layers@.last().output_vals.evals@[0],
{
    let output = circuit.layers@.last().output_vals.evals@;
    let points = empty_points::<F::BaseField>(reps);
    assert(draw_points_from::<F>(0, 0, 0, points, t) == (points, t));
    assert(embed_point::<F>(points[j]) =~= Seq::<F>::empty());
    assert(output_claims(output, points)[j] == mle_eval(output, Seq::<F>::empty()));
}

/// Every layer has at least one input variable.
pub open spec fn layers_have_inputs<F: Field>(circuit: Circuit<F>) -> bool {
    forall|i: int| 0 <= i < circuit.layers@.len() ==> (#[trigger] circuit.layers@[i]).input_var_num >= 1
}

/// Whether every layer has at least one input variable.
pub fn has_inputs_everywhere<F: Field>(circuit: &Circuit<F>) -> (r: bool)
    ensures
        r == layers_have_inputs(*circuit),
{
    let mut i: usize = 0;
    while i < circuit.layers.len()
        invariant
            i <= circuit.layers@.len(),
            forall|k: int| 0 <= k < i ==> (#[trigger] circuit.layers@[k]).input_var_num >= 1,
        decreases circuit.layers@.len() - i,
    {
        if circuit.layers[i].input_var_num < 1 {
            return false;
        }
        i += 1;
    }
    true
}

/// Appends `c` to point `j`.
pub fn push_coordinate<B>(points: &mut Vec<Vec<B>>, j: usize, c: B)
    requires
        j < old(points)@.len(),
    ensures
        vec_views(final(points)@) == vec_views(old(points)@).update(
            j as int,
            old(points)@[j as int]@.push(c),
        ),
        final(points)@.len() == old(points)@.len(),
{
    let mut point: Vec<B> = Vec::new();
    core::mem::swap(&mut points[j], &mut point);
    point.push(c);
    core::mem::swap(&mut points[j], &mut point);
    proof {
        assert(vec_views(points@) =~= vec_views(old(points)@).update(
            j as int,
            old(points)@[j as int]@.push(c),
        ));
    }
}

/// `count` points without coordinates.
pub fn new_points<B>(count: usize) -> (r: Vec<Vec<B>>)
    ensures
        vec_views(r@) == empty_points::<B>(count as nat),
        r@.len() == count,
{
    let mut out: Vec<Vec<B>> = Vec::new();
    let mut j: usize = 0;
    while j < count
        invariant
            j <= count,
            out@.len() == j,
            forall|k: int| 0 <= k < j ==> (#[trigger] out@[k])@ == Seq::<B>::empty(),
        decreases count - j,
    {
        out.push(Vec::new());
        j += 1;
    }
    proof {
        assert(vec_views(out@) =~= empty_points::<B>(count as nat));
    }
    out
}

/// Draws a point of `var_num` coordinates for each of `reps` repetitions.
pub fn draw_points<F: Field>(var_num: usize, reps: usize, transcript: &mut Transcript) -> (r: Vec<
    Vec<F::BaseField>,
>)
    requires
        old(transcript).wf(),
    ensures
        (vec_views(r@), final(transcript)@) == draw_points_from::<F>(
            var_num as nat,
            0,
            0,
            empty_points(reps as nat),
            old(transcript)@,
        ),
        r@.len() == reps,
        points_wf(vec_views(r@), var_num as nat),
        final(transcript).wf(),
{
    let mut points = new_points::<F::BaseField>(reps);
    let ghost total = draw_points_from::<F>(var_num as nat, 0, 0, vec_views(points@), transcript@);
    let mut var: usize = 0;
    while var < var_num
        invariant
            var <= var_num,
            points@.len() == reps,
            transcript.wf(),
            points_wf(vec_views(points@), var as nat),
            draw_points_from::<F>(var_num as nat, var as nat, 0, vec_views(points@), transcript@)
                == total,
        decreases var_num - var,
    {
        let mut j: usize = 0;
        while j < reps
            invariant
                j <= reps,
                var < var_num,
                points@.len() == reps,
                transcript.wf(),
                forall|k: int|
                    0 <= k < j ==> (#[trigger] vec_views(points@)[k]).len() == var + 1 && all_wf(
                        vec_views(points@)[k],
                    ),
                forall|k: int|
                    j <= k < reps ==> (#[trigger] vec_views(points@)[k]).len() == var && all_wf(
                        vec_views(points@)[k],
                    ),
                draw_points_from::<F>(
                    var_num as nat,
                    var as nat,
                    j as nat,
                    vec_views(points@),
                    transcript@,
                ) == total,
            decreases reps - j,
        {
            let c = transcript.challenge_f::<F>();
            let ghost before = vec_views(points@);
            proof {
                assert(before[j as int] == points@[j as int]@);
            }
            push_coordinate(&mut points, j, c);
            proof {
                assert forall|k: int| 0 <= k < j + 1 implies (#[trigger] vec_views(
                    points@,
                )[k]).len() == var + 1 && all_wf(vec_views(points@)[k]) by {
                    if k < j {
                        assert(vec_views(points@)[k] == before[k]);
                    }
                }
                assert forall|k: int| j + 1 <= k < reps implies (#[trigger] vec_views(
                    points@,
                )[k]).len() == var && all_wf(vec_views(points@)[k]) by {
                    assert(vec_views(points@)[k] == before[k]);
                }
            }
            j += 1;
        }
        var += 1;
    }
    points
}

/// The prover's side of the reduction: draws the point of the claim on the
/// output for each repetition, computes the claimed values, and runs the
/// sumcheck of every layer from the top down. Yields the claimed values and
/// the two points on the input that each repetition ends with.
pub fn gkr_prove<F: Field>(
    circuit: &Circuit<F>,
    sp: &mut Vec<GkrScratchpad<F>>,
    transcript: &mut Transcript,
    config: &Config,
) -> (r: (Vec<F>, Vec<Vec<F::BaseField>>, Vec<Vec<F::BaseField>>))
    requires
        circuit.evaluated(),
        layers_have_inputs(*circuit),
        config.num_repetitions == old(sp)@.len(),
        old(transcript).wf(),
    ensures
        (r.0@, vec_views(r.1@), vec_views(r.2@), final(transcript)@) == gkr_proof(
            *circuit,
            config.num_repetitions as nat,
            old(transcript)@,
        ),
        r.0@.len() == config.num_repetitions,
        all_wf(r.0@),
        r.1@.len() == config.num_repetitions,
        r.2@.len() == config.num_repetitions,
        points_wf(vec_views(r.1@), circuit.layers@[0].input_var_num as nat),
        points_wf(vec_views(r.2@), circuit.layers@[0].input_var_num as nat),
        final(transcript).wf(),
        final(sp)@.len() == old(sp)@.len(),
{
    let reps = config.get_num_repetitions();
    let layer_num = circuit.layers.len();
    let last = &circuit.layers[layer_num - 1];
    proof {
        assert(last.evaluated());
        lemma_layer_output_wf(*last, last.input_vals.evals@);
    }
    let mut rz0 = draw_points::<F>(last.output_var_num, reps, transcript);
    let mut rz1: Vec<Vec<F::BaseField>> = Vec::new();
    let mut claimed_v: Vec<F> = Vec::new();
    let mut j: usize = 0;
    while j < reps
        invariant
            j <= reps == rz0@.len(),
            last.evaluated(),
            all_wf(last.output_vals.evals@),
            last.output_vals.evals@.len() == crate::field::pow2(last.output_var_num as nat),
            points_wf(vec_views(rz0@), last.output_var_num as nat),
            rz1@.len() == j,
            claimed_v@.len() == j,
            all_wf(claimed_v@),
            forall|k: int|
                0 <= k < j ==> (#[trigger] rz1@[k])@ == Seq::new(
                    last.output_var_num as nat,
                    |m: int| F::BaseField::spec_zero(),
                ),
            forall|k: int|
                0 <= k < j ==> #[trigger] claimed_v@[k] == mle_eval(
                    last.output_vals.evals@,
                    embed_point::<F>(rz0@[k]@),
                ),
        decreases reps - j,
    {
        proof {
            assert(vec_views(rz0@)[j as int] == rz0@[j as int]@);
        }
        let zero_point = zeros::<F::BaseField>(last.output_var_num);
        proof {
            assert(zero_point@ =~= Seq::new(
                last.output_var_num as nat,
                |m: int| F::BaseField::spec_zero(),
            ));
        }
        rz1.push(zero_point);
        claimed_v.push(
            MultiLinearPoly::<F>::eval_multilinear(
                last.output_vals.evals.as_slice(),
                rz0[j].as_slice(),
            ),
        );
        j += 1;
    }
    proof {
        assert(vec_views(rz1@) =~= zero_points::<F::BaseField>(
            reps as nat,
            last.output_var_num as nat,
        ));
        assert(claimed_v@ =~= output_claims(last.output_vals.evals@, vec_views(rz0@)));
        F::BaseField::lemma_constants_wf();
        assert forall|k: int| 0 <= k < reps implies (#[trigger] vec_views(rz1@)[k]).len()
            == last.output_var_num && all_wf(vec_views(rz1@)[k]) by {}
    }
    let mut alpha = F::BaseField::one();
    let mut beta = F::BaseField::zero();
    let ghost total = prove_layers_from(
        *circuit,
        layer_num as nat,
        vec_views(rz0@),
        vec_views(rz1@),
        alpha,
        beta,
        transcript@,
    );
    let mut i: usize = layer_num;
    while i > 0
        invariant
            i <= layer_num == circuit.layers@.len(),
            circuit.evaluated(),
            layers_have_inputs(*circuit),
            reps == config.num_repetitions == sp@.len(),
            rz0@.len() == reps,
            rz1@.len() == reps,
            alpha.wf(),
            beta.wf(),
            transcript.wf(),
            i > 0 ==> points_wf(vec_views(rz0@), circuit.layers@[i - 1].output_var_num as nat)
                && points_wf(vec_views(rz1@), circuit.layers@[i - 1].output_var_num as nat),
            i == 0 ==> points_wf(vec_views(rz0@), circuit.layers@[0].input_var_num as nat)
                && points_wf(vec_views(rz1@), circuit.layers@[0].input_var_num as nat),
            prove_layers_from(
                *circuit,
                i as nat,
                vec_views(rz0@),
                vec_views(rz1@),
                alpha,
                beta,
                transcript@,
            ) == total,
        decreases i,
    {
        i -= 1;
        proof {
            assert(circuit.layers@[i as int].evaluated());
            assert(circuit.layers@[i as int].input_var_num >= 1);
            if i > 0 {
                assert(circuit.layers@[i - 1].output_var_num
                    == circuit.layers@[(i - 1) + 1].input_var_num);
            }
        }
        let points = sumcheck_prove_gkr_layer(
            &circuit.layers[i],
            &rz0,
            &rz1,
            &alpha,
            &beta,
            transcript,
            sp,
            config,
        );
        rz0 = points.0;
        rz1 = points.1;
        alpha = transcript.challenge_f::<F>();
        beta = transcript.challenge_f::<F>();
    }
    (claimed_v, rz0, rz1)
}

} // verus!
