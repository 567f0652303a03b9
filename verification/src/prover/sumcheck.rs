//! The prover's side of the sumcheck of one layer, and of the sumcheck that
//! merges several claims on the input into one.
use crate::circuit::CircuitLayer;
use crate::config::Config;
use crate::field::{lemma_pow2_monotone, pow2, Field, FieldArith, FieldSerde};
use crate::poly::{
    all_wf, fold_evals, fold_in_place, lemma_fold_evals_wf, lemma_fold_prefix, MultiLinearPoly,
};
use crate::prover::sumcheck_helper::{
    eq_scaled, eq_table, eq_table_of, output_weights, round_sums, sum_rounds,
    GkrScratchpad, HelperView, SumcheckGkrHelper,
};
use crate::transcript::{Transcript, TranscriptState};
use vstd::prelude::*;
use vstd::slice::slice_to_vec;

verus! {

/// The vectors as sequences.
pub open spec fn vec_views<T>(s: Seq<Vec<T>>) -> Seq<Seq<T>> {
    Seq::new(s.len(), |i: int| s[i]@)
}

/// Every coordinate of every point is canonical, and every point has `len`
/// coordinates.
pub open spec fn points_wf<B: FieldArith>(points: Seq<Seq<B>>, len: nat) -> bool {
    forall|j: int| 0 <= j < points.len() ==> (#[trigger] points[j]).len() == len && all_wf(points[j])
}

/// The transcript after the three values of a round polynomial were sent.
pub open spec fn send_round<F: FieldSerde>(t: TranscriptState, sums: (F, F, F)) -> TranscriptState {
    t.append(sums.0.spec_serialize()).append(sums.1.spec_serialize()).append(
        sums.2.spec_serialize(),
    )
}

/// One round of one repetition: the tables are set up where a phase
/// starts, the round polynomial is sent, the challenge is drawn and taken;
/// the round that ends the first phase also sends the claim on the input
/// at `rx`.
pub open spec fn helper_round<F: Field>(
    layer: CircuitLayer<F>,
    h: HelperView<F>,
    i_var: int,
    t: TranscriptState,
) -> (HelperView<F>, TranscriptState) {
    let p = h.prepared(layer, i_var);
    let sent = send_round(t, round_sums(p.v, p.hg, p.v.len() / 2));
    let c = p.challenged(layer, i_var, sent.challenge_f::<F>());
    if i_var == layer.input_var_num - 1 {
        (c, sent.squeeze().append(c.v[0].spec_serialize()))
    } else {
        (c, sent.squeeze())
    }
}

/// The states and the transcript after the rounds from round `i_var` of
/// repetition `j` on: every round runs once for each repetition, in turn.
pub open spec fn prove_rounds_from<F: Field>(
    layer: CircuitLayer<F>,
    views: Seq<HelperView<F>>,
    i_var: nat,
    j: nat,
    t: TranscriptState,
) -> (Seq<HelperView<F>>, TranscriptState)
    decreases 2 * layer.input_var_num - i_var, views.len() - j,
{
    if i_var >= 2 * layer.input_var_num {
        (views, t)
    } else if j >= views.len() {
        prove_rounds_from(layer, views, i_var + 1, 0, t)
    } else {
        let (h, sent) = helper_round(layer, views[j as int], i_var as int, t);
        prove_rounds_from(layer, views.update(j as int, h), i_var, j + 1, sent)
    }
}

/// The transcript after the claims on the input at `ry` of the repetitions
/// `j ..` were sent.
pub open spec fn send_vy_claims_from<F: Field>(
    views: Seq<HelperView<F>>,
    j: nat,
    t: TranscriptState,
) -> TranscriptState
    decreases views.len() - j,
{
    if j >= views.len() {
        t
    } else {
        send_vy_claims_from(views, j + 1, t.append(views[j as int].v[0].spec_serialize()))
    }
}

/// The states that the repetitions start a layer with.
pub open spec fn start_views<F: Field>(
    rz0: Seq<Seq<F::BaseField>>,
    rz1: Seq<Seq<F::BaseField>>,
    alpha: F::BaseField,
    beta: F::BaseField,
) -> Seq<HelperView<F>> {
    Seq::new(
        rz0.len(),
        |j: int| HelperView::<F>::start(output_weights(rz0[j], rz1[j], alpha, beta)),
    )
}

/// The challenges of the first phase of each repetition.
pub open spec fn views_rx<F: Field>(views: Seq<HelperView<F>>) -> Seq<Seq<F::BaseField>> {
    Seq::new(views.len(), |j: int| views[j].rx)
}

/// The challenges of the second phase of each repetition.
pub open spec fn views_ry<F: Field>(views: Seq<HelperView<F>>) -> Seq<Seq<F::BaseField>> {
    Seq::new(views.len(), |j: int| views[j].ry)
}

/// What the sumcheck of one layer yields: the two points on the layer's
/// input that each repetition ends with, and the transcript.
pub open spec fn prove_layer<F: Field>(
    layer: CircuitLayer<F>,
    rz0: Seq<Seq<F::BaseField>>,
    rz1: Seq<Seq<F::BaseField>>,
    alpha: F::BaseField,
    beta: F::BaseField,
    t: TranscriptState,
) -> (Seq<Seq<F::BaseField>>, Seq<Seq<F::BaseField>>, TranscriptState) {
    let (views, sent) = prove_rounds_from(layer, start_views::<F>(rz0, rz1, alpha, beta), 0, 0, t);
    (views_rx(views), views_ry(views), send_vy_claims_from(views, 0, sent))
}

/// The state of each helper.
pub open spec fn helper_views<F: Field>(helpers: Seq<SumcheckGkrHelper<F>>) -> Seq<HelperView<F>> {
    Seq::new(helpers.len(), |j: int| helpers[j]@)
}

/// Runs round `i_var` for one repetition.
pub fn run_round<F: Field>(
    helper: &mut SumcheckGkrHelper<F>,
    layer: &CircuitLayer<F>,
    i_var: usize,
    transcript: &mut Transcript,
)
    requires
        layer.evaluated(),
        layer.input_var_num >= 1,
        i_var < 2 * layer.input_var_num,
        old(helper)@.ready(*layer, i_var as int),
        old(transcript).wf(),
    ensures
        (final(helper)@, final(transcript)@) == helper_round(
            *layer,
            old(helper)@,
            i_var as int,
            old(transcript)@,
        ),
        final(helper)@.ready(*layer, i_var + 1),
        final(transcript).wf(),
{
    let n = layer.input_var_num;
    if i_var == 0 {
        helper.prepare_g_x_vals(layer);
    }
    if i_var == n {
        proof {
            lemma_pow2_monotone(0, 0);
            assert(helper@.v[0].wf());
        }
        let vx_claim = helper.vx_claim();
        helper.prepare_h_y_vals(layer, vx_claim);
    }
    proof {
        let remaining = if i_var < n {
            (n - i_var) as nat
        } else {
            (2 * n - i_var) as nat
        };
        assert(helper@.v.len() == pow2(remaining));
        assert(pow2(remaining) == 2 * pow2((remaining - 1) as nat));
        lemma_pow2_monotone(0, (remaining - 1) as nat);
    }
    let evals = helper.poly_evals_at(i_var, 2);
    transcript.append_f(evals[0]);
    transcript.append_f(evals[1]);
    transcript.append_f(evals[2]);
    let r = transcript.challenge_f::<F>();
    helper.receive_challenge(layer, i_var, r);
    if i_var == n - 1 {
        proof {
            assert(helper@.v[0].wf());
        }
        transcript.append_f(helper.vx_claim());
    }
}

/// The prover's side of the sumcheck of one layer, for the claim on the
/// layer's output at `rz0` and `rz1`, weighted by `alpha` and `beta`. It
/// uses one scratchpad for each repetition, and yields the two points on
/// the layer's input that each repetition ends with.
pub fn sumcheck_prove_gkr_layer<F: Field>(
    layer: &CircuitLayer<F>,
    rz0: &Vec<Vec<F::BaseField>>,
    rz1: &Vec<Vec<F::BaseField>>,
    alpha: &F::BaseField,
    beta: &F::BaseField,
    transcript: &mut Transcript,
    sp: &mut Vec<GkrScratchpad<F>>,
    config: &Config,
) -> (r: (Vec<Vec<F::BaseField>>, Vec<Vec<F::BaseField>>))
    requires
        layer.evaluated(),
        layer.input_var_num >= 1,
        config.num_repetitions == old(sp)@.len(),
        rz0@.len() == config.num_repetitions,
        rz1@.len() == config.num_repetitions,
        points_wf(vec_views(rz0@), layer.output_var_num as nat),
        points_wf(vec_views(rz1@), layer.output_var_num as nat),
        alpha.wf(),
        beta.wf(),
        old(transcript).wf(),
    ensures
        (vec_views(r.0@), vec_views(r.1@), final(transcript)@) == prove_layer(
            *layer,
            vec_views(rz0@),
            vec_views(rz1@),
            *alpha,
            *beta,
            old(transcript)@,
        ),
        points_wf(vec_views(r.0@), layer.input_var_num as nat),
        points_wf(vec_views(r.1@), layer.input_var_num as nat),
        r.0@.len() == config.num_repetitions,
        r.1@.len() == config.num_repetitions,
        final(transcript).wf(),
        final(sp)@.len() == old(sp)@.len(),
{
    let reps = config.get_num_repetitions();
    let n = layer.input_var_num;
    let mut helpers: Vec<SumcheckGkrHelper<F>> = Vec::new();
    let mut j: usize = 0;
    while j < reps
        invariant
            j <= reps,
            layer.evaluated(),
            sp@.len() == reps - j,
            rz0@.len() == reps,
            rz1@.len() == reps,
            points_wf(vec_views(rz0@), layer.output_var_num as nat),
            points_wf(vec_views(rz1@), layer.output_var_num as nat),
            alpha.wf(),
            beta.wf(),
            helpers@.len() == j,
            forall|k: int|
                0 <= k < j ==> (#[trigger] helpers@[k])@ == HelperView::<F>::start(
                    output_weights(rz0@[k]@, rz1@[k]@, *alpha, *beta),
                ) && helpers@[k]@.ready(*layer, 0),
        decreases reps - j,
    {
        let pad = sp.remove(0);
        proof {
            assert(vec_views(rz0@)[j as int] == rz0@[j as int]@);
            assert(vec_views(rz1@)[j as int] == rz1@[j as int]@);
        }
        let helper = SumcheckGkrHelper::new(
            layer,
            rz0[j].as_slice(),
            rz1[j].as_slice(),
            alpha,
            beta,
            pad,
        );
        helpers.push(helper);
        j += 1;
    }
    let ghost start = helper_views(helpers@);
    proof {
        assert(start =~= start_views::<F>(vec_views(rz0@), vec_views(rz1@), *alpha, *beta));
    }
    let ghost total = prove_rounds_from(*layer, start, 0, 0, transcript@);
    let mut i_var: usize = 0;
    while i_var < 2 * n
        invariant
            i_var <= 2 * n,
            n == layer.input_var_num >= 1,
            layer.evaluated(),
            helpers@.len() == reps,
            transcript.wf(),
            forall|k: int| 0 <= k < reps ==> (#[trigger] helpers@[k])@.ready(*layer, i_var as int),
            prove_rounds_from(*layer, helper_views(helpers@), i_var as nat, 0, transcript@) == total,
        decreases 2 * n - i_var,
    {
        let mut j: usize = 0;
        while j < reps
            invariant
                j <= reps,
                i_var < 2 * n,
                n == layer.input_var_num >= 1,
                layer.evaluated(),
                helpers@.len() == reps,
                transcript.wf(),
                forall|k: int|
                    j <= k < reps ==> (#[trigger] helpers@[k])@.ready(*layer, i_var as int),
                forall|k: int| 0 <= k < j ==> (#[trigger] helpers@[k])@.ready(*layer, i_var + 1),
                prove_rounds_from(
                    *layer,
                    helper_views(helpers@),
                    i_var as nat,
                    j as nat,
                    transcript@,
                ) == total,
            decreases reps - j,
        {
            let ghost before = helper_views(helpers@);
            let ghost old_helpers = helpers@;
            proof {
                assert(helpers@[j as int]@.ready(*layer, i_var as int));
            }
            run_round(&mut helpers[j], layer, i_var, transcript);
            proof {
                assert(helper_views(helpers@) =~= before.update(j as int, helpers@[j as int]@));
                assert forall|k: int| j + 1 <= k < reps implies (#[trigger] helpers@[k])@.ready(
                    *layer,
                    i_var as int,
                ) by {
                    assert(helpers@[k] == old_helpers[k]);
                }
                assert forall|k: int| 0 <= k < j + 1 implies (#[trigger] helpers@[k])@.ready(
                    *layer,
                    i_var + 1,
                ) by {
                    if k < j {
                        assert(helpers@[k] == old_helpers[k]);
                    }
                }
            }
            j += 1;
        }
        i_var += 1;
    }
    let ghost views = helper_views(helpers@);
    let ghost sent = transcript@;
    let mut j: usize = 0;
    while j < reps
        invariant
            j <= reps == helpers@.len(),
            n == layer.input_var_num >= 1,
            views == helper_views(helpers@),
            transcript.wf(),
            forall|k: int| 0 <= k < reps ==> (#[trigger] helpers@[k])@.ready(*layer, 2 * n),
            send_vy_claims_from(views, j as nat, transcript@) == send_vy_claims_from(views, 0, sent),
        decreases reps - j,
    {
        proof {
            assert(helpers@[j as int]@.ready(*layer, 2 * n));
            lemma_pow2_monotone(0, 0);
            assert(helpers@[j as int]@.v[0].wf());
            assert(views[j as int] == helpers@[j as int]@);
        }
        transcript.append_f(helpers[j].vy_claim());
        j += 1;
    }
    let mut rz0s: Vec<Vec<F::BaseField>> = Vec::new();
    let mut rz1s: Vec<Vec<F::BaseField>> = Vec::new();
    let mut j: usize = 0;
    while j < reps
        invariant
            j <= reps == helpers@.len(),
            n == layer.input_var_num >= 1,
            forall|k: int| 0 <= k < reps ==> (#[trigger] helpers@[k])@.ready(*layer, 2 * n),
            rz0s@.len() == j,
            rz1s@.len() == j,
            forall|k: int| 0 <= k < j ==> (#[trigger] rz0s@[k])@ == helpers@[k]@.rx,
            forall|k: int| 0 <= k < j ==> (#[trigger] rz1s@[k])@ == helpers@[k]@.ry,
        decreases reps - j,
    {
        rz0s.push(slice_to_vec(helpers[j].rx.as_slice()));
        rz1s.push(slice_to_vec(helpers[j].ry.as_slice()));
        j += 1;
    }
    proof {
        assert(vec_views(rz0s@) =~= views_rx(views));
        assert(vec_views(rz1s@) =~= views_ry(views));
        assert forall|k: int| 0 <= k < reps implies (#[trigger] vec_views(rz0s@)[k]).len() == n
            && all_wf(vec_views(rz0s@)[k]) && (#[trigger] vec_views(rz1s@)[k]).len() == n
            && all_wf(vec_views(rz1s@)[k]) by {
            assert(helpers@[k]@.ready(*layer, 2 * n));
        }
    }
    let mut j: usize = 0;
    while j < reps
        invariant
            j <= reps,
            helpers@.len() == reps - j,
            sp@.len() == j,
        decreases reps - j,
    {
        let helper = helpers.remove(0);
        sp.push(helper.into_scratchpad());
        j += 1;
    }
    (rz0s, rz1s)
}

/// Fixes the first variable of the table to `challenge`: entry `j < m`
/// becomes the point at `challenge` of the line through the entries `2j` and
/// `2j + 1`.
pub fn sumcheck_next_domain<F: FieldArith>(poly_evals: &mut Vec<F>, m: usize, challenge: F)
    requires
        2 * m <= old(poly_evals)@.len(),
        all_wf(old(poly_evals)@),
        challenge.wf(),
    ensures
        final(poly_evals)@.len() == old(poly_evals)@.len(),
        final(poly_evals)@.subrange(0, m as int) == fold_evals(
            old(poly_evals)@.subrange(0, 2 * m),
            challenge,
        ),
        forall|i: int|
            m <= i < old(poly_evals)@.len() ==> #[trigger] final(poly_evals)@[i] == old(
                poly_evals,
            )@[i],
        all_wf(final(poly_evals)@),
{
    let ghost before = poly_evals@;
    fold_in_place(poly_evals, m, &challenge);
    proof {
        lemma_fold_prefix(before, poly_evals@, (2 * m) as nat, challenge);
    }
}

/// The weight of hypercube vertex `x` in the merged claim: the equality
/// polynomials of the first `count` points at `x`, combined by Horner's rule
/// in `r`.
pub open spec fn combined_eq<F: Field>(zs: Seq<Seq<F::BaseField>>, r: F, x: int, count: nat) -> F
    decreases count,
{
    if count == 0 {
        F::spec_zero()
    } else {
        combined_eq(zs, r, x, (count - 1) as nat).spec_mul(r).spec_add(
            F::spec_from_base(eq_scaled(zs[count - 1], F::BaseField::spec_one(), x)),
        )
    }
}

/// The table of the weights of all vertices.
pub open spec fn combined_eq_table<F: Field>(zs: Seq<Seq<F::BaseField>>, r: F, var_num: nat) -> Seq<F> {
    Seq::new(pow2(var_num), |x: int| combined_eq(zs, r, x, zs.len()))
}

/// The point and the transcript after the rounds `i ..` of the merging
/// sumcheck on the product of the tables `p` and `eq`: each round sends the
/// round polynomial, draws a challenge and folds both tables by it.
pub open spec fn merge_rounds_from<F: Field>(
    p: Seq<F>,
    eq: Seq<F>,
    i: nat,
    var_num: nat,
    t: TranscriptState,
    point: Seq<F>,
) -> (Seq<F>, TranscriptState)
    decreases var_num - i,
{
    if i >= var_num {
        (point, t)
    } else {
        let sent = send_round(t, round_sums(p, eq, p.len() / 2));
        let c = sent.challenge_fext::<F>();
        merge_rounds_from(
            fold_evals(p, c),
            fold_evals(eq, c),
            i + 1,
            var_num,
            sent.squeeze(),
            point.push(c),
        )
    }
}

/// What merging the claims at the points `zs` yields: the new point, and the
/// transcript.
pub open spec fn merge_claims<F: Field>(
    evals: Seq<F>,
    zs: Seq<Seq<F::BaseField>>,
    var_num: nat,
    t: TranscriptState,
) -> (Seq<F>, TranscriptState) {
    merge_rounds_from(
        evals,
        combined_eq_table(zs, t.challenge_fext::<F>(), var_num),
        0,
        var_num,
        t.squeeze(),
        Seq::empty(),
    )
}

/// The weights of all vertices in the merged claim.
pub fn combine_eq_tables<F: Field>(zs: &Vec<Vec<F::BaseField>>, r: &F, var_num: usize) -> (eq: Vec<F>)
    requires
        var_num < 32,
        points_wf(vec_views(zs@), var_num as nat),
        r.wf(),
    ensures
        eq@ == combined_eq_table(vec_views(zs@), *r, var_num as nat),
        all_wf(eq@),
{
    let size = crate::circuit::pow2_usize(var_num);
    let one = F::BaseField::one();
    let mut eq = crate::prover::sumcheck_helper::zeros::<F>(size);
    let mut j: usize = 0;
    while j < zs.len()
        invariant
            j <= zs@.len(),
            var_num < 32,
            size == pow2(var_num as nat),
            points_wf(vec_views(zs@), var_num as nat),
            r.wf(),
            one == F::BaseField::spec_one(),
            one.wf(),
            eq@.len() == size,
            all_wf(eq@),
            forall|x: int|
                0 <= x < size ==> #[trigger] eq@[x] == combined_eq(
                    vec_views(zs@),
                    *r,
                    x,
                    j as nat,
                ),
        decreases zs@.len() - j,
    {
        proof {
            assert(vec_views(zs@)[j as int] == zs@[j as int]@);
        }
        let table = eq_table_of(zs[j].as_slice(), &one);
        let mut x: usize = 0;
        while x < size
            invariant
                x <= size == pow2(var_num as nat),
                j < zs@.len(),
                r.wf(),
                table@ == eq_table(zs@[j as int]@, F::BaseField::spec_one()),
                table@.len() == size,
                all_wf(table@),
                vec_views(zs@)[j as int] == zs@[j as int]@,
                eq@.len() == size,
                all_wf(eq@),
                forall|y: int|
                    x <= y < size ==> #[trigger] eq@[y] == combined_eq(
                        vec_views(zs@),
                        *r,
                        y,
                        j as nat,
                    ),
                forall|y: int|
                    0 <= y < x ==> #[trigger] eq@[y] == combined_eq(
                        vec_views(zs@),
                        *r,
                        y,
                        (j + 1) as nat,
                    ),
            decreases size - x,
        {
            proof {
                assert(eq@[x as int].wf());
                assert(table@[x as int].wf());
            }
            let v = eq[x].mul(r).add_base_elem(&table[x]);
            eq[x] = v;
            x += 1;
        }
        j += 1;
    }
    proof {
        assert(eq@ =~= combined_eq_table(vec_views(zs@), *r, var_num as nat));
    }
    eq
}

/// Merges the claims on `poly` at the points `zs` into one claim, by a
/// sumcheck on the polynomial times the combined equality polynomials of
/// the points. Yields the point of the merged claim.
pub fn merge_multilinear_evals<F: Field>(
    poly: MultiLinearPoly<F>,
    zs: Vec<Vec<F::BaseField>>,
    transcript: &mut Transcript,
) -> (new_point: Vec<F>)
    requires
        poly.wf(),
        poly.var_num < 32,
        points_wf(vec_views(zs@), poly.var_num as nat),
        old(transcript).wf(),
    ensures
        (new_point@, final(transcript)@) == merge_claims(
            poly.evals@,
            vec_views(zs@),
            poly.var_num as nat,
            old(transcript)@,
        ),
        new_point@.len() == poly.var_num,
        all_wf(new_point@),
        final(transcript).wf(),
{
    let var_num = poly.var_num;
    let r = transcript.challenge_fext::<F>();
    let mut eq = combine_eq_tables(&zs, &r, var_num);
    let mut poly_evals = poly.evals;
    let mut new_point: Vec<F> = Vec::new();
    let ghost total = merge_rounds_from(
        poly_evals@,
        eq@,
        0,
        var_num as nat,
        transcript@,
        Seq::empty(),
    );
    let mut i: usize = 0;
    while i < var_num
        invariant
            i <= var_num,
            transcript.wf(),
            poly_evals@.len() == pow2((var_num - i) as nat),
            eq@.len() == poly_evals@.len(),
            all_wf(poly_evals@),
            all_wf(eq@),
            new_point@.len() == i,
            all_wf(new_point@),
            merge_rounds_from(poly_evals@, eq@, i as nat, var_num as nat, transcript@, new_point@)
                == total,
        decreases var_num - i,
    {
        let sums = sum_rounds(&poly_evals, &eq);
        transcript.append_f(sums.0);
        transcript.append_f(sums.1);
        transcript.append_f(sums.2);
        let challenge = transcript.challenge_fext::<F>();
        new_point.push(challenge);
        let m = poly_evals.len() / 2;
        let ghost p0 = poly_evals@;
        let ghost e0 = eq@;
        proof {
            lemma_pow2_monotone(0, (var_num - i - 1) as nat);
            assert(p0.subrange(0, 2 * m) =~= p0);
            assert(e0.subrange(0, 2 * m) =~= e0);
            lemma_fold_evals_wf(p0, challenge);
            lemma_fold_evals_wf(e0, challenge);
        }
        sumcheck_next_domain(&mut poly_evals, m, challenge);
        sumcheck_next_domain(&mut eq, m, challenge);
        poly_evals.truncate(m);
        eq.truncate(m);
        i += 1;
    }
    new_point
}

} // verus!
