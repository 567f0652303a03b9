//! The prover's book-keeping for the sumcheck of one layer: the tables of
//! the input values and of the wiring, folded round by round.
use crate::circuit::{pow2_usize, CircuitLayer, GateAdd, GateMul};
use crate::field::algebra::{field_sub, lemma_add_interchange};
use crate::field::{lemma_pow2_monotone, pow2, Field, FieldArith};
use crate::poly::{all_wf, fold_evals, fold_in_place_base, lemma_fold_evals_wf, lemma_fold_prefix};
use vstd::prelude::*;
use vstd::slice::slice_to_vec;

verus! {

/// `scale` times the equality polynomial of `r` at the hypercube vertex with
/// index `x`: for each variable, from variable 0 on, the running product `p`
/// becomes `p * r_i` where bit `i` of `x` is set and `p - p * r_i` where it
/// is not.
pub open spec fn eq_scaled<B: FieldArith>(r: Seq<B>, scale: B, x: int) -> B
    decreases r.len(),
{
    if r.len() == 0 {
        scale
    } else {
        let half = pow2((r.len() - 1) as nat) as int;
        let prev = eq_scaled(r.drop_last(), scale, x % half);
        let hi = prev.spec_mul(r.last());
        if x >= half {
            hi
        } else {
            field_sub(prev, hi)
        }
    }
}

/// The scaled equality polynomial of a canonical point is canonical.
pub proof fn lemma_eq_scaled_wf<B: FieldArith>(r: Seq<B>, scale: B, x: int)
    requires
        all_wf(r),
        scale.wf(),
    ensures
        eq_scaled(r, scale, x).wf(),
    decreases r.len(),
{
    if r.len() > 0 {
        let half = pow2((r.len() - 1) as nat) as int;
        assert(r.last().wf());
        lemma_eq_scaled_wf(r.drop_last(), scale, x % half);
        let prev = eq_scaled(r.drop_last(), scale, x % half);
        B::lemma_closed(prev, r.last());
        B::lemma_closed(prev.spec_mul(r.last()), prev);
        B::lemma_closed(prev, prev.spec_mul(r.last()).spec_neg());
    }
}

/// Fills `ans`, which has `2^|r|` entries, with the scaled equality
/// polynomial of `r`: entry `x` becomes `mul_factor * eq(r, x)`.
pub fn eq_evals_at_primitive<B: FieldArith>(r: &[B], mul_factor: &B, ans: &mut Vec<B>)
    requires
        r@.len() < 32,
        old(ans)@.len() == pow2(r@.len()),
        all_wf(r@),
        mul_factor.wf(),
    ensures
        final(ans)@.len() == old(ans)@.len(),
        forall|x: int|
            0 <= x < final(ans)@.len() ==> #[trigger] final(ans)@[x] == eq_scaled(r@, *mul_factor, x),
        all_wf(final(ans)@),
{
    let n = r.len();
    let total = ans.len();
    proof {
        lemma_pow2_monotone(0, n as nat);
        assert(r@.subrange(0, 0) =~= Seq::<B>::empty());
    }
    ans[0] = *mul_factor;
    let mut cur: usize = 1;
    let mut i: usize = 0;
    while i < n
        invariant
            i <= n == r@.len() < 32,
            total == ans@.len() == pow2(n as nat),
            cur == pow2(i as nat),
            cur <= total,
            all_wf(r@),
            mul_factor.wf(),
            forall|x: int|
                0 <= x < cur ==> #[trigger] ans@[x] == eq_scaled(
                    r@.subrange(0, i as int),
                    *mul_factor,
                    x,
                ),
            forall|x: int| 0 <= x < cur ==> (#[trigger] ans@[x]).wf(),
        decreases n - i,
    {
        let ghost before = ans@;
        let ghost prefix = r@.subrange(0, i as int);
        let ghost longer = r@.subrange(0, i + 1);
        proof {
            lemma_pow2_monotone((i + 1) as nat, n as nat);
            assert(longer.drop_last() =~= prefix);
            assert(longer.last() == r@[i as int]);
        }
        let mut j: usize = 0;
        while j < cur
            invariant
                j <= cur,
                i < n == r@.len(),
                2 * cur <= total == ans@.len() == before.len(),
                cur == pow2(i as nat),
                r@[i as int].wf(),
                forall|x: int| 0 <= x < cur ==> (#[trigger] before[x]).wf(),
                forall|x: int| j <= x < cur ==> #[trigger] ans@[x] == before[x],
                forall|x: int|
                    0 <= x < j ==> #[trigger] ans@[x] == field_sub(
                        before[x],
                        before[x].spec_mul(r@[i as int]),
                    ),
                forall|x: int|
                    0 <= x < j ==> #[trigger] ans@[x + cur] == before[x].spec_mul(r@[i as int]),
                forall|x: int| 0 <= x < j ==> (#[trigger] ans@[x]).wf(),
                forall|x: int| 0 <= x < j ==> (#[trigger] ans@[x + cur]).wf(),
            decreases cur - j,
        {
            proof {
                assert(ans@[j as int] == before[j as int]);
                assert(before[j as int].wf());
            }
            let hi = ans[j].mul(&r[i]);
            let lo = ans[j].sub(&hi);
            ans[j + cur] = hi;
            ans[j] = lo;
            proof {
                assert forall|x: int| 0 <= x < j + 1 implies #[trigger] ans@[x + cur]
                    == before[x].spec_mul(r@[i as int]) by {
                    if x < j {
                        assert(ans@[x + cur] == before[x].spec_mul(r@[i as int]));
                    }
                }
            }
            j += 1;
        }
        proof {
            assert forall|x: int| 0 <= x < 2 * cur implies #[trigger] ans@[x] == eq_scaled(
                longer,
                *mul_factor,
                x,
            ) by {
                if x < cur {
                    assert(x % (cur as int) == x) by (nonlinear_arith)
                        requires
                            0 <= x < cur,
                    ;
                    assert(before[x] == eq_scaled(prefix, *mul_factor, x));
                } else {
                    assert(x % (cur as int) == x - cur) by (nonlinear_arith)
                        requires
                            cur <= x < 2 * cur,
                    ;
                    assert(ans@[(x - cur) + cur] == before[x - cur].spec_mul(r@[i as int]));
                    assert(before[x - cur] == eq_scaled(prefix, *mul_factor, x - cur));
                }
            }
            assert forall|x: int| 0 <= x < 2 * cur implies (#[trigger] ans@[x]).wf() by {
                if x >= cur {
                    assert(ans@[(x - cur) + cur].wf());
                }
            }
        }
        cur = cur * 2;
        i += 1;
    }
    proof {
        assert(r@.subrange(0, n as int) =~= r@);
    }
}

/// A vector of `len` zeros.
pub fn zeros<B: FieldArith>(len: usize) -> (r: Vec<B>)
    ensures
        r@.len() == len,
        forall|x: int| 0 <= x < len ==> #[trigger] r@[x] == B::spec_zero(),
        all_wf(r@),
{
    let zero = B::zero();
    let mut out: Vec<B> = Vec::new();
    let mut i: usize = 0;
    while i < len
        invariant
            i <= len,
            zero == B::spec_zero(),
            zero.wf(),
            out@.len() == i,
            forall|x: int| 0 <= x < i ==> #[trigger] out@[x] == B::spec_zero(),
            all_wf(out@),
        decreases len - i,
    {
        out.push(zero);
        i += 1;
    }
    out
}

/// The table of the scaled equality polynomial of `r`.
pub open spec fn eq_table<B: FieldArith>(r: Seq<B>, scale: B) -> Seq<B> {
    Seq::new(pow2(r.len()), |x: int| eq_scaled(r, scale, x))
}

/// The table of the scaled equality polynomial of `r`.
pub fn eq_table_of<B: FieldArith>(r: &[B], scale: &B) -> (t: Vec<B>)
    requires
        r@.len() < 32,
        all_wf(r@),
        scale.wf(),
    ensures
        t@ == eq_table(r@, *scale),
        all_wf(t@),
{
    let size = pow2_usize(r.len());
    let mut t = zeros::<B>(size);
    eq_evals_at_primitive(r, scale, &mut t);
    proof {
        assert(t@ =~= eq_table(r@, *scale));
    }
    t
}

/// The weight of each output wire in the claim on a layer's output:
/// `alpha * eq(rz0, o) + beta * eq(rz1, o)`.
pub open spec fn output_weights<B: FieldArith>(rz0: Seq<B>, rz1: Seq<B>, alpha: B, beta: B) -> Seq<B> {
    Seq::new(
        pow2(rz0.len()),
        |o: int| eq_scaled(rz0, alpha, o).spec_add(eq_scaled(rz1, beta, o)),
    )
}

/// The weight of each output wire in the claim on a layer's output.
pub fn output_weights_of<B: FieldArith>(rz0: &[B], rz1: &[B], alpha: &B, beta: &B) -> (w: Vec<B>)
    requires
        rz0@.len() == rz1@.len() < 32,
        all_wf(rz0@),
        all_wf(rz1@),
        alpha.wf(),
        beta.wf(),
    ensures
        w@ == output_weights(rz0@, rz1@, *alpha, *beta),
        all_wf(w@),
{
    let t0 = eq_table_of(rz0, alpha);
    let t1 = eq_table_of(rz1, beta);
    let mut w: Vec<B> = Vec::new();
    let mut o: usize = 0;
    while o < t0.len()
        invariant
            o <= t0@.len() == t1@.len(),
            t0@ == eq_table(rz0@, *alpha),
            t1@ == eq_table(rz1@, *beta),
            all_wf(t0@),
            all_wf(t1@),
            w@.len() == o,
            all_wf(w@),
            forall|x: int|
                0 <= x < o ==> #[trigger] w@[x] == eq_scaled(rz0@, *alpha, x).spec_add(
                    eq_scaled(rz1@, *beta, x),
                ),
        decreases t0@.len() - o,
    {
        proof {
            assert(t0@[o as int].wf() && t1@[o as int].wf());
        }
        w.push(t0[o].add(&t1[o]));
        o += 1;
    }
    proof {
        assert(w@ =~= output_weights(rz0@, rz1@, *alpha, *beta));
    }
    w
}

/// What the multiplication gates put into entry `x` of the first-phase
/// wiring table: for each gate whose first input is `x`, the value on its
/// second input times the weight of its output times its coefficient.
pub open spec fn g_x_mul_sum<F: Field>(
    gates: Seq<GateMul<F>>,
    weights: Seq<F::BaseField>,
    input: Seq<F>,
    x: int,
) -> F
    decreases gates.len(),
{
    if gates.len() == 0 {
        F::spec_zero()
    } else {
        let g = gates.last();
        let rest = g_x_mul_sum(gates.drop_last(), weights, input, x);
        if g.i_ids[0] == x {
            rest.spec_add(
                input[g.i_ids[1] as int].spec_mul(
                    F::spec_from_base(weights[g.o_id as int].spec_mul(g.coef)),
                ),
            )
        } else {
            rest
        }
    }
}

/// What the addition gates put into entry `x` of the first-phase wiring
/// table: for each gate whose input is `x`, the weight of its output times
/// its coefficient.
pub open spec fn g_x_add_sum<F: Field>(gates: Seq<GateAdd<F>>, weights: Seq<F::BaseField>, x: int) -> F
    decreases gates.len(),
{
    if gates.len() == 0 {
        F::spec_zero()
    } else {
        let g = gates.last();
        let rest = g_x_add_sum::<F>(gates.drop_last(), weights, x);
        if g.i_ids[0] == x {
            rest.spec_add(F::spec_from_base(weights[g.o_id as int].spec_mul(g.coef)))
        } else {
            rest
        }
    }
}

/// The first-phase wiring table: entry `x` is what the gates fed by input
/// wire `x` contribute to the weighted output, per unit on that wire.
pub open spec fn g_x_table<F: Field>(
    layer: CircuitLayer<F>,
    weights: Seq<F::BaseField>,
    input: Seq<F>,
) -> Seq<F> {
    Seq::new(
        pow2(layer.input_var_num as nat),
        |x: int|
            g_x_mul_sum(layer.mul@, weights, input, x).spec_add(
                g_x_add_sum::<F>(layer.add@, weights, x),
            ),
    )
}

/// Entry `y` of the second-phase wiring table: for each multiplication gate
/// whose second input is `y`, the claimed value `v_rx` times the weight of
/// the output wire, the equality polynomial of `rx` at the first input, and
/// the coefficient.
pub open spec fn h_y_sum<F: Field>(
    gates: Seq<GateMul<F>>,
    weights: Seq<F::BaseField>,
    eq_rx: Seq<F::BaseField>,
    v_rx: F,
    y: int,
) -> F
    decreases gates.len(),
{
    if gates.len() == 0 {
        F::spec_zero()
    } else {
        let g = gates.last();
        let rest = h_y_sum(gates.drop_last(), weights, eq_rx, v_rx, y);
        if g.i_ids[1] == y {
            rest.spec_add(
                v_rx.spec_mul(
                    F::spec_from_base(
                        weights[g.o_id as int].spec_mul(eq_rx[g.i_ids[0] as int]).spec_mul(g.coef),
                    ),
                ),
            )
        } else {
            rest
        }
    }
}

/// The second-phase wiring table.
pub open spec fn h_y_table<F: Field>(
    layer: CircuitLayer<F>,
    weights: Seq<F::BaseField>,
    rx: Seq<F::BaseField>,
    v_rx: F,
) -> Seq<F> {
    Seq::new(
        pow2(layer.input_var_num as nat),
        |y: int|
            h_y_sum(layer.mul@, weights, eq_table(rx, F::BaseField::spec_one()), v_rx, y),
    )
}

/// The values at 0, 1 and 2 of the round polynomial of the sumcheck on the
/// product of two tables: over the first `count` pairs of entries, the sums
/// of `f0 * g0`, of `f1 * g1` and of `(2 f1 - f0) * (2 g1 - g0)`.
pub open spec fn round_sums<F: FieldArith>(v: Seq<F>, hg: Seq<F>, count: nat) -> (F, F, F)
    decreases count,
{
    if count == 0 {
        (F::spec_zero(), F::spec_zero(), F::spec_zero())
    } else {
        let sums = round_sums(v, hg, (count - 1) as nat);
        let i = count - 1;
        let (f0, f1) = (v[2 * i], v[2 * i + 1]);
        let (g0, g1) = (hg[2 * i], hg[2 * i + 1]);
        (
            sums.0.spec_add(f0.spec_mul(g0)),
            sums.1.spec_add(f1.spec_mul(g1)),
            sums.2.spec_add(
                field_sub(f1.spec_add(f1), f0).spec_mul(field_sub(g1.spec_add(g1), g0)),
            ),
        )
    }
}

/// The sum over the first `count` entries of the products of the entries of
/// two tables.
pub open spec fn inner_product<F: FieldArith>(v: Seq<F>, hg: Seq<F>, count: nat) -> F
    decreases count,
{
    if count == 0 {
        F::spec_zero()
    } else {
        inner_product(v, hg, (count - 1) as nat).spec_add(v[count - 1].spec_mul(hg[count - 1]))
    }
}

/// The values of the round polynomial at 0 and at 1 add up to the sum that
/// the round is about: the sum of the products over all entries.
pub proof fn lemma_round_sums_total<F: FieldArith>(v: Seq<F>, hg: Seq<F>, count: nat)
    requires
        all_wf(v),
        all_wf(hg),
        2 * count <= v.len(),
        v.len() == hg.len(),
    ensures
        round_sums(v, hg, count).0.spec_add(round_sums(v, hg, count).1) == inner_product(
            v,
            hg,
            2 * count,
        ),
        round_sums(v, hg, count).0.wf(),
        round_sums(v, hg, count).1.wf(),
    decreases count,
{
    F::lemma_constants_wf();
    if count == 0 {
        F::lemma_add_zero(F::spec_zero());
    } else {
        let before = round_sums(v, hg, (count - 1) as nat);
        let i = count - 1;
        lemma_round_sums_total(v, hg, (count - 1) as nat);
        assert(v[2 * i].wf() && v[2 * i + 1].wf() && hg[2 * i].wf() && hg[2 * i + 1].wf());
        let p0 = v[2 * i].spec_mul(hg[2 * i]);
        let p1 = v[2 * i + 1].spec_mul(hg[2 * i + 1]);
        F::lemma_closed(v[2 * i], hg[2 * i]);
        F::lemma_closed(v[2 * i + 1], hg[2 * i + 1]);
        F::lemma_closed(before.0, p0);
        F::lemma_closed(before.1, p1);
        F::lemma_closed(before.0, before.1);
        // (s0 + p0) + (s1 + p1) = (s0 + s1) + (p0 + p1) = ((s0 + s1) + p0) + p1
        lemma_add_interchange(before.0, p0, before.1, p1);
        F::lemma_add_associative(before.0.spec_add(before.1), p0, p1);
        assert(inner_product(v, hg, (2 * count - 1) as nat) == inner_product(
            v,
            hg,
            (2 * count - 2) as nat,
        ).spec_add(p0));
    }
}

/// The values at 0, 1 and 2 of the round polynomial for the whole tables.
pub fn sum_rounds<F: FieldArith>(v: &Vec<F>, hg: &Vec<F>) -> (r: (F, F, F))
    requires
        v@.len() == hg@.len(),
        all_wf(v@),
        all_wf(hg@),
    ensures
        r == round_sums(v@, hg@, v@.len() / 2),
        r.0.wf() && r.1.wf() && r.2.wf(),
{
    let total = v.len();
    let count = total / 2;
    let mut s0 = F::zero();
    let mut s1 = F::zero();
    let mut s2 = F::zero();
    let mut i: usize = 0;
    while i < count
        invariant
            i <= count == total / 2,
            total == v@.len() == hg@.len(),
            all_wf(v@),
            all_wf(hg@),
            s0.wf() && s1.wf() && s2.wf(),
            (s0, s1, s2) == round_sums(v@, hg@, i as nat),
        decreases count - i,
    {
        let f0 = v[2 * i];
        let f1 = v[2 * i + 1];
        let g0 = hg[2 * i];
        let g1 = hg[2 * i + 1];
        proof {
            assert(v@[2 * i].wf() && v@[2 * i + 1].wf() && hg@[2 * i].wf() && hg@[2 * i + 1].wf());
        }
        s0 = s0.add(&f0.mul(&g0));
        s1 = s1.add(&f1.mul(&g1));
        s2 = s2.add(&f1.add(&f1).sub(&f0).mul(&g1.add(&g1).sub(&g0)));
        i += 1;
    }
    (s0, s1, s2)
}

/// The tables that the sumcheck of one layer works on, kept between layers
/// so that their storage is reused.
pub struct GkrScratchpad<F: Field> {
    /// The partially evaluated input values.
    pub v_evals: Vec<F>,
    /// The partially evaluated wiring table of the current phase.
    pub hg_evals: Vec<F>,
    /// The weight of each output wire.
    pub eq_evals_at_rz: Vec<F::BaseField>,
    /// The equality polynomial of `rx`.
    pub eq_evals_at_rx: Vec<F::BaseField>,
    pub max_num_input_var: usize,
    pub max_num_output_var: usize,
}

impl<F: Field> GkrScratchpad<F> {
    /// The scratchpad is as it was made: its four tables are empty, and it
    /// is sized for layers of up to `2^max_num_input_var` input and
    /// `2^max_num_output_var` output wires.
    pub open spec fn fresh(&self, max_num_input_var: nat, max_num_output_var: nat) -> bool {
        &&& self.v_evals@ == Seq::<F>::empty()
        &&& self.hg_evals@ == Seq::<F>::empty()
        &&& self.eq_evals_at_rz@ == Seq::<F::BaseField>::empty()
        &&& self.eq_evals_at_rx@ == Seq::<F::BaseField>::empty()
        &&& self.max_num_input_var == max_num_input_var
        &&& self.max_num_output_var == max_num_output_var
    }

    /// Empty tables for layers of up to `2^max_num_input_var` input and
    /// `2^max_num_output_var` output wires.
    pub fn new(max_num_input_var: usize, max_num_output_var: usize) -> (sp: Self)
        ensures
            sp.fresh(max_num_input_var as nat, max_num_output_var as nat),
    {
        GkrScratchpad {
            v_evals: Vec::new(),
            hg_evals: Vec::new(),
            eq_evals_at_rz: Vec::new(),
            eq_evals_at_rx: Vec::new(),
            max_num_input_var,
            max_num_output_var,
        }
    }
}

/// What a helper holds, as mathematical values.
pub struct HelperView<F: Field> {
    pub v: Seq<F>,
    pub hg: Seq<F>,
    pub weights: Seq<F::BaseField>,
    pub rx: Seq<F::BaseField>,
    pub ry: Seq<F::BaseField>,
}

/// The prover's state in the sumcheck of one layer, for one repetition.
pub struct SumcheckGkrHelper<F: Field> {
    /// The challenges of the first phase.
    pub rx: Vec<F::BaseField>,
    /// The challenges of the second phase.
    pub ry: Vec<F::BaseField>,
    pub input_var_num: usize,
    pub sp: GkrScratchpad<F>,
}

impl<F: Field> View for SumcheckGkrHelper<F> {
    type V = HelperView<F>;

    open spec fn view(&self) -> HelperView<F> {
        HelperView {
            v: self.sp.v_evals@,
            hg: self.sp.hg_evals@,
            weights: self.sp.eq_evals_at_rz@,
            rx: self.rx@,
            ry: self.ry@,
        }
    }
}

impl<F: Field> HelperView<F> {
    /// The state at the start of the layer: the weights, and nothing else.
    pub open spec fn start(weights: Seq<F::BaseField>) -> HelperView<F> {
        HelperView { v: Seq::empty(), hg: Seq::empty(), weights, rx: Seq::empty(), ry: Seq::empty() }
    }

    /// The state as the first phase starts.
    pub open spec fn with_g_x(self, layer: CircuitLayer<F>) -> HelperView<F> {
        HelperView {
            v: layer.input_vals.evals@,
            hg: g_x_table(layer, self.weights, layer.input_vals.evals@),
            ..self
        }
    }

    /// The state as the second phase starts, with the claim `v_rx` on the
    /// input at `rx`.
    pub open spec fn with_h_y(self, layer: CircuitLayer<F>, v_rx: F) -> HelperView<F> {
        HelperView {
            v: layer.input_vals.evals@,
            hg: h_y_table(layer, self.weights, self.rx, v_rx),
            ..self
        }
    }

    /// The state before the sums of round `i_var` are taken: the tables are
    /// set up where a phase starts.
    pub open spec fn prepared(self, layer: CircuitLayer<F>, i_var: int) -> HelperView<F> {
        if i_var == 0 {
            self.with_g_x(layer)
        } else if i_var == layer.input_var_num {
            self.with_h_y(layer, self.v[0])
        } else {
            self
        }
    }

    /// The state after the challenge `r` of round `i_var`: both tables are
    /// folded, and the challenge is recorded.
    pub open spec fn challenged(self, layer: CircuitLayer<F>, i_var: int, r: F::BaseField) -> HelperView<
        F,
    > {
        HelperView {
            v: fold_evals(self.v, F::spec_from_base(r)),
            hg: fold_evals(self.hg, F::spec_from_base(r)),
            weights: self.weights,
            rx: if i_var < layer.input_var_num {
                self.rx.push(r)
            } else {
                self.rx
            },
            ry: if i_var < layer.input_var_num {
                self.ry
            } else {
                self.ry.push(r)
            },
        }
    }

    /// The tables are canonical and have the length that round `i_var`
    /// starts with; the weights are those of the layer's output wires.
    pub open spec fn ready(self, layer: CircuitLayer<F>, i_var: int) -> bool {
        let n = layer.input_var_num as int;
        &&& all_wf(self.weights)
        &&& self.weights.len() == pow2(layer.output_var_num as nat)
        &&& all_wf(self.rx)
        &&& all_wf(self.ry)
        &&& self.rx.len() == (if i_var < n {
            i_var
        } else {
            n
        })
        &&& self.ry.len() == (if i_var < n {
            0
        } else {
            i_var - n
        })
        &&& i_var > 0 ==> {
            &&& all_wf(self.v)
            &&& all_wf(self.hg)
            &&& self.v.len() == self.hg.len()
            &&& self.v.len() == pow2(
                (if i_var <= n {
                    n - i_var
                } else {
                    2 * n - i_var
                }) as nat,
            )
        }
    }
}

impl<F: Field> SumcheckGkrHelper<F> {
    /// A helper for `layer` and the claim on its output at `rz0` and `rz1`,
    /// weighted by `alpha` and `beta`. It takes over the tables of `sp`.
    pub fn new(
        layer: &CircuitLayer<F>,
        rz0: &[F::BaseField],
        rz1: &[F::BaseField],
        alpha: &F::BaseField,
        beta: &F::BaseField,
        sp: GkrScratchpad<F>,
    ) -> (h: Self)
        requires
            layer.gates_wf(),
            rz0@.len() == layer.output_var_num,
            rz1@.len() == layer.output_var_num,
            all_wf(rz0@),
            all_wf(rz1@),
            alpha.wf(),
            beta.wf(),
        ensures
            h@ == HelperView::<F>::start(output_weights(rz0@, rz1@, *alpha, *beta)),
            h.input_var_num == layer.input_var_num,
            h@.ready(*layer, 0),
            h.sp.max_num_input_var == sp.max_num_input_var,
            h.sp.max_num_output_var == sp.max_num_output_var,
    {
        let mut sp = sp;
        sp.eq_evals_at_rz = output_weights_of(rz0, rz1, alpha, beta);
        sp.v_evals.clear();
        sp.hg_evals.clear();
        let h = SumcheckGkrHelper {
            rx: Vec::new(),
            ry: Vec::new(),
            input_var_num: layer.input_var_num,
            sp,
        };
        proof {
            let start = HelperView::<F>::start(output_weights(rz0@, rz1@, *alpha, *beta));
            assert(h@.v =~= start.v);
            assert(h@.hg =~= start.hg);
            assert(h@.rx =~= start.rx);
            assert(h@.ry =~= start.ry);
        }
        h
    }

    /// Hands the tables back.
    pub fn into_scratchpad(self) -> (sp: GkrScratchpad<F>)
        ensures
            sp == self.sp,
    {
        self.sp
    }

    /// Sets the tables up for the first phase.
    pub fn prepare_g_x_vals(&mut self, layer: &CircuitLayer<F>)
        requires
            layer.evaluated(),
            old(self)@.ready(*layer, 0),
        ensures
            final(self)@ == old(self)@.with_g_x(*layer),
            final(self).input_var_num == old(self).input_var_num,
            all_wf(final(self)@.v),
            all_wf(final(self)@.hg),
            final(self)@.v.len() == pow2(layer.input_var_num as nat),
            final(self)@.hg.len() == pow2(layer.input_var_num as nat),
    {
        let size = pow2_usize(layer.input_var_num);
        let input = &layer.input_vals.evals;
        let mut muls = zeros::<F>(size);
        let mut adds = zeros::<F>(size);
        let ghost weights = self.sp.eq_evals_at_rz@;
        proof {
            F::lemma_constants_wf();
            assert(layer.mul@.subrange(0, 0) =~= Seq::<GateMul<F>>::empty());
            assert(layer.add@.subrange(0, 0) =~= Seq::<GateAdd<F>>::empty());
        }
        let mut k: usize = 0;
        while k < layer.mul.len()
            invariant
                k <= layer.mul@.len(),
                layer.evaluated(),
                *input == layer.input_vals.evals,
                weights == self.sp.eq_evals_at_rz@,
                all_wf(weights),
                weights.len() == pow2(layer.output_var_num as nat),
                size == pow2(layer.input_var_num as nat),
                muls@.len() == size,
                all_wf(muls@),
                forall|x: int|
                    0 <= x < size ==> #[trigger] muls@[x] == g_x_mul_sum(
                        layer.mul@.subrange(0, k as int),
                        weights,
                        input@,
                        x,
                    ),
            decreases layer.mul@.len() - k,
        {
            let g = &layer.mul[k];
            proof {
                assert(layer.mul@.subrange(0, k + 1).drop_last() =~= layer.mul@.subrange(
                    0,
                    k as int,
                ));
                assert(layer.mul@.subrange(0, k + 1).last() == layer.mul@[k as int]);
                assert(input@[g.i_ids[1] as int].wf());
                assert(weights[g.o_id as int].wf());
                assert(muls@[g.i_ids[0] as int].wf());
            }
            let w = self.sp.eq_evals_at_rz[g.o_id].mul(&g.coef);
            let term = input[g.i_ids[1]].mul_base_elem(&w);
            let sum = muls[g.i_ids[0]].add(&term);
            muls[g.i_ids[0]] = sum;
            k += 1;
        }
        let mut k: usize = 0;
        while k < layer.add.len()
            invariant
                k <= layer.add@.len(),
                layer.evaluated(),
                weights == self.sp.eq_evals_at_rz@,
                all_wf(weights),
                weights.len() == pow2(layer.output_var_num as nat),
                size == pow2(layer.input_var_num as nat),
                adds@.len() == size,
                all_wf(adds@),
                forall|x: int|
                    0 <= x < size ==> #[trigger] adds@[x] == g_x_add_sum::<F>(
                        layer.add@.subrange(0, k as int),
                        weights,
                        x,
                    ),
            decreases layer.add@.len() - k,
        {
            let g = &layer.add[k];
            proof {
                assert(layer.add@.subrange(0, k + 1).drop_last() =~= layer.add@.subrange(
                    0,
                    k as int,
                ));
                assert(layer.add@.subrange(0, k + 1).last() == layer.add@[k as int]);
                assert(weights[g.o_id as int].wf());
                assert(adds@[g.i_ids[0] as int].wf());
            }
            let w = self.sp.eq_evals_at_rz[g.o_id].mul(&g.coef);
            let term = F::from_base(&w);
            let sum = adds[g.i_ids[0]].add(&term);
            adds[g.i_ids[0]] = sum;
            k += 1;
        }
        proof {
            assert(layer.mul@.subrange(0, layer.mul@.len() as int) =~= layer.mul@);
            assert(layer.add@.subrange(0, layer.add@.len() as int) =~= layer.add@);
        }
        let mut hg: Vec<F> = Vec::new();
        let mut x: usize = 0;
        while x < size
            invariant
                x <= size == pow2(layer.input_var_num as nat),
                muls@.len() == size,
                adds@.len() == size,
                all_wf(muls@),
                all_wf(adds@),
                hg@.len() == x,
                all_wf(hg@),
                forall|y: int| 0 <= y < x ==> #[trigger] hg@[y] == muls@[y].spec_add(adds@[y]),
            decreases size - x,
        {
            proof {
                assert(muls@[x as int].wf() && adds@[x as int].wf());
            }
            hg.push(muls[x].add(&adds[x]));
            x += 1;
        }
        proof {
            assert(hg@ =~= g_x_table(*layer, weights, input@));
        }
        self.sp.v_evals = slice_to_vec(input.as_slice());
        self.sp.hg_evals = hg;
    }

    /// Sets the tables up for the second phase, with the claim `v_rx` on the
    /// input at `rx`.
    pub fn prepare_h_y_vals(&mut self, layer: &CircuitLayer<F>, v_rx: F)
        requires
            layer.evaluated(),
            old(self)@.ready(*layer, layer.input_var_num as int),
            v_rx.wf(),
        ensures
            final(self)@ == old(self)@.with_h_y(*layer, v_rx),
            final(self).input_var_num == old(self).input_var_num,
            all_wf(final(self)@.v),
            all_wf(final(self)@.hg),
            final(self)@.v.len() == pow2(layer.input_var_num as nat),
            final(self)@.hg.len() == pow2(layer.input_var_num as nat),
    {
        let size = pow2_usize(layer.input_var_num);
        let one = F::BaseField::one();
        let eq_rx = eq_table_of(self.rx.as_slice(), &one);
        let mut hg = zeros::<F>(size);
        let ghost weights = self.sp.eq_evals_at_rz@;
        proof {
            F::lemma_constants_wf();
            assert(layer.mul@.subrange(0, 0) =~= Seq::<GateMul<F>>::empty());
        }
        let mut k: usize = 0;
        while k < layer.mul.len()
            invariant
                k <= layer.mul@.len(),
                layer.evaluated(),
                v_rx.wf(),
                weights == self.sp.eq_evals_at_rz@,
                all_wf(weights),
                weights.len() == pow2(layer.output_var_num as nat),
                all_wf(eq_rx@),
                eq_rx@.len() == pow2(layer.input_var_num as nat),
                size == pow2(layer.input_var_num as nat),
                hg@.len() == size,
                all_wf(hg@),
                forall|y: int|
                    0 <= y < size ==> #[trigger] hg@[y] == h_y_sum(
                        layer.mul@.subrange(0, k as int),
                        weights,
                        eq_rx@,
                        v_rx,
                        y,
                    ),
            decreases layer.mul@.len() - k,
        {
            let g = &layer.mul[k];
            proof {
                assert(layer.mul@.subrange(0, k + 1).drop_last() =~= layer.mul@.subrange(
                    0,
                    k as int,
                ));
                assert(layer.mul@.subrange(0, k + 1).last() == layer.mul@[k as int]);
                assert(weights[g.o_id as int].wf());
                assert(eq_rx@[g.i_ids[0] as int].wf());
                assert(hg@[g.i_ids[1] as int].wf());
            }
            let w = self.sp.eq_evals_at_rz[g.o_id].mul(&eq_rx[g.i_ids[0]]).mul(&g.coef);
            let term = v_rx.mul_base_elem(&w);
            let sum = hg[g.i_ids[1]].add(&term);
            hg[g.i_ids[1]] = sum;
            k += 1;
        }
        proof {
            assert(layer.mul@.subrange(0, layer.mul@.len() as int) =~= layer.mul@);
            assert(hg@ =~= h_y_table(*layer, weights, self.rx@, v_rx));
        }
        self.sp.v_evals = slice_to_vec(layer.input_vals.evals.as_slice());
        self.sp.hg_evals = hg;
        self.sp.eq_evals_at_rx = eq_rx;
    }

    /// The values at 0, 1 and 2 of the round polynomial of round `i_var`.
    /// `degree` is 2.
    pub fn poly_evals_at(&self, i_var: usize, degree: usize) -> (r: [F; 3])
        requires
            degree == 2,
            self@.v.len() == self@.hg.len(),
            all_wf(self@.v),
            all_wf(self@.hg),
        ensures
            (r[0], r[1], r[2]) == round_sums(self@.v, self@.hg, self@.v.len() / 2),
            r[0].wf() && r[1].wf() && r[2].wf(),
    {
        let sums = sum_rounds(&self.sp.v_evals, &self.sp.hg_evals);
        [sums.0, sums.1, sums.2]
    }

    /// Takes the challenge `r` of round `i_var`: folds both tables by it,
    /// and records it.
    pub fn receive_challenge(&mut self, layer: &CircuitLayer<F>, i_var: usize, r: F::BaseField)
        requires
            layer.gates_wf(),
            i_var < 2 * layer.input_var_num,
            old(self)@.v.len() == old(self)@.hg.len(),
            old(self)@.v.len() >= 2,
            old(self)@.v.len() % 2 == 0,
            all_wf(old(self)@.v),
            all_wf(old(self)@.hg),
            r.wf(),
        ensures
            final(self)@ == old(self)@.challenged(*layer, i_var as int, r),
            final(self).input_var_num == old(self).input_var_num,
            all_wf(final(self)@.v),
            all_wf(final(self)@.hg),
            final(self).sp.max_num_input_var == old(self).sp.max_num_input_var,
            final(self).sp.max_num_output_var == old(self).sp.max_num_output_var,
    {
        let half = self.sp.v_evals.len() / 2;
        let ghost v0 = self.sp.v_evals@;
        let ghost hg0 = self.sp.hg_evals@;
        proof {
            F::lemma_from_base_homomorphism(r, r);
        }
        fold_in_place_base(&mut self.sp.v_evals, half, &r);
        fold_in_place_base(&mut self.sp.hg_evals, half, &r);
        proof {
            lemma_fold_prefix(v0, self.sp.v_evals@, v0.len(), F::spec_from_base(r));
            lemma_fold_prefix(hg0, self.sp.hg_evals@, hg0.len(), F::spec_from_base(r));
            assert(v0.subrange(0, v0.len() as int) =~= v0);
            assert(hg0.subrange(0, hg0.len() as int) =~= hg0);
            lemma_fold_evals_wf(v0, F::spec_from_base(r));
            lemma_fold_evals_wf(hg0, F::spec_from_base(r));
        }
        self.sp.v_evals.truncate(half);
        self.sp.hg_evals.truncate(half);
        if i_var < layer.input_var_num {
            self.rx.push(r);
        } else {
            self.ry.push(r);
        }
    }

    /// The claim on the input at `rx`: what is left of the value table when
    /// the first phase is over.
    pub fn vx_claim(&self) -> (r: F)
        requires
            self@.v.len() >= 1,
        ensures
            r == self@.v[0],
    {
        self.sp.v_evals[0]
    }

    /// The claim on the input at `ry`: what is left of the value table when
    /// the second phase is over.
    pub fn vy_claim(&self) -> (r: F)
        requires
            self@.v.len() >= 1,
        ensures
            r == self@.v[0],
    {
        self.sp.v_evals[0]
    }
}

} // verus!
