//! Layered arithmetic circuits: each layer computes its outputs from the
//! outputs of the layer before by sparse lists of gates.
use crate::field::{lemma_pow2_monotone, pow2, Field, FieldArith};
use crate::poly::{all_boolean, all_wf, MultiLinearPoly};
use rand::rngs::StdRng;
use vstd::prelude::*;
use vstd::slice::slice_to_vec;

verus! {

/// A gate with `INPUT_NUM` input wires: it adds the product of its inputs,
/// times `coef`, to the output wire `o_id`.

pub struct Gate<F: Field, const INPUT_NUM: usize> {
    pub i_ids: [usize; INPUT_NUM],
    pub o_id: usize,
    pub coef: F::BaseField,
}

pub type GateMul<F> = Gate<F, 2>;

pub type GateAdd<F> = Gate<F, 1>;

pub type GateConst<F> = Gate<F, 0>;

/// One layer: its gates, and the values on its input and output wires.

pub struct CircuitLayer<F: Field> {
    pub input_var_num: usize,
    pub output_var_num: usize,
    pub input_vals: MultiLinearPoly<F>,
    pub output_vals: MultiLinearPoly<F>,
    pub mul: Vec<GateMul<F>>,
    pub add: Vec<GateAdd<F>>,
    pub const_: Vec<GateConst<F>>,
}

/// A circuit: layer 0 takes the circuit's input, each further layer the
/// output of the layer before.

pub struct Circuit<F: Field> {
    pub layers: Vec<CircuitLayer<F>>,
}

/// What the multiplication gates add to output wire `o`: for each gate on `o`
/// the product of its two inputs times its coefficient, summed in the order
/// of the gates.
pub open spec fn mul_gates_sum<F: Field>(gates: Seq<GateMul<F>>, input: Seq<F>, o: int) -> F
    decreases gates.len(),
{
    if gates.len() == 0 {
        F::spec_zero()
    } else {
        let g = gates.last();
        let rest = mul_gates_sum(gates.drop_last(), input, o);
        if g.o_id == o {
            rest.spec_add(
                input[g.i_ids[0] as int].spec_mul(input[g.i_ids[1] as int]).spec_mul(
                    F::spec_from_base(g.coef),
                ),
            )
        } else {
            rest
        }
    }
}

/// What the addition gates add to output wire `o`: for each gate on `o` its
/// input times its coefficient.
pub open spec fn add_gates_sum<F: Field>(gates: Seq<GateAdd<F>>, input: Seq<F>, o: int) -> F
    decreases gates.len(),
{
    if gates.len() == 0 {
        F::spec_zero()
    } else {
        let g = gates.last();
        let rest = add_gates_sum(gates.drop_last(), input, o);
        if g.o_id == o {
            rest.spec_add(input[g.i_ids[0] as int].spec_mul(F::spec_from_base(g.coef)))
        } else {
            rest
        }
    }
}

/// What the constant gates add to output wire `o`: the coefficient of each
/// gate on `o`.
pub open spec fn const_gates_sum<F: Field>(gates: Seq<GateConst<F>>, o: int) -> F
    decreases gates.len(),
{
    if gates.len() == 0 {
        F::spec_zero()
    } else {
        let g = gates.last();
        let rest = const_gates_sum(gates.drop_last(), o);
        if g.o_id == o {
            rest.spec_add(F::spec_from_base(g.coef))
        } else {
            rest
        }
    }
}

/// The value on output wire `o` of a layer with the values `input` on its
/// input wires.
pub open spec fn layer_output_at<F: Field>(layer: CircuitLayer<F>, input: Seq<F>, o: int) -> F {
    gates_output_at(layer.mul@, layer.add@, layer.const_@, input, o)
}

/// The value that the gates put on output wire `o`.
pub open spec fn gates_output_at<F: Field>(
    mul: Seq<GateMul<F>>,
    add: Seq<GateAdd<F>>,
    const_: Seq<GateConst<F>>,
    input: Seq<F>,
    o: int,
) -> F {
    mul_gates_sum(mul, input, o).spec_add(add_gates_sum(add, input, o)).spec_add(
        const_gates_sum(const_, o),
    )
}

/// The values on the output wires of a layer.
pub open spec fn layer_output<F: Field>(layer: CircuitLayer<F>, input: Seq<F>) -> Seq<F> {
    Seq::new(
        pow2(layer.output_var_num as nat),
        |o: int| gates_output_at(layer.mul@, layer.add@, layer.const_@, input, o),
    )
}

/// The output of a layer depends on its gates alone.
pub proof fn lemma_layer_output_same_gates<F: Field>(
    a: CircuitLayer<F>,
    b: CircuitLayer<F>,
    input: Seq<F>,
)
    requires
        a.mul == b.mul,
        a.add == b.add,
        a.const_ == b.const_,
        a.output_var_num == b.output_var_num,
    ensures
        layer_output(a, input) == layer_output(b, input),
{
    assert(layer_output(a, input) =~= layer_output(b, input));
}

/// The sums of gate contributions are canonical.
pub proof fn lemma_gate_sums_wf<F: Field>(layer: CircuitLayer<F>, input: Seq<F>, o: int)
    requires
        layer.gates_wf(),
        all_wf(input),
        input.len() == pow2(layer.input_var_num as nat),
    ensures
        mul_gates_sum(layer.mul@, input, o).wf(),
        add_gates_sum(layer.add@, input, o).wf(),
        const_gates_sum(layer.const_@, o).wf(),
        layer_output_at(layer, input, o).wf(),
{
    lemma_mul_sum_wf::<F>(layer.mul@, input, o);
    lemma_add_sum_wf::<F>(layer.add@, input, o);
    lemma_const_sum_wf::<F>(layer.const_@, o);
    F::lemma_closed(mul_gates_sum(layer.mul@, input, o), add_gates_sum(layer.add@, input, o));
    F::lemma_closed(
        mul_gates_sum(layer.mul@, input, o).spec_add(add_gates_sum(layer.add@, input, o)),
        const_gates_sum(layer.const_@, o),
    );
}

pub proof fn lemma_mul_sum_wf<F: Field>(gates: Seq<GateMul<F>>, input: Seq<F>, o: int)
    requires
        all_wf(input),
        forall|k: int|
            0 <= k < gates.len() ==> (#[trigger] gates[k]).coef.wf() && gates[k].i_ids[0]
                < input.len() && gates[k].i_ids[1] < input.len(),
    ensures
        mul_gates_sum(gates, input, o).wf(),
    decreases gates.len(),
{
    F::lemma_constants_wf();
    if gates.len() > 0 {
        let g = gates.last();
        assert forall|k: int| 0 <= k < gates.drop_last().len() implies (
        #[trigger] gates.drop_last()[k]).coef.wf() && gates.drop_last()[k].i_ids[0] < input.len()
            && gates.drop_last()[k].i_ids[1] < input.len() by {
            assert(gates.drop_last()[k] == gates[k]);
        }
        lemma_mul_sum_wf::<F>(gates.drop_last(), input, o);
        let a = input[g.i_ids[0] as int];
        let b = input[g.i_ids[1] as int];
        assert(a.wf() && b.wf());
        F::lemma_from_base_homomorphism(g.coef, g.coef);
        F::lemma_closed(a, b);
        F::lemma_closed(a.spec_mul(b), F::spec_from_base(g.coef));
        F::lemma_closed(
            mul_gates_sum(gates.drop_last(), input, o),
            a.spec_mul(b).spec_mul(F::spec_from_base(g.coef)),
        );
    }
}

pub proof fn lemma_add_sum_wf<F: Field>(gates: Seq<GateAdd<F>>, input: Seq<F>, o: int)
    requires
        all_wf(input),
        forall|k: int|
            0 <= k < gates.len() ==> (#[trigger] gates[k]).coef.wf() && gates[k].i_ids[0]
                < input.len(),
    ensures
        add_gates_sum(gates, input, o).wf(),
    decreases gates.len(),
{
    F::lemma_constants_wf();
    if gates.len() > 0 {
        let g = gates.last();
        assert forall|k: int| 0 <= k < gates.drop_last().len() implies (
        #[trigger] gates.drop_last()[k]).coef.wf() && gates.drop_last()[k].i_ids[0]
            < input.len() by {
            assert(gates.drop_last()[k] == gates[k]);
        }
        lemma_add_sum_wf::<F>(gates.drop_last(), input, o);
        let a = input[g.i_ids[0] as int];
        assert(a.wf());
        F::lemma_from_base_homomorphism(g.coef, g.coef);
        F::lemma_closed(a, F::spec_from_base(g.coef));
        F::lemma_closed(
            add_gates_sum(gates.drop_last(), input, o),
            a.spec_mul(F::spec_from_base(g.coef)),
        );
    }
}

pub proof fn lemma_const_sum_wf<F: Field>(gates: Seq<GateConst<F>>, o: int)
    requires
        forall|k: int| 0 <= k < gates.len() ==> (#[trigger] gates[k]).coef.wf(),
    ensures
        const_gates_sum::<F>(gates, o).wf(),
    decreases gates.len(),
{
    F::lemma_constants_wf();
    if gates.len() > 0 {
        let g = gates.last();
        assert forall|k: int| 0 <= k < gates.drop_last().len() implies (
        #[trigger] gates.drop_last()[k]).coef.wf() by {
            assert(gates.drop_last()[k] == gates[k]);
        }
        lemma_const_sum_wf::<F>(gates.drop_last(), o);
        F::lemma_from_base_homomorphism(g.coef, g.coef);
        F::lemma_closed(const_gates_sum::<F>(gates.drop_last(), o), F::spec_from_base(g.coef));
    }
}

impl<F: Field> Default for CircuitLayer<F> {
    fn default() -> (r: Self)
        ensures
            r.input_var_num == 0,
            r.output_var_num == 0,
            r.mul@.len() == 0,
            r.add@.len() == 0,
            r.const_@.len() == 0,
            r.input_vals.evals@.len() == 0,
            r.output_vals.evals@.len() == 0,
    {
        CircuitLayer {
            input_var_num: 0,
            output_var_num: 0,
            input_vals: MultiLinearPoly { var_num: 0, evals: Vec::new() },
            output_vals: MultiLinearPoly { var_num: 0, evals: Vec::new() },
            mul: Vec::new(),
            add: Vec::new(),
            const_: Vec::new(),
        }
    }
}

impl<F: Field> Default for Circuit<F> {
    fn default() -> (r: Self)
        ensures
            r.layers@.len() == 0,
    {
        Circuit { layers: Vec::new() }
    }
}

impl<F: Field> CircuitLayer<F> {
    /// The wires that the gates name exist, the coefficients are canonical,
    /// and the wire counts fit a machine word.
    pub open spec fn gates_wf(&self) -> bool {
        &&& self.input_var_num < 32
        &&& self.output_var_num < 32
        &&& forall|k: int|
            0 <= k < self.mul@.len() ==> (#[trigger] self.mul@[k]).coef.wf() && self.mul@[k].o_id
                < pow2(self.output_var_num as nat) && self.mul@[k].i_ids[0] < pow2(
                self.input_var_num as nat,
            ) && self.mul@[k].i_ids[1] < pow2(self.input_var_num as nat)
        &&& forall|k: int|
            0 <= k < self.add@.len() ==> (#[trigger] self.add@[k]).coef.wf() && self.add@[k].o_id
                < pow2(self.output_var_num as nat) && self.add@[k].i_ids[0] < pow2(
                self.input_var_num as nat,
            )
        &&& forall|k: int|
            0 <= k < self.const_@.len() ==> (#[trigger] self.const_@[k]).coef.wf()
                && self.const_@[k].o_id < pow2(self.output_var_num as nat)
    }

    /// The gates are well-formed, and the layer holds the values on its
    /// wires: canonical inputs, and the outputs that the gates compute from
    /// them.
    pub open spec fn evaluated(&self) -> bool {
        &&& self.gates_wf()
        &&& self.input_vals.var_num == self.input_var_num
        &&& self.input_vals.wf()
        &&& self.output_vals.var_num == self.output_var_num
        &&& self.output_vals.evals@ == layer_output(*self, self.input_vals.evals@)
    }

    /// Whether the wires that the gates name exist, the coefficients are
    /// canonical, and the wire counts fit a machine word.
    pub fn gates_well_formed(&self) -> (r: bool)
        ensures
            r == self.gates_wf(),
    {
        if self.input_var_num >= 32 || self.output_var_num >= 32 {
            return false;
        }
        let inputs = pow2_usize(self.input_var_num);
        let outputs = pow2_usize(self.output_var_num);
        let mut k: usize = 0;
        while k < self.mul.len()
            invariant
                k <= self.mul@.len(),
                inputs == pow2(self.input_var_num as nat),
                outputs == pow2(self.output_var_num as nat),
                forall|m: int|
                    0 <= m < k ==> (#[trigger] self.mul@[m]).coef.wf() && self.mul@[m].o_id
                        < outputs && self.mul@[m].i_ids[0] < inputs && self.mul@[m].i_ids[1]
                        < inputs,
            decreases self.mul@.len() - k,
        {
            let g = &self.mul[k];
            if !g.coef.is_canonical() || g.o_id >= outputs || g.i_ids[0] >= inputs || g.i_ids[1]
                >= inputs {
                return false;
            }
            k += 1;
        }
        let mut k: usize = 0;
        while k < self.add.len()
            invariant
                k <= self.add@.len(),
                inputs == pow2(self.input_var_num as nat),
                outputs == pow2(self.output_var_num as nat),
                forall|m: int|
                    0 <= m < k ==> (#[trigger] self.add@[m]).coef.wf() && self.add@[m].o_id
                        < outputs && self.add@[m].i_ids[0] < inputs,
            decreases self.add@.len() - k,
        {
            let g = &self.add[k];
            if !g.coef.is_canonical() || g.o_id >= outputs || g.i_ids[0] >= inputs {
                return false;
            }
            k += 1;
        }
        let mut k: usize = 0;
        while k < self.const_.len()
            invariant
                k <= self.const_@.len(),
                outputs == pow2(self.output_var_num as nat),
                forall|m: int|
                    0 <= m < k ==> (#[trigger] self.const_@[m]).coef.wf() && self.const_@[m].o_id
                        < outputs,
            decreases self.const_@.len() - k,
        {
            let g = &self.const_[k];
            if !g.coef.is_canonical() || g.o_id >= outputs {
                return false;
            }
            k += 1;
        }
        true
    }

    /// The values on the output wires for the values `input` on the input
    /// wires.
    pub fn evaluate(&self, input: &Vec<F>) -> (res: Vec<F>)
        requires
            self.gates_wf(),
            all_wf(input@),
            input@.len() == pow2(self.input_var_num as nat),
        ensures
            res@ == layer_output(*self, input@),
            all_wf(res@),
    {
        let size = pow2_usize(self.output_var_num);
        let zero = F::zero();
        let mut muls: Vec<F> = Vec::new();
        let mut adds: Vec<F> = Vec::new();
        let mut consts: Vec<F> = Vec::new();
        let mut o: usize = 0;
        while o < size
            invariant
                o <= size,
                zero == F::spec_zero(),
                muls@.len() == o,
                adds@.len() == o,
                consts@.len() == o,
                forall|x: int| 0 <= x < o ==> #[trigger] muls@[x] == F::spec_zero(),
                forall|x: int| 0 <= x < o ==> #[trigger] adds@[x] == F::spec_zero(),
                forall|x: int| 0 <= x < o ==> #[trigger] consts@[x] == F::spec_zero(),
            decreases size - o,
        {
            muls.push(zero);
            adds.push(zero);
            consts.push(zero);
            o += 1;
        }
        proof {
            F::lemma_constants_wf();
            assert(self.mul@.subrange(0, 0) =~= Seq::<GateMul<F>>::empty());
            assert(self.add@.subrange(0, 0) =~= Seq::<GateAdd<F>>::empty());
            assert(self.const_@.subrange(0, 0) =~= Seq::<GateConst<F>>::empty());
        }
        let mut k: usize = 0;
        while k < self.mul.len()
            invariant
                k <= self.mul@.len(),
                self.gates_wf(),
                all_wf(input@),
                input@.len() == pow2(self.input_var_num as nat),
                size == pow2(self.output_var_num as nat),
                muls@.len() == size,
                all_wf(muls@),
                forall|x: int|
                    0 <= x < size ==> #[trigger] muls@[x] == mul_gates_sum(
                        self.mul@.subrange(0, k as int),
                        input@,
                        x,
                    ),
            decreases self.mul@.len() - k,
        {
            let g = &self.mul[k];
            proof {
                assert(self.mul@.subrange(0, k + 1).drop_last() =~= self.mul@.subrange(0, k as int));
                assert(self.mul@.subrange(0, k + 1).last() == self.mul@[k as int]);
                assert(input@[g.i_ids[0] as int].wf() && input@[g.i_ids[1] as int].wf());
                assert(muls@[g.o_id as int].wf());
            }
            let term = input[g.i_ids[0]].mul(&input[g.i_ids[1]]).mul_base_elem(&g.coef);
            let sum = muls[g.o_id].add(&term);
            muls[g.o_id] = sum;
            k += 1;
        }
        let mut k: usize = 0;
        while k < self.add.len()
            invariant
                k <= self.add@.len(),
                self.gates_wf(),
                all_wf(input@),
                input@.len() == pow2(self.input_var_num as nat),
                size == pow2(self.output_var_num as nat),
                adds@.len() == size,
                all_wf(adds@),
                forall|x: int|
                    0 <= x < size ==> #[trigger] adds@[x] == add_gates_sum(
                        self.add@.subrange(0, k as int),
                        input@,
                        x,
                    ),
            decreases self.add@.len() - k,
        {
            let g = &self.add[k];
            proof {
                assert(self.add@.subrange(0, k + 1).drop_last() =~= self.add@.subrange(0, k as int));
                assert(self.add@.subrange(0, k + 1).last() == self.add@[k as int]);
                assert(input@[g.i_ids[0] as int].wf());
                assert(adds@[g.o_id as int].wf());
            }
            let term = input[g.i_ids[0]].mul_base_elem(&g.coef);
            let sum = adds[g.o_id].add(&term);
            adds[g.o_id] = sum;
            k += 1;
        }
        let mut k: usize = 0;
        while k < self.const_.len()
            invariant
                k <= self.const_@.len(),
                self.gates_wf(),
                size == pow2(self.output_var_num as nat),
                consts@.len() == size,
                all_wf(consts@),
                forall|x: int|
                    0 <= x < size ==> #[trigger] consts@[x] == const_gates_sum::<F>(
                        self.const_@.subrange(0, k as int),
                        x,
                    ),
            decreases self.const_@.len() - k,
        {
            let g = &self.const_[k];
            proof {
                assert(self.const_@.subrange(0, k + 1).drop_last() =~= self.const_@.subrange(
                    0,
                    k as int,
                ));
                assert(self.const_@.subrange(0, k + 1).last() == self.const_@[k as int]);
                assert(consts@[g.o_id as int].wf());
            }
            let term = F::from_base(&g.coef);
            let sum = consts[g.o_id].add(&term);
            consts[g.o_id] = sum;
            k += 1;
        }
        proof {
            assert(self.mul@.subrange(0, self.mul@.len() as int) =~= self.mul@);
            assert(self.add@.subrange(0, self.add@.len() as int) =~= self.add@);
            assert(self.const_@.subrange(0, self.const_@.len() as int) =~= self.const_@);
        }
        let mut res: Vec<F> = Vec::new();
        let mut o: usize = 0;
        while o < size
            invariant
                o <= size == pow2(self.output_var_num as nat),
                muls@.len() == size,
                adds@.len() == size,
                consts@.len() == size,
                all_wf(muls@),
                all_wf(adds@),
                all_wf(consts@),
                forall|x: int|
                    0 <= x < size ==> #[trigger] muls@[x] == mul_gates_sum(self.mul@, input@, x),
                forall|x: int|
                    0 <= x < size ==> #[trigger] adds@[x] == add_gates_sum(self.add@, input@, x),
                forall|x: int|
                    0 <= x < size ==> #[trigger] consts@[x] == const_gates_sum::<F>(
                        self.const_@,
                        x,
                    ),
                res@.len() == o,
                all_wf(res@),
                forall|x: int| 0 <= x < o ==> #[trigger] res@[x] == layer_output_at(*self, input@, x),
            decreases size - o,
        {
            proof {
                assert(muls@[o as int].wf() && adds@[o as int].wf() && consts@[o as int].wf());
            }
            res.push(muls[o].add(&adds[o]).add(&consts[o]));
            o += 1;
        }
        proof {
            assert(res@ =~= layer_output(*self, input@));
        }
        res
    }
}

/// The values on the output wires of a layer with canonical inputs are
/// canonical.
pub proof fn lemma_layer_output_wf<F: Field>(layer: CircuitLayer<F>, input: Seq<F>)
    requires
        layer.gates_wf(),
        all_wf(input),
        input.len() == pow2(layer.input_var_num as nat),
    ensures
        all_wf(layer_output(layer, input)),
        layer_output(layer, input).len() == pow2(layer.output_var_num as nat),
{
    assert forall|o: int| 0 <= o < layer_output(layer, input).len() implies (
    #[trigger] layer_output(layer, input)[o]).wf() by {
        lemma_gate_sums_wf(layer, input, o);
    }
}

/// A layer has `2^output_var_num` output wires.
pub proof fn lemma_layer_output_len<F: Field>(layer: CircuitLayer<F>, input: Seq<F>)
    ensures
        layer_output(layer, input).len() == pow2(layer.output_var_num as nat),
{
}

/// `2^k`, for `k < 32`.
pub fn pow2_usize(k: usize) -> (r: usize)
    requires
        k < 32,
    ensures
        r == pow2(k as nat),
        0 < r <= 0x8000_0000,
{
    let mut r: usize = 1;
    let mut i: usize = 0;
    while i < k
        invariant
            i <= k < 32,
            r == pow2(i as nat),
            r <= 0x8000_0000,
        decreases k - i,
    {
        proof {
            crate::mul_group::lemma_pow2_small((i + 1) as nat);
        }
        r = r * 2;
        i += 1;
    }
    proof {
        lemma_pow2_monotone(0, k as nat);
    }
    r
}

impl<F: Field> Circuit<F> {
    /// Every layer's gates are well-formed, each layer takes as many wires
    /// as the layer before gives, and there is at least one layer.
    pub open spec fn wf(&self) -> bool {
        &&& self.layers@.len() >= 1
        &&& forall|i: int| 0 <= i < self.layers@.len() ==> (#[trigger] self.layers@[i]).gates_wf()
        &&& forall|i: int|
            0 <= i < self.layers@.len() - 1 ==> (#[trigger] self.layers@[i]).output_var_num
                == self.layers@[i + 1].input_var_num
    }

    /// The circuit is well-formed and every layer holds the values on its
    /// wires, each layer taking the output of the layer before.
    pub open spec fn evaluated(&self) -> bool {
        &&& self.wf()
        &&& forall|i: int| 0 <= i < self.layers@.len() ==> (#[trigger] self.layers@[i]).evaluated()
        &&& forall|i: int|
            0 <= i < self.layers@.len() - 1 ==> (#[trigger] self.layers@[i]).output_vals.evals@
                == self.layers@[i + 1].input_vals.evals@
    }

    /// Whether every layer's gates are well-formed, each layer takes as many
    /// wires as the layer before gives, and there is at least one layer.
    pub fn is_well_formed(&self) -> (r: bool)
        ensures
            r == self.wf(),
    {
        let n = self.layers.len();
        if n == 0 {
            return false;
        }
        let mut i: usize = 0;
        while i < n
            invariant
                i <= n == self.layers@.len(),
                forall|k: int| 0 <= k < i ==> (#[trigger] self.layers@[k]).gates_wf(),
                forall|k: int|
                    0 <= k < i && k < n - 1 ==> (#[trigger] self.layers@[k]).output_var_num
                        == self.layers@[k + 1].input_var_num,
            decreases n - i,
        {
            if !self.layers[i].gates_well_formed() {
                return false;
            }
            if i + 1 < n && self.layers[i].output_var_num != self.layers[i + 1].input_var_num {
                return false;
            }
            i += 1;
        }
        true
    }

    /// Whether the input of layer 0 is set: `2^input_var_num` canonical
    /// values.
    pub fn has_input(&self) -> (r: bool)
        requires
            self.layers@.len() >= 1,
        ensures
            r == (self.layers@[0].input_vals.wf() && self.layers@[0].input_vals.var_num
                == self.layers@[0].input_var_num),
    {
        self.layers[0].input_vals.var_num == self.layers[0].input_var_num
            && self.layers[0].input_vals.is_well_formed()
    }

    /// The layers differ from those of `other` at most in the values they
    /// hold.
    pub open spec fn same_gates(&self, other: &Self) -> bool {
        &&& self.layers@.len() == other.layers@.len()
        &&& forall|i: int|
            0 <= i < self.layers@.len() ==> {
                &&& (#[trigger] self.layers@[i]).input_var_num == other.layers@[i].input_var_num
                &&& self.layers@[i].output_var_num == other.layers@[i].output_var_num
                &&& self.layers@[i].mul == other.layers@[i].mul
                &&& self.layers@[i].add == other.layers@[i].add
                &&& self.layers@[i].const_ == other.layers@[i].const_
            }
    }

    /// Propagates the input of layer 0 through the circuit: every layer gets
    /// its output computed, and hands it to the next layer as input.
    pub fn evaluate(&mut self)
        requires
            old(self).wf(),
            old(self).layers@[0].input_vals.wf(),
            old(self).layers@[0].input_vals.var_num == old(self).layers@[0].input_var_num,
        ensures
            final(self).evaluated(),
            final(self).same_gates(old(self)),
            final(self).layers@[0].input_vals == old(self).layers@[0].input_vals,
    {
        let n = self.layers.len();
        let mut i: usize = 0;
        while i < n
            invariant
                i <= n == self.layers@.len(),
                self.wf(),
                self.same_gates(old(self)),
                self.layers@[0].input_vals == old(self).layers@[0].input_vals,
                forall|k: int| 0 <= k < i ==> (#[trigger] self.layers@[k]).evaluated(),
                forall|k: int|
                    0 <= k < i && k + 1 < n ==> (#[trigger] self.layers@[k]).output_vals.evals@
                        == self.layers@[k + 1].input_vals.evals@,
                i < n ==> self.layers@[i as int].input_vals.wf()
                    && self.layers@[i as int].input_vals.var_num
                    == self.layers@[i as int].input_var_num,
            decreases n - i,
        {
            let ghost before = *self;
            proof {
                assert(self.layers@[i as int].gates_wf());
            }
            let out = self.layers[i].evaluate(&self.layers[i].input_vals.evals);
            let var_num = self.layers[i].output_var_num;
            proof {
                lemma_layer_output_len(self.layers@[i as int], self.layers@[i as int].input_vals.evals@);
            }
            if i + 1 < n {
                let copy = slice_to_vec(out.as_slice());
                let mut next = CircuitLayer::<F>::default();
                core::mem::swap(&mut self.layers[i + 1], &mut next);
                next.input_vals = MultiLinearPoly { var_num, evals: copy };
                core::mem::swap(&mut self.layers[i + 1], &mut next);
            }
            let mut cur = CircuitLayer::<F>::default();
            core::mem::swap(&mut self.layers[i], &mut cur);
            cur.output_vals = MultiLinearPoly { var_num, evals: out };
            core::mem::swap(&mut self.layers[i], &mut cur);
            proof {
                assert forall|k: int| 0 <= k < n implies (#[trigger] self.layers@[k]).gates_wf() by {
                    assert(before.layers@[k].gates_wf());
                }
                assert forall|k: int| 0 <= k < i + 1 implies (
                #[trigger] self.layers@[k]).evaluated() by {
                    if k < i {
                        assert(before.layers@[k].evaluated());
                        assert(self.layers@[k] == before.layers@[k]);
                    } else {
                        lemma_layer_output_same_gates(
                            self.layers@[k],
                            before.layers@[k],
                            before.layers@[k].input_vals.evals@,
                        );
                    }
                }
            }
            i += 1;
        }
    }

    /// Fills the input of layer 0 with Boolean values drawn from `rng`, one
    /// for each input wire.
    pub fn set_random_bool_input_for_test(&mut self, rng: &mut StdRng)
        requires
            old(self).wf(),
        ensures
            final(self).wf(),
            final(self).same_gates(old(self)),
            final(self).layers@[0].input_vals.wf(),
            final(self).layers@[0].input_vals.var_num == final(self).layers@[0].input_var_num,
            all_boolean(final(self).layers@[0].input_vals.evals@),
    {
        proof {
            assert(self.layers@[0].gates_wf());
        }
        let var_num = self.layers[0].input_var_num;
        let size = pow2_usize(var_num);
        let mut evals: Vec<F> = Vec::new();
        let mut k: usize = 0;
        while k < size
            invariant
                k <= size,
                evals@.len() == k,
                all_wf(evals@),
                all_boolean(evals@),
            decreases size - k,
        {
            evals.push(F::random_bool_unsafe(rng));
            k += 1;
        }
        let ghost before = *self;
        let mut first = CircuitLayer::<F>::default();
        core::mem::swap(&mut self.layers[0], &mut first);
        first.input_vals = MultiLinearPoly { var_num, evals };
        core::mem::swap(&mut self.layers[0], &mut first);
        proof {
            assert forall|i: int| 0 <= i < self.layers@.len() implies (
            #[trigger] self.layers@[i]).gates_wf() by {
                assert(before.layers@[i].gates_wf());
            }
        }
    }

    /// The number of variables of the circuit's input.
    pub fn log_input_size(&self) -> (n: usize)
        requires
            self.layers@.len() >= 1,
        ensures
            n == self.layers@[0].input_var_num,
    {
        self.layers[0].input_var_num
    }
}

} // verus!
