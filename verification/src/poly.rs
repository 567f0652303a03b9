//! Multilinear polynomials given by their values on the Boolean hypercube.
//!
//! Variable 0 is the least significant bit of the index of a value.
use crate::field::algebra::{interpolate, lemma_interpolate, lemma_interpolate_swap};
use crate::field::{lemma_pow2_monotone, pow2, Field, FieldArith};
use vstd::prelude::*;
use vstd::slice::slice_to_vec;

verus! {

/// Every element of `s` is canonical.
pub open spec fn all_wf<F: FieldArith>(s: Seq<F>) -> bool {
    forall|i: int| 0 <= i < s.len() ==> (#[trigger] s[i]).wf()
}

/// Every element of `s` is Boolean.
pub open spec fn all_boolean<F: FieldArith>(s: Seq<F>) -> bool {
    forall|i: int| 0 <= i < s.len() ==> (#[trigger] s[i]).spec_boolean()
}

/// The values of the polynomial with its first variable fixed to `r`:
/// entry `i` lies on the line through entries `2i` and `2i + 1`.
pub open spec fn fold_evals<F: FieldArith>(evals: Seq<F>, r: F) -> Seq<F> {
    Seq::new((evals.len() / 2) as nat, |i: int| interpolate(evals[2 * i], evals[2 * i + 1], r))
}

/// The value at `x` of the multilinear polynomial with the values `evals`
/// on the hypercube: the variables are fixed one by one, variable 0 first.
pub open spec fn mle_eval<F: FieldArith>(evals: Seq<F>, x: Seq<F>) -> F
    decreases x.len(),
{
    if x.len() == 0 {
        evals[0]
    } else {
        mle_eval(fold_evals(evals, x[0]), x.skip(1))
    }
}

/// A point of the base field, read as a point of the field.
pub open spec fn embed_point<F: Field>(x: Seq<F::BaseField>) -> Seq<F> {
    Seq::new(x.len(), |i: int| F::spec_from_base(x[i]))
}

/// Every coordinate is 0 or 1.
pub open spec fn is_boolean_point<F: FieldArith>(x: Seq<F>) -> bool {
    forall|i: int| 0 <= i < x.len() ==> (#[trigger] x[i]) == F::spec_zero() || x[i] == F::spec_one()
}

/// The index of the hypercube vertex `x`: coordinate `i` is bit `i`.
pub open spec fn vertex_index<F: FieldArith>(x: Seq<F>) -> nat
    decreases x.len(),
{
    if x.len() == 0 {
        0
    } else {
        (if x[0] == F::spec_one() {
            1nat
        } else {
            0nat
        }) + 2 * vertex_index(x.skip(1))
    }
}

/// A multilinear polynomial in `var_num` variables.
#[derive(Clone, Debug)]
pub struct MultiLinearPoly<F: FieldArith> {
    /// Number of variables.
    pub var_num: usize,
    /// Values on the hypercube, `2^var_num` of them.
    pub evals: Vec<F>,
}

/// Whether every element of `vals` is canonical.
pub fn all_canonical<F: FieldArith>(vals: &[F]) -> (r: bool)
    ensures
        r == all_wf(vals@),
{
    let mut i: usize = 0;
    while i < vals.len()
        invariant
            i <= vals@.len(),
            forall|j: int| 0 <= j < i ==> (#[trigger] vals@[j]).wf(),
        decreases vals@.len() - i,
    {
        if !vals[i].is_canonical() {
            return false;
        }
        i += 1;
    }
    true
}

/// Whether `len` is `2^n`.
pub fn is_pow2_of(len: usize, n: usize) -> (r: bool)
    ensures
        r == (len == pow2(n as nat)),
{
    let mut size: usize = len;
    let mut k: usize = 0;
    while k < n
        invariant
            k <= n,
            (len == pow2(n as nat)) == (size == pow2((n - k) as nat)),
        decreases n - k,
    {
        proof {
            lemma_pow2_monotone(0, (n - k - 1) as nat);
        }
        if size == 0 || size % 2 != 0 {
            return false;
        }
        size = size / 2;
        k += 1;
    }
    size == 1
}

/// Folding canonical values gives canonical values, half as many.
pub proof fn lemma_fold_evals_wf<F: FieldArith>(evals: Seq<F>, r: F)
    requires
        all_wf(evals),
        r.wf(),
    ensures
        all_wf(fold_evals(evals, r)),
        fold_evals(evals, r).len() == evals.len() / 2,
{
    assert forall|i: int| 0 <= i < fold_evals(evals, r).len() implies (#[trigger] fold_evals(
        evals,
        r,
    )[i]).wf() by {
        assert(evals[2 * i].wf() && evals[2 * i + 1].wf());
        lemma_interpolate(evals[2 * i], evals[2 * i + 1], r);
    }
}

/// The value of a polynomial with canonical values at a canonical point is
/// canonical.
pub proof fn lemma_mle_eval_wf<F: FieldArith>(evals: Seq<F>, x: Seq<F>)
    requires
        all_wf(evals),
        all_wf(x),
        evals.len() == pow2(x.len()),
    ensures
        mle_eval(evals, x).wf(),
    decreases x.len(),
{
    lemma_pow2_monotone(0, x.len());
    if x.len() > 0 {
        lemma_fold_evals_wf(evals, x[0]);
        lemma_mle_eval_wf(fold_evals(evals, x[0]), x.skip(1));
    }
}

/// On a vertex of the hypercube the polynomial takes the value stored for
/// that vertex.
pub proof fn lemma_mle_on_hypercube<F: FieldArith>(evals: Seq<F>, x: Seq<F>)
    requires
        all_wf(evals),
        is_boolean_point(x),
        evals.len() == pow2(x.len()),
    ensures
        vertex_index(x) < evals.len(),
        mle_eval(evals, x) == evals[vertex_index(x) as int],
    decreases x.len(),
{
    if x.len() > 0 {
        let folded = fold_evals(evals, x[0]);
        let rest = x.skip(1);
        F::lemma_constants_wf();
        assert(x[0] == F::spec_zero() || x[0] == F::spec_one());
        lemma_fold_evals_wf(evals, x[0]);
        assert forall|i: int| 0 <= i < rest.len() implies (#[trigger] rest[i]) == F::spec_zero()
            || rest[i] == F::spec_one() by {
            assert(rest[i] == x[i + 1]);
        }
        lemma_mle_on_hypercube(folded, rest);
        let j = vertex_index(rest) as int;
        assert(evals[2 * j].wf() && evals[2 * j + 1].wf());
        lemma_interpolate(evals[2 * j], evals[2 * j + 1], x[0]);
    }
}

/// The values that lie, entry by entry, on the lines through the entries of
/// `a` at 0 and of `b` at 1, taken at `t`.
pub open spec fn blend<F: FieldArith>(a: Seq<F>, b: Seq<F>, t: F) -> Seq<F> {
    Seq::new(a.len(), |j: int| interpolate(a[j], b[j], t))
}

/// The value of a polynomial is linear in its values: the polynomial with
/// the values blended from `a` and `b` takes, at every point, the value
/// blended from the values of the two polynomials.
pub proof fn lemma_mle_eval_blend<F: FieldArith>(a: Seq<F>, b: Seq<F>, t: F, x: Seq<F>)
    requires
        all_wf(a),
        all_wf(b),
        all_wf(x),
        t.wf(),
        a.len() == pow2(x.len()),
        b.len() == a.len(),
    ensures
        mle_eval(blend(a, b, t), x) == interpolate(mle_eval(a, x), mle_eval(b, x), t),
    decreases x.len(),
{
    lemma_pow2_monotone(0, x.len());
    if x.len() > 0 {
        let r = x[0];
        let fa = fold_evals(a, r);
        let fb = fold_evals(b, r);
        lemma_fold_evals_wf(a, r);
        lemma_fold_evals_wf(b, r);
        assert forall|j: int| 0 <= j < fa.len() implies fold_evals(blend(a, b, t), r)[j] == blend(
            fa,
            fb,
            t,
        )[j] by {
            assert(a[2 * j].wf() && a[2 * j + 1].wf() && b[2 * j].wf() && b[2 * j + 1].wf());
            lemma_interpolate_swap(a[2 * j], b[2 * j], a[2 * j + 1], b[2 * j + 1], t, r);
        }
        assert(fold_evals(blend(a, b, t), r) =~= blend(fa, fb, t));
        lemma_mle_eval_blend(fa, fb, t, x.skip(1));
    }
}

/// The value of a polynomial is linear in each coordinate of the point: at
/// `t` in coordinate `i` it lies on the line through the values at 0 and at
/// 1 in that coordinate.
pub proof fn lemma_mle_linear_in_coordinate<F: FieldArith>(evals: Seq<F>, x: Seq<F>, i: int, t: F)
    requires
        all_wf(evals),
        all_wf(x),
        t.wf(),
        0 <= i < x.len(),
        evals.len() == pow2(x.len()),
    ensures
        mle_eval(evals, x.update(i, t)) == interpolate(
            mle_eval(evals, x.update(i, F::spec_zero())),
            mle_eval(evals, x.update(i, F::spec_one())),
            t,
        ),
    decreases x.len(),
{
    let zero = F::spec_zero();
    let one = F::spec_one();
    let rest = x.skip(1);
    F::lemma_constants_wf();
    lemma_pow2_monotone(0, (x.len() - 1) as nat);
    assert(all_wf(rest)) by {
        assert forall|k: int| 0 <= k < rest.len() implies (#[trigger] rest[k]).wf() by {
            assert(rest[k] == x[k + 1]);
        }
    }
    if i == 0 {
        let a = fold_evals(evals, zero);
        let b = fold_evals(evals, one);
        lemma_fold_evals_wf(evals, zero);
        lemma_fold_evals_wf(evals, one);
        assert(x.update(0, t).skip(1) =~= rest);
        assert(x.update(0, zero).skip(1) =~= rest);
        assert(x.update(0, one).skip(1) =~= rest);
        assert forall|j: int| 0 <= j < a.len() implies fold_evals(evals, t)[j] == blend(a, b, t)[j] by {
            assert(evals[2 * j].wf() && evals[2 * j + 1].wf());
            lemma_interpolate(evals[2 * j], evals[2 * j + 1], t);
        }
        assert(fold_evals(evals, t) =~= blend(a, b, t));
        lemma_mle_eval_blend(a, b, t, rest);
    } else {
        let folded = fold_evals(evals, x[0]);
        lemma_fold_evals_wf(evals, x[0]);
        assert(x.update(i, t).skip(1) =~= rest.update(i - 1, t));
        assert(x.update(i, zero).skip(1) =~= rest.update(i - 1, zero));
        assert(x.update(i, one).skip(1) =~= rest.update(i - 1, one));
        lemma_mle_linear_in_coordinate(folded, rest, i - 1, t);
    }
}

/// Fixes the first variable to `r` in place: entry `i < m` becomes the point
/// at `r` of the line through entries `2i` and `2i + 1`.
pub fn fold_in_place<F: FieldArith>(scratch: &mut Vec<F>, m: usize, r: &F)
    requires
        2 * m <= old(scratch)@.len(),
        all_wf(old(scratch)@),
        r.wf(),
    ensures
        final(scratch)@.len() == old(scratch)@.len(),
        forall|i: int|
            0 <= i < m ==> #[trigger] final(scratch)@[i] == interpolate(
                old(scratch)@[2 * i],
                old(scratch)@[2 * i + 1],
                *r,
            ),
        forall|i: int| m <= i < old(scratch)@.len() ==> #[trigger] final(scratch)@[i] == old(
            scratch,
        )@[i],
        all_wf(final(scratch)@),
{
    let len = scratch.len();
    let mut i: usize = 0;
    while i < m
        invariant
            i <= m,
            2 * m <= len == old(scratch)@.len(),
            scratch@.len() == old(scratch)@.len(),
            all_wf(old(scratch)@),
            all_wf(scratch@),
            r.wf(),
            forall|j: int|
                0 <= j < i ==> #[trigger] scratch@[j] == interpolate(
                    old(scratch)@[2 * j],
                    old(scratch)@[2 * j + 1],
                    *r,
                ),
            forall|j: int| i <= j < scratch@.len() ==> #[trigger] scratch@[j] == old(scratch)@[j],
        decreases m - i,
    {
        let lo = scratch[2 * i];
        let hi = scratch[2 * i + 1];
        proof {
            assert(lo == old(scratch)@[2 * i] && hi == old(scratch)@[2 * i + 1]);
            assert(lo.wf() && hi.wf());
        }
        let v = lo.add(&hi.sub(&lo).mul(r));
        scratch[i] = v;
        i += 1;
    }
}

/// Fixes the first variable to the base-field element `r` in place.
pub fn fold_in_place_base<F: Field>(scratch: &mut Vec<F>, m: usize, r: &F::BaseField)
    requires
        2 * m <= old(scratch)@.len(),
        all_wf(old(scratch)@),
        r.wf(),
    ensures
        final(scratch)@.len() == old(scratch)@.len(),
        forall|i: int|
            0 <= i < m ==> #[trigger] final(scratch)@[i] == interpolate(
                old(scratch)@[2 * i],
                old(scratch)@[2 * i + 1],
                F::spec_from_base(*r),
            ),
        forall|i: int| m <= i < old(scratch)@.len() ==> #[trigger] final(scratch)@[i] == old(
            scratch,
        )@[i],
        all_wf(final(scratch)@),
{
    let len = scratch.len();
    let mut i: usize = 0;
    while i < m
        invariant
            i <= m,
            2 * m <= len == old(scratch)@.len(),
            scratch@.len() == old(scratch)@.len(),
            all_wf(old(scratch)@),
            all_wf(scratch@),
            r.wf(),
            forall|j: int|
                0 <= j < i ==> #[trigger] scratch@[j] == interpolate(
                    old(scratch)@[2 * j],
                    old(scratch)@[2 * j + 1],
                    F::spec_from_base(*r),
                ),
            forall|j: int| i <= j < scratch@.len() ==> #[trigger] scratch@[j] == old(scratch)@[j],
        decreases m - i,
    {
        let lo = scratch[2 * i];
        let hi = scratch[2 * i + 1];
        proof {
            assert(lo == old(scratch)@[2 * i] && hi == old(scratch)@[2 * i + 1]);
            assert(lo.wf() && hi.wf());
        }
        let v = lo.add(&hi.sub(&lo).mul_base_elem(r));
        scratch[i] = v;
        i += 1;
    }
}

/// After a fold in place the first half of the vector holds the folded
/// values.
pub proof fn lemma_fold_prefix<F: FieldArith>(before: Seq<F>, after: Seq<F>, size: nat, r: F)
    requires
        size <= before.len(),
        after.len() == before.len(),
        forall|i: int|
            0 <= i < size / 2 ==> #[trigger] after[i] == interpolate(
                before[2 * i],
                before[2 * i + 1],
                r,
            ),
    ensures
        after.subrange(0, (size / 2) as int) == fold_evals(before.subrange(0, size as int), r),
{
    let lhs = after.subrange(0, (size / 2) as int);
    let rhs = fold_evals(before.subrange(0, size as int), r);
    assert forall|i: int| 0 <= i < lhs.len() implies lhs[i] == rhs[i] by {
        assert(lhs[i] == after[i]);
    }
    assert(lhs =~= rhs);
}

impl<F: FieldArith> Default for MultiLinearPoly<F> {
    fn default() -> (r: Self)
        ensures
            r.var_num == 0,
            r.evals@.len() == 0,
    {
        MultiLinearPoly { var_num: 0, evals: Vec::new() }
    }
}

impl<F: Field> MultiLinearPoly<F> {
    /// The value vector has `2^var_num` canonical entries.
    pub open spec fn wf(&self) -> bool {
        &&& self.evals@.len() == pow2(self.var_num as nat)
        &&& all_wf(self.evals@)
    }

    /// Whether the value vector has `2^var_num` canonical entries.
    pub fn is_well_formed(&self) -> (r: bool)
        ensures
            r == self.wf(),
    {
        is_pow2_of(self.evals.len(), self.var_num) && all_canonical(self.evals.as_slice())
    }

    /// A copy of the polynomial.
    pub fn duplicate(&self) -> (r: Self)
        ensures
            r.var_num == self.var_num,
            r.evals@ == self.evals@,
    {
        MultiLinearPoly { var_num: self.var_num, evals: slice_to_vec(self.evals.as_slice()) }
    }

    /// The value at the base-field point `x` of the multilinear polynomial
    /// with the values `evals` on the hypercube.
    pub fn eval_multilinear(evals: &[F], x: &[F::BaseField]) -> (r: F)
        requires
            evals@.len() == pow2(x@.len()),
            all_wf(evals@),
            all_wf(x@),
        ensures
            r == mle_eval(evals@, embed_point::<F>(x@)),
            r.wf(),
    {
        let mut scratch = slice_to_vec(evals);
        let mut size: usize = evals.len();
        let ghost point = embed_point::<F>(x@);
        let n = x.len();
        let mut k: usize = 0;
        proof {
            assert(scratch@.subrange(0, size as int) =~= evals@);
            assert(point.subrange(0, n as int) =~= point);
        }
        while k < n
            invariant
                k <= n == x@.len(),
                point == embed_point::<F>(x@),
                size == pow2((n - k) as nat),
                size <= scratch@.len(),
                all_wf(scratch@),
                all_wf(x@),
                mle_eval(scratch@.subrange(0, size as int), point.subrange(k as int, n as int))
                    == mle_eval(evals@, point),
            decreases n - k,
        {
            let ghost before = scratch@;
            let r = &x[k];
            proof {
                F::lemma_from_base_homomorphism(*r, *r);
            }
            fold_in_place_base(&mut scratch, size / 2, r);
            proof {
                let xs = point.subrange(k as int, n as int);
                lemma_fold_prefix(before, scratch@, size as nat, F::spec_from_base(*r));
                assert(xs[0] == F::spec_from_base(*r));
                assert(xs.skip(1) =~= point.subrange(k + 1, n as int));
            }
            size = size / 2;
            k += 1;
        }
        proof {
            lemma_pow2_monotone(0, 0);
            assert(scratch@.subrange(0, size as int)[0] == scratch@[0]);
        }
        scratch[0]
    }

    /// The value at the point `x` of the multilinear polynomial with the
    /// values `evals` on the hypercube.
    pub fn eval_multilinear_ext(evals: &[F], x: &[F]) -> (r: F)
        requires
            evals@.len() == pow2(x@.len()),
            all_wf(evals@),
            all_wf(x@),
        ensures
            r == mle_eval(evals@, x@),
            r.wf(),
    {
        let mut scratch = slice_to_vec(evals);
        let mut size: usize = evals.len();
        let n = x.len();
        let mut k: usize = 0;
        proof {
            assert(scratch@.subrange(0, size as int) =~= evals@);
            assert(x@.subrange(0, n as int) =~= x@);
        }
        while k < n
            invariant
                k <= n == x@.len(),
                size == pow2((n - k) as nat),
                size <= scratch@.len(),
                all_wf(scratch@),
                all_wf(x@),
                mle_eval(scratch@.subrange(0, size as int), x@.subrange(k as int, n as int))
                    == mle_eval(evals@, x@),
            decreases n - k,
        {
            let ghost before = scratch@;
            let r = &x[k];
            fold_in_place(&mut scratch, size / 2, r);
            proof {
                let xs = x@.subrange(k as int, n as int);
                lemma_fold_prefix(before, scratch@, size as nat, *r);
                assert(xs[0] == *r);
                assert(xs.skip(1) =~= x@.subrange(k + 1, n as int));
            }
            size = size / 2;
            k += 1;
        }
        proof {
            lemma_pow2_monotone(0, 0);
            assert(scratch@.subrange(0, size as int)[0] == scratch@[0]);
        }
        scratch[0]
    }
}

} // verus!
