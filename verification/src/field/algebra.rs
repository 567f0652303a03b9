//! Consequences of the ring laws that hold in every field of this crate.
use crate::field::{lemma_pow_wf, pow2, FieldArith};
use vstd::prelude::*;

verus! {

/// `a - b`.
pub open spec fn field_sub<F: FieldArith>(a: F, b: F) -> F {
    a.spec_add(b.spec_neg())
}

/// `0 + a = a`.
pub proof fn lemma_zero_add<F: FieldArith>(a: F)
    requires
        a.wf(),
    ensures
        F::spec_zero().spec_add(a) == a,
{
    F::lemma_constants_wf();
    F::lemma_add_commutative(F::spec_zero(), a);
    F::lemma_add_zero(a);
}

/// `a + (b - a) = b`.
pub proof fn lemma_add_sub_cancel<F: FieldArith>(a: F, b: F)
    requires
        a.wf(),
        b.wf(),
    ensures
        a.spec_add(field_sub(b, a)) == b,
{
    let na = a.spec_neg();
    F::lemma_closed(a, b);
    F::lemma_add_commutative(b, na);
    F::lemma_add_associative(a, na, b);
    F::lemma_add_neg(a);
    lemma_zero_add(b);
}

/// `a * 0 = 0`.
pub proof fn lemma_mul_zero<F: FieldArith>(a: F)
    requires
        a.wf(),
    ensures
        a.spec_mul(F::spec_zero()) == F::spec_zero(),
        F::spec_zero().spec_mul(a) == F::spec_zero(),
{
    let zero = F::spec_zero();
    let z = a.spec_mul(zero);
    F::lemma_constants_wf();
    F::lemma_closed(a, zero);
    F::lemma_closed(z, z);
    // z + z = a * (0 + 0) = z
    F::lemma_mul_distributive(a, zero, zero);
    F::lemma_add_zero(zero);
    assert(z.spec_add(z) == z);
    // z = z + (z - z) = (z + z) - z = z - z = 0
    F::lemma_add_neg(z);
    F::lemma_add_zero(z);
    F::lemma_add_associative(z, z, z.spec_neg());
    F::lemma_mul_commutative(a, zero);
}

/// Zero has no inverse, unless zero is one.
pub proof fn lemma_zero_has_no_inverse<F: FieldArith>(x: F)
    requires
        x.wf(),
        F::spec_zero().spec_mul(x) == F::spec_one(),
    ensures
        F::spec_zero() == F::spec_one(),
{
    lemma_mul_zero(x);
}

/// `1 * a = a`.
pub proof fn lemma_one_mul<F: FieldArith>(a: F)
    requires
        a.wf(),
    ensures
        F::spec_one().spec_mul(a) == a,
{
    F::lemma_constants_wf();
    F::lemma_mul_commutative(F::spec_one(), a);
    F::lemma_mul_one(a);
}

/// The line through `a` at 0 and `b` at 1, taken at `r`.
pub open spec fn interpolate<F: FieldArith>(a: F, b: F, r: F) -> F {
    a.spec_add(field_sub(b, a).spec_mul(r))
}

/// A line through canonical values is canonical at every canonical point,
/// passes through `a` at 0 and through `b` at 1.
pub proof fn lemma_interpolate<F: FieldArith>(a: F, b: F, r: F)
    requires
        a.wf(),
        b.wf(),
        r.wf(),
    ensures
        interpolate(a, b, r).wf(),
        interpolate(a, b, F::spec_zero()) == a,
        interpolate(a, b, F::spec_one()) == b,
{
    let d = field_sub(b, a);
    F::lemma_closed(a, b);
    F::lemma_closed(b, a.spec_neg());
    F::lemma_closed(d, r);
    F::lemma_closed(a, d.spec_mul(r));
    lemma_mul_zero(d);
    F::lemma_add_zero(a);
    F::lemma_mul_one(d);
    lemma_add_sub_cancel(a, b);
}

/// `(a + b) + (c + d) = (a + c) + (b + d)`.
pub proof fn lemma_add_interchange<F: FieldArith>(a: F, b: F, c: F, d: F)
    requires
        a.wf(),
        b.wf(),
        c.wf(),
        d.wf(),
    ensures
        a.spec_add(b).spec_add(c.spec_add(d)) == a.spec_add(c).spec_add(b.spec_add(d)),
{
    F::lemma_closed(a, b);
    F::lemma_closed(c, d);
    F::lemma_closed(a, c);
    F::lemma_closed(b, d);
    F::lemma_closed(b, c);
    F::lemma_closed(c, b);
    // (a + b) + (c + d) = a + (b + (c + d)) = a + ((b + c) + d)
    F::lemma_add_associative(a, b, c.spec_add(d));
    F::lemma_add_associative(b, c, d);
    // = a + ((c + b) + d) = a + (c + (b + d)) = (a + c) + (b + d)
    F::lemma_add_commutative(b, c);
    F::lemma_add_associative(c, b, d);
    F::lemma_add_associative(a, c, b.spec_add(d));
}

/// `(a * b) * (c * d) = (a * c) * (b * d)`.
pub proof fn lemma_mul_interchange<F: FieldArith>(a: F, b: F, c: F, d: F)
    requires
        a.wf(),
        b.wf(),
        c.wf(),
        d.wf(),
    ensures
        a.spec_mul(b).spec_mul(c.spec_mul(d)) == a.spec_mul(c).spec_mul(b.spec_mul(d)),
{
    F::lemma_closed(a, b);
    F::lemma_closed(c, d);
    F::lemma_closed(a, c);
    F::lemma_closed(b, d);
    F::lemma_closed(b, c);
    F::lemma_closed(c, b);
    F::lemma_mul_associative(a, b, c.spec_mul(d));
    F::lemma_mul_associative(b, c, d);
    F::lemma_mul_commutative(b, c);
    F::lemma_mul_associative(c, b, d);
    F::lemma_mul_associative(a, c, b.spec_mul(d));
}

/// `(a + b) * c = a * c + b * c`.
pub proof fn lemma_mul_distributive_left<F: FieldArith>(a: F, b: F, c: F)
    requires
        a.wf(),
        b.wf(),
        c.wf(),
    ensures
        a.spec_add(b).spec_mul(c) == a.spec_mul(c).spec_add(b.spec_mul(c)),
{
    F::lemma_closed(a, b);
    F::lemma_mul_commutative(a.spec_add(b), c);
    F::lemma_mul_distributive(c, a, b);
    F::lemma_mul_commutative(c, a);
    F::lemma_mul_commutative(c, b);
}

/// `1^n = 1`.
pub proof fn lemma_pow_of_one<F: FieldArith>(n: nat)
    ensures
        F::spec_one().spec_exp(n) == F::spec_one(),
    decreases n,
{
    F::lemma_constants_wf();
    F::lemma_exp_unfold(F::spec_one(), n);
    if n > 0 {
        lemma_pow_of_one::<F>((n - 1) as nat);
        F::lemma_mul_one(F::spec_one());
    }
}

/// `a^1 = a`.
pub proof fn lemma_pow_one<F: FieldArith>(a: F)
    requires
        a.wf(),
    ensures
        a.spec_exp(1) == a,
{
    F::lemma_exp_unfold(a, 1);
    F::lemma_exp_unfold(a, 0);
    F::lemma_mul_one(a);
}

/// `a^(m + n) = a^m * a^n`.
pub proof fn lemma_pow_add<F: FieldArith>(a: F, m: nat, n: nat)
    requires
        a.wf(),
    ensures
        a.spec_exp(m + n) == a.spec_exp(m).spec_mul(a.spec_exp(n)),
    decreases m,
{
    lemma_pow_wf(a, n);
    F::lemma_exp_unfold(a, m);
    if m == 0 {
        lemma_one_mul(a.spec_exp(n));
    } else {
        lemma_pow_add(a, (m - 1) as nat, n);
        lemma_pow_wf(a, (m - 1) as nat);
        F::lemma_exp_unfold(a, m + n);
        F::lemma_mul_associative(a, a.spec_exp((m - 1) as nat), a.spec_exp(n));
        assert((m + n - 1) as nat == (m - 1) as nat + n);
    }
}

/// `(a * b)^n = a^n * b^n`.
pub proof fn lemma_pow_of_product<F: FieldArith>(a: F, b: F, n: nat)
    requires
        a.wf(),
        b.wf(),
    ensures
        a.spec_mul(b).spec_exp(n) == a.spec_exp(n).spec_mul(b.spec_exp(n)),
    decreases n,
{
    F::lemma_closed(a, b);
    F::lemma_exp_unfold(a.spec_mul(b), n);
    F::lemma_exp_unfold(a, n);
    F::lemma_exp_unfold(b, n);
    F::lemma_constants_wf();
    if n == 0 {
        F::lemma_mul_one(F::spec_one());
    } else {
        let k = (n - 1) as nat;
        lemma_pow_of_product(a, b, k);
        lemma_pow_wf(a, k);
        lemma_pow_wf(b, k);
        lemma_mul_interchange(a, b, a.spec_exp(k), b.spec_exp(k));
    }
}

/// `(a^m)^n = a^(m * n)`.
pub proof fn lemma_pow_of_pow<F: FieldArith>(a: F, m: nat, n: nat)
    requires
        a.wf(),
    ensures
        a.spec_exp(m).spec_exp(n) == a.spec_exp(m * n),
    decreases n,
{
    lemma_pow_wf(a, m);
    F::lemma_exp_unfold(a.spec_exp(m), n);
    if n == 0 {
        F::lemma_exp_unfold(a, 0);
        assert(m * 0 == 0);
    } else {
        lemma_pow_of_pow(a, m, (n - 1) as nat);
        lemma_pow_add(a, m, m * (n - 1) as nat);
        assert(m + m * (n - 1) == m * n) by (nonlinear_arith)
            requires
                n >= 1,
        ;
    }
}

/// Where `a^n = 1`, the powers of `a` repeat with period `n`.
pub proof fn lemma_pow_periodic<F: FieldArith>(a: F, n: nat, i: nat)
    requires
        a.wf(),
        a.spec_exp(n) == F::spec_one(),
    ensures
        a.spec_exp(i + n) == a.spec_exp(i),
{
    lemma_pow_add(a, i, n);
    lemma_pow_wf(a, i);
    F::lemma_mul_one(a.spec_exp(i));
}

/// `a` squared `i` times over.
pub open spec fn squared_times<F: FieldArith>(a: F, i: nat) -> F
    decreases i,
{
    if i == 0 {
        a
    } else {
        squared_times(a, (i - 1) as nat).spec_mul(squared_times(a, (i - 1) as nat))
    }
}

/// Squaring `i` times over raises to the power `2^i`.
pub proof fn lemma_squared_times<F: FieldArith>(a: F, i: nat)
    requires
        a.wf(),
    ensures
        squared_times(a, i) == a.spec_exp(pow2(i)),
        squared_times(a, i).wf(),
    decreases i,
{
    if i == 0 {
        lemma_pow_one(a);
    } else {
        lemma_squared_times(a, (i - 1) as nat);
        lemma_pow_add(a, pow2((i - 1) as nat), pow2((i - 1) as nat));
        let s = squared_times(a, (i - 1) as nat);
        F::lemma_closed(s, s);
    }
}

/// The additive inverse is unique: where `u + v = 0`, `v` is `-u`.
pub proof fn lemma_neg_unique<F: FieldArith>(u: F, v: F)
    requires
        u.wf(),
        v.wf(),
        u.spec_add(v) == F::spec_zero(),
    ensures
        v == u.spec_neg(),
{
    let nu = u.spec_neg();
    F::lemma_closed(u, v);
    F::lemma_add_zero(v);
    F::lemma_add_neg(u);
    // v = v + (u + -u) = (v + u) + -u = 0 + -u = -u
    F::lemma_add_associative(v, u, nu);
    F::lemma_add_commutative(v, u);
    lemma_zero_add(nu);
}

/// `a * (-b) = -(a * b)`.
pub proof fn lemma_mul_neg<F: FieldArith>(a: F, b: F)
    requires
        a.wf(),
        b.wf(),
    ensures
        a.spec_mul(b.spec_neg()) == a.spec_mul(b).spec_neg(),
{
    F::lemma_closed(b, b);
    F::lemma_closed(a, b);
    F::lemma_closed(a, b.spec_neg());
    F::lemma_mul_distributive(a, b, b.spec_neg());
    F::lemma_add_neg(b);
    lemma_mul_zero(a);
    lemma_neg_unique(a.spec_mul(b), a.spec_mul(b.spec_neg()));
}

/// `(a * u) * v = (a * v) * u`.
pub proof fn lemma_mul_swap<F: FieldArith>(a: F, u: F, v: F)
    requires
        a.wf(),
        u.wf(),
        v.wf(),
    ensures
        a.spec_mul(u).spec_mul(v) == a.spec_mul(v).spec_mul(u),
{
    F::lemma_mul_associative(a, u, v);
    F::lemma_mul_commutative(u, v);
    F::lemma_mul_associative(a, v, u);
}

/// One less `s`: `1 - s`.
pub open spec fn complement<F: FieldArith>(s: F) -> F {
    field_sub(F::spec_one(), s)
}

/// The line through `a` at 0 and `b` at 1 is the combination of its ends:
/// `a + (b - a) s = a (1 - s) + b s`.
pub proof fn lemma_interpolate_convex<F: FieldArith>(a: F, b: F, s: F)
    requires
        a.wf(),
        b.wf(),
        s.wf(),
    ensures
        interpolate(a, b, s) == a.spec_mul(complement(s)).spec_add(b.spec_mul(s)),
        complement(s).wf(),
{
    let one = F::spec_one();
    let na = a.spec_neg();
    let ns = s.spec_neg();
    let a_s = a.spec_mul(s);
    let b_s = b.spec_mul(s);
    F::lemma_constants_wf();
    F::lemma_closed(a, s);
    F::lemma_closed(b, s);
    F::lemma_closed(s, s);
    F::lemma_closed(one, ns);
    F::lemma_closed(b, na);
    F::lemma_closed(a_s, a_s);
    F::lemma_closed(a, ns);
    // a (1 - s) = a + -(a s)
    F::lemma_mul_distributive(a, one, ns);
    F::lemma_mul_one(a);
    lemma_mul_neg(a, s);
    // (b - a) s = b s + -(a s)
    lemma_mul_distributive_left(b, na, s);
    F::lemma_mul_commutative(na, s);
    lemma_mul_neg(s, a);
    F::lemma_mul_commutative(s, a);
    // a + (b s + -(a s)) = (a + -(a s)) + b s
    F::lemma_add_commutative(b_s, a_s.spec_neg());
    F::lemma_add_associative(a, a_s.spec_neg(), b_s);
}

/// Lines commute: the line, at `r`, through two lines at `t` is the line,
/// at `t`, through the lines at `r` through their ends.
pub proof fn lemma_interpolate_swap<F: FieldArith>(a: F, b: F, c: F, d: F, t: F, r: F)
    requires
        a.wf(),
        b.wf(),
        c.wf(),
        d.wf(),
        t.wf(),
        r.wf(),
    ensures
        interpolate(interpolate(a, b, t), interpolate(c, d, t), r) == interpolate(
            interpolate(a, c, r),
            interpolate(b, d, r),
            t,
        ),
{
    let ct = complement(t);
    let cr = complement(r);
    lemma_interpolate(a, b, t);
    lemma_interpolate(c, d, t);
    lemma_interpolate(a, c, r);
    lemma_interpolate(b, d, r);
    lemma_interpolate_convex(a, b, t);
    lemma_interpolate_convex(c, d, t);
    lemma_interpolate_convex(a, c, r);
    lemma_interpolate_convex(b, d, r);
    lemma_interpolate_convex(interpolate(a, b, t), interpolate(c, d, t), r);
    lemma_interpolate_convex(interpolate(a, c, r), interpolate(b, d, r), t);
    F::lemma_closed(a, ct);
    F::lemma_closed(b, t);
    F::lemma_closed(c, ct);
    F::lemma_closed(d, t);
    F::lemma_closed(a, cr);
    F::lemma_closed(c, r);
    F::lemma_closed(b, cr);
    F::lemma_closed(d, r);
    // the four products of the left side
    lemma_mul_distributive_left(a.spec_mul(ct), b.spec_mul(t), cr);
    lemma_mul_distributive_left(c.spec_mul(ct), d.spec_mul(t), r);
    // the four products of the right side
    lemma_mul_distributive_left(a.spec_mul(cr), c.spec_mul(r), ct);
    lemma_mul_distributive_left(b.spec_mul(cr), d.spec_mul(r), t);
    // they are the same products
    lemma_mul_swap(a, ct, cr);
    lemma_mul_swap(b, t, cr);
    lemma_mul_swap(c, ct, r);
    lemma_mul_swap(d, t, r);
    let t1 = a.spec_mul(ct).spec_mul(cr);
    let t2 = b.spec_mul(t).spec_mul(cr);
    let t3 = c.spec_mul(ct).spec_mul(r);
    let t4 = d.spec_mul(t).spec_mul(r);
    F::lemma_closed(a.spec_mul(ct), cr);
    F::lemma_closed(b.spec_mul(t), cr);
    F::lemma_closed(c.spec_mul(ct), r);
    F::lemma_closed(d.spec_mul(t), r);
    lemma_add_interchange(t1, t2, t3, t4);
}

/// `1 + 1`.
pub open spec fn two<F: FieldArith>() -> F {
    F::spec_one().spec_add(F::spec_one())
}

/// `a * 2 = a + a`, and half of two is one.
pub proof fn lemma_mul_two<F: FieldArith>(a: F)
    requires
        a.wf(),
    ensures
        a.spec_mul(two::<F>()) == a.spec_add(a),
        F::spec_inv_2().spec_mul(two::<F>()) == F::spec_one(),
        two::<F>().wf(),
{
    let one = F::spec_one();
    F::lemma_constants_wf();
    F::lemma_closed(one, one);
    F::lemma_mul_distributive(a, one, one);
    F::lemma_mul_one(a);
    F::lemma_mul_distributive(F::spec_inv_2(), one, one);
    F::lemma_mul_one(F::spec_inv_2());
    F::lemma_inv_2_doubles_to_one();
}

/// `(a - b) + b = a`.
pub proof fn lemma_sub_add_cancel<F: FieldArith>(a: F, b: F)
    requires
        a.wf(),
        b.wf(),
    ensures
        field_sub(a, b).spec_add(b) == a,
{
    let nb = b.spec_neg();
    F::lemma_closed(b, b);
    F::lemma_add_associative(a, nb, b);
    F::lemma_add_commutative(nb, b);
    F::lemma_add_neg(b);
    F::lemma_add_zero(a);
}

/// `(a - b) + (b - c) = a - c`.
pub proof fn lemma_sub_chain<F: FieldArith>(a: F, b: F, c: F)
    requires
        a.wf(),
        b.wf(),
        c.wf(),
    ensures
        field_sub(a, b).spec_add(field_sub(b, c)) == field_sub(a, c),
{
    let nb = b.spec_neg();
    let nc = c.spec_neg();
    F::lemma_closed(b, c);
    F::lemma_closed(c, c);
    F::lemma_closed(b, nc);
    F::lemma_closed(nb, b);
    // (a + -b) + (b + -c) = a + (-b + (b + -c)) = a + ((-b + b) + -c) = a + -c
    F::lemma_add_associative(a, nb, b.spec_add(nc));
    F::lemma_add_associative(nb, b, nc);
    F::lemma_add_commutative(nb, b);
    F::lemma_add_neg(b);
    lemma_zero_add(nc);
}

/// `-0 = 0`, `1 - 1 = 0`, `1 - 0 = 1`, `2 - 1 = 1` and `2 - 2 = 0`.
pub proof fn lemma_small_differences<F: FieldArith>()
    ensures
        F::spec_zero().spec_neg() == F::spec_zero(),
        field_sub(F::spec_one(), F::spec_one()) == F::spec_zero(),
        field_sub(F::spec_one(), F::spec_zero()) == F::spec_one(),
        field_sub(two::<F>(), F::spec_one()) == F::spec_one(),
        field_sub(two::<F>(), two::<F>()) == F::spec_zero(),
{
    let zero = F::spec_zero();
    let one = F::spec_one();
    F::lemma_constants_wf();
    F::lemma_closed(zero, zero);
    F::lemma_closed(one, one);
    F::lemma_add_neg(zero);
    lemma_zero_add(zero.spec_neg());
    F::lemma_add_neg(one);
    F::lemma_add_zero(one);
    F::lemma_add_associative(one, one, one.spec_neg());
    F::lemma_add_neg(two::<F>());
}

} // verus!
