//! The degree-3 extension of the Mersenne-31 field, modulo `x^3 - 5`.
//!
//! An element `a0 + a1*x + a2*x^2` is held as its three coefficients.
use crate::field::encoding::{
    le_bytes, le_value_at, lemma_le_bytes_of_value, lemma_le_round_trip, lemma_le_value_bound,
    lemma_le_value_subrange, lemma_pow256_values, push_le, read_le,
};
use crate::field::m31::{reduce_i32, u32_from_le, M31, M31_MOD};
use crate::field::{exp_by_squaring, Field, FieldArith, FieldSerde};
use rand::rngs::StdRng;
use vstd::arithmetic::div_mod::{
    lemma_add_mod_noop, lemma_fundamental_div_mod, lemma_mod_bound, lemma_mod_multiples_vanish,
    lemma_mul_mod_noop_left, lemma_mul_mod_noop_right, lemma_small_mod,
};
use vstd::prelude::*;

verus! {

#[derive(Clone, Copy, Debug, PartialEq, Eq)]
pub struct M31Ext3 {
    pub v: [M31; 3],
}

/// Coefficient 0 of the product of `a0 + a1*x + a2*x^2` and `b0 + b1*x + b2*x^2`
/// modulo `x^3 - 5`, over the integers.
pub open spec fn mul_coeff0(a0: int, a1: int, a2: int, b0: int, b1: int, b2: int) -> int {
    a0 * b0 + 5 * (a1 * b2 + a2 * b1)
}

/// Coefficient 1 of that product.
pub open spec fn mul_coeff1(a0: int, a1: int, a2: int, b0: int, b1: int, b2: int) -> int {
    a0 * b1 + a1 * b0 + 5 * (a2 * b2)
}

/// Coefficient 2 of that product.
pub open spec fn mul_coeff2(a0: int, a1: int, a2: int, b0: int, b1: int, b2: int) -> int {
    a0 * b2 + a1 * b1 + a2 * b0
}

/// The element with the residues of `c0`, `c1`, `c2` as coefficients.
pub open spec fn ext_of_ints(c0: int, c1: int, c2: int) -> M31Ext3 {
    M31Ext3 {
        v: [
            M31 { v: (c0 % (M31_MOD as int)) as u32 },
            M31 { v: (c1 % (M31_MOD as int)) as u32 },
            M31 { v: (c2 % (M31_MOD as int)) as u32 },
        ],
    }
}

/// Two elements with the same coefficients are the same element.
pub proof fn lemma_ext_equal(x: M31Ext3, y: M31Ext3)
    requires
        x.v[0] == y.v[0],
        x.v[1] == y.v[1],
        x.v[2] == y.v[2],
    ensures
        x == y,
{
    assert(x.v@ =~= y.v@);
    assert(x.v == y.v);
}

/// The coefficients of `ext_of_ints` are the canonical residues.
pub proof fn lemma_ext_of_ints(c0: int, c1: int, c2: int)
    ensures
        ext_of_ints(c0, c1, c2).c0() == c0 % (M31_MOD as int),
        ext_of_ints(c0, c1, c2).c1() == c1 % (M31_MOD as int),
        ext_of_ints(c0, c1, c2).c2() == c2 % (M31_MOD as int),
        ext_of_ints(c0, c1, c2).wf(),
{
    lemma_mod_bound(c0, M31_MOD as int);
    lemma_mod_bound(c1, M31_MOD as int);
    lemma_mod_bound(c2, M31_MOD as int);
}

/// A canonical element is `ext_of_ints` of its own coefficients.
pub proof fn lemma_ext_of_own_coeffs(x: M31Ext3)
    requires
        x.wf(),
    ensures
        x == ext_of_ints(x.c0(), x.c1(), x.c2()),
{
    lemma_small_mod(x.c0() as nat, M31_MOD as nat);
    lemma_small_mod(x.c1() as nat, M31_MOD as nat);
    lemma_small_mod(x.c2() as nat, M31_MOD as nat);
    lemma_ext_equal(x, ext_of_ints(x.c0(), x.c1(), x.c2()));
}

/// Elements built from congruent integers are equal.
pub proof fn lemma_ext_of_ints_congruent(c0: int, c1: int, c2: int, d0: int, d1: int, d2: int)
    requires
        c0 % (M31_MOD as int) == d0 % (M31_MOD as int),
        c1 % (M31_MOD as int) == d1 % (M31_MOD as int),
        c2 % (M31_MOD as int) == d2 % (M31_MOD as int),
    ensures
        ext_of_ints(c0, c1, c2) == ext_of_ints(d0, d1, d2),
{
    lemma_ext_equal(ext_of_ints(c0, c1, c2), ext_of_ints(d0, d1, d2));
}

/// Shifting the first factor's coefficients by multiples of `p` shifts each
/// product coefficient by a multiple of `p`.
proof fn lemma_mul_coeffs_shift_left(
    a0: int,
    a1: int,
    a2: int,
    k0: int,
    k1: int,
    k2: int,
    b0: int,
    b1: int,
    b2: int,
    p: int,
)
    ensures
        mul_coeff0(a0 + k0 * p, a1 + k1 * p, a2 + k2 * p, b0, b1, b2) == (k0 * b0 + 5 * (k1 * b2
            + k2 * b1)) * p + mul_coeff0(a0, a1, a2, b0, b1, b2),
        mul_coeff1(a0 + k0 * p, a1 + k1 * p, a2 + k2 * p, b0, b1, b2) == (k0 * b1 + k1 * b0 + 5
            * (k2 * b2)) * p + mul_coeff1(a0, a1, a2, b0, b1, b2),
        mul_coeff2(a0 + k0 * p, a1 + k1 * p, a2 + k2 * p, b0, b1, b2) == (k0 * b2 + k1 * b1 + k2
            * b0) * p + mul_coeff2(a0, a1, a2, b0, b1, b2),
{
    lemma_shifted_product(a0, k0, p, b0);
    lemma_shifted_product(a0, k0, p, b1);
    lemma_shifted_product(a0, k0, p, b2);
    lemma_shifted_product(a1, k1, p, b0);
    lemma_shifted_product(a1, k1, p, b1);
    lemma_shifted_product(a1, k1, p, b2);
    lemma_shifted_product(a2, k2, p, b0);
    lemma_shifted_product(a2, k2, p, b1);
    lemma_shifted_product(a2, k2, p, b2);
    lemma_scaled_sum(k0 * b0, k1 * b2, k2 * b1, 1, 5, 5, p);
    lemma_scaled_sum(k0 * b1, k1 * b0, k2 * b2, 1, 1, 5, p);
    lemma_scaled_sum(k0 * b2, k1 * b1, k2 * b0, 1, 1, 1, p);
}

/// `(a + k*p) * b = a*b + (k*b) * p`.
proof fn lemma_shifted_product(a: int, k: int, p: int, b: int)
    by (nonlinear_arith)
    ensures
        (a + k * p) * b == a * b + (k * b) * p,
{
}

/// `(e*u + f*v + g*w) * c = e*(u*c) + f*(v*c) + g*(w*c)`.
proof fn lemma_scaled_sum(u: int, v: int, w: int, e: int, f: int, g: int, c: int)
    ensures
        (e * u + f * v + g * w) * c == e * (u * c) + f * (v * c) + g * (w * c),
        c * (e * u + f * v + g * w) == e * (c * u) + f * (c * v) + g * (c * w),
{
    use_mul_laws(e * u + f * v, g * w, c);
    use_mul_laws(e * u, f * v, c);
    use_mul_laws(e, u, c);
    use_mul_laws(f, v, c);
    use_mul_laws(g, w, c);
    use_mul_laws(e * u + f * v + g * w, c, 1);
    use_mul_laws(u, c, 1);
    use_mul_laws(v, c, 1);
    use_mul_laws(w, c, 1);
}

/// Distributivity, associativity and commutativity of integer products,
/// for one choice of operands.
proof fn use_mul_laws(x: int, y: int, z: int)
    ensures
        (x + y) * z == x * z + y * z,
        (x * y) * z == x * (y * z),
        x * y == y * x,
{
    vstd::arithmetic::mul::lemma_mul_is_distributive_add_other_way(z, x, y);
    vstd::arithmetic::mul::lemma_mul_is_associative(x, y, z);
    vstd::arithmetic::mul::lemma_mul_is_commutative(x, y);
}

/// The product over the integers is commutative.
proof fn lemma_mul_coeffs_commute(a0: int, a1: int, a2: int, b0: int, b1: int, b2: int)
    by (nonlinear_arith)
    ensures
        mul_coeff0(a0, a1, a2, b0, b1, b2) == mul_coeff0(b0, b1, b2, a0, a1, a2),
        mul_coeff1(a0, a1, a2, b0, b1, b2) == mul_coeff1(b0, b1, b2, a0, a1, a2),
        mul_coeff2(a0, a1, a2, b0, b1, b2) == mul_coeff2(b0, b1, b2, a0, a1, a2),
{
}

/// The product over the integers distributes over coefficient-wise sums.
proof fn lemma_mul_coeffs_distribute(
    a0: int,
    a1: int,
    a2: int,
    b0: int,
    b1: int,
    b2: int,
    c0: int,
    c1: int,
    c2: int,
)
    by (nonlinear_arith)
    ensures
        mul_coeff0(a0, a1, a2, b0 + c0, b1 + c1, b2 + c2) == mul_coeff0(a0, a1, a2, b0, b1, b2)
            + mul_coeff0(a0, a1, a2, c0, c1, c2),
        mul_coeff1(a0, a1, a2, b0 + c0, b1 + c1, b2 + c2) == mul_coeff1(a0, a1, a2, b0, b1, b2)
            + mul_coeff1(a0, a1, a2, c0, c1, c2),
        mul_coeff2(a0, a1, a2, b0 + c0, b1 + c1, b2 + c2) == mul_coeff2(a0, a1, a2, b0, b1, b2)
            + mul_coeff2(a0, a1, a2, c0, c1, c2),
{
}

/// Reducing the first factor's coefficients modulo `p` keeps each product
/// coefficient in its class.
proof fn lemma_mul_coeffs_reduce_left(a0: int, a1: int, a2: int, b0: int, b1: int, b2: int)
    ensures
        ext_of_ints(
            mul_coeff0(
                a0 % (M31_MOD as int),
                a1 % (M31_MOD as int),
                a2 % (M31_MOD as int),
                b0,
                b1,
                b2,
            ),
            mul_coeff1(
                a0 % (M31_MOD as int),
                a1 % (M31_MOD as int),
                a2 % (M31_MOD as int),
                b0,
                b1,
                b2,
            ),
            mul_coeff2(
                a0 % (M31_MOD as int),
                a1 % (M31_MOD as int),
                a2 % (M31_MOD as int),
                b0,
                b1,
                b2,
            ),
        ) == ext_of_ints(
            mul_coeff0(a0, a1, a2, b0, b1, b2),
            mul_coeff1(a0, a1, a2, b0, b1, b2),
            mul_coeff2(a0, a1, a2, b0, b1, b2),
        ),
{
    let p = M31_MOD as int;
    let (r0, r1, r2) = (a0 % p, a1 % p, a2 % p);
    let (k0, k1, k2) = (a0 / p, a1 / p, a2 / p);
    lemma_fundamental_div_mod(a0, p);
    lemma_fundamental_div_mod(a1, p);
    lemma_fundamental_div_mod(a2, p);
    assert(a0 == r0 + k0 * p && a1 == r1 + k1 * p && a2 == r2 + k2 * p) by (nonlinear_arith)
        requires
            a0 == p * k0 + r0,
            a1 == p * k1 + r1,
            a2 == p * k2 + r2,
    ;
    lemma_mul_coeffs_shift_left(r0, r1, r2, k0, k1, k2, b0, b1, b2, p);
    lemma_mod_multiples_vanish(
        k0 * b0 + 5 * (k1 * b2 + k2 * b1),
        mul_coeff0(r0, r1, r2, b0, b1, b2),
        p,
    );
    lemma_mod_multiples_vanish(
        k0 * b1 + k1 * b0 + 5 * (k2 * b2),
        mul_coeff1(r0, r1, r2, b0, b1, b2),
        p,
    );
    lemma_mod_multiples_vanish(
        k0 * b2 + k1 * b1 + k2 * b0,
        mul_coeff2(r0, r1, r2, b0, b1, b2),
        p,
    );
    lemma_ext_of_ints_congruent(
        mul_coeff0(r0, r1, r2, b0, b1, b2),
        mul_coeff1(r0, r1, r2, b0, b1, b2),
        mul_coeff2(r0, r1, r2, b0, b1, b2),
        mul_coeff0(a0, a1, a2, b0, b1, b2),
        mul_coeff1(a0, a1, a2, b0, b1, b2),
        mul_coeff2(a0, a1, a2, b0, b1, b2),
    );
}

/// Reducing the second factor's coefficients modulo `p` keeps each product
/// coefficient in its class.
proof fn lemma_mul_coeffs_reduce_right(a0: int, a1: int, a2: int, b0: int, b1: int, b2: int)
    ensures
        ext_of_ints(
            mul_coeff0(
                a0,
                a1,
                a2,
                b0 % (M31_MOD as int),
                b1 % (M31_MOD as int),
                b2 % (M31_MOD as int),
            ),
            mul_coeff1(
                a0,
                a1,
                a2,
                b0 % (M31_MOD as int),
                b1 % (M31_MOD as int),
                b2 % (M31_MOD as int),
            ),
            mul_coeff2(
                a0,
                a1,
                a2,
                b0 % (M31_MOD as int),
                b1 % (M31_MOD as int),
                b2 % (M31_MOD as int),
            ),
        ) == ext_of_ints(
            mul_coeff0(a0, a1, a2, b0, b1, b2),
            mul_coeff1(a0, a1, a2, b0, b1, b2),
            mul_coeff2(a0, a1, a2, b0, b1, b2),
        ),
{
    let p = M31_MOD as int;
    lemma_mul_coeffs_commute(a0, a1, a2, b0 % p, b1 % p, b2 % p);
    lemma_mul_coeffs_commute(a0, a1, a2, b0, b1, b2);
    lemma_mul_coeffs_reduce_left(b0, b1, b2, a0, a1, a2);
}

/// The product over the integers is associative.
proof fn lemma_mul_coeffs_associate(
    a0: int,
    a1: int,
    a2: int,
    b0: int,
    b1: int,
    b2: int,
    c0: int,
    c1: int,
    c2: int,
)
    ensures
        mul_coeff0(
            mul_coeff0(a0, a1, a2, b0, b1, b2),
            mul_coeff1(a0, a1, a2, b0, b1, b2),
            mul_coeff2(a0, a1, a2, b0, b1, b2),
            c0,
            c1,
            c2,
        ) == mul_coeff0(
            a0,
            a1,
            a2,
            mul_coeff0(b0, b1, b2, c0, c1, c2),
            mul_coeff1(b0, b1, b2, c0, c1, c2),
            mul_coeff2(b0, b1, b2, c0, c1, c2),
        ),
        mul_coeff1(
            mul_coeff0(a0, a1, a2, b0, b1, b2),
            mul_coeff1(a0, a1, a2, b0, b1, b2),
            mul_coeff2(a0, a1, a2, b0, b1, b2),
            c0,
            c1,
            c2,
        ) == mul_coeff1(
            a0,
            a1,
            a2,
            mul_coeff0(b0, b1, b2, c0, c1, c2),
            mul_coeff1(b0, b1, b2, c0, c1, c2),
            mul_coeff2(b0, b1, b2, c0, c1, c2),
        ),
        mul_coeff2(
            mul_coeff0(a0, a1, a2, b0, b1, b2),
            mul_coeff1(a0, a1, a2, b0, b1, b2),
            mul_coeff2(a0, a1, a2, b0, b1, b2),
            c0,
            c1,
            c2,
        ) == mul_coeff2(
            a0,
            a1,
            a2,
            mul_coeff0(b0, b1, b2, c0, c1, c2),
            mul_coeff1(b0, b1, b2, c0, c1, c2),
            mul_coeff2(b0, b1, b2, c0, c1, c2),
        ),
{
    let ab0 = mul_coeff0(a0, a1, a2, b0, b1, b2);
    let ab1 = mul_coeff1(a0, a1, a2, b0, b1, b2);
    let ab2 = mul_coeff2(a0, a1, a2, b0, b1, b2);
    let bc0 = mul_coeff0(b0, b1, b2, c0, c1, c2);
    let bc1 = mul_coeff1(b0, b1, b2, c0, c1, c2);
    let bc2 = mul_coeff2(b0, b1, b2, c0, c1, c2);
    // every product of three coefficients, bracketed to the left
    lemma_triple(a0, b0, c0);
    lemma_triple(a0, b0, c1);
    lemma_triple(a0, b0, c2);
    lemma_triple(a0, b1, c0);
    lemma_triple(a0, b1, c1);
    lemma_triple(a0, b1, c2);
    lemma_triple(a0, b2, c0);
    lemma_triple(a0, b2, c1);
    lemma_triple(a0, b2, c2);
    lemma_triple(a1, b0, c0);
    lemma_triple(a1, b0, c1);
    lemma_triple(a1, b0, c2);
    lemma_triple(a1, b1, c0);
    lemma_triple(a1, b1, c1);
    lemma_triple(a1, b1, c2);
    lemma_triple(a1, b2, c0);
    lemma_triple(a1, b2, c1);
    lemma_triple(a1, b2, c2);
    lemma_triple(a2, b0, c0);
    lemma_triple(a2, b0, c1);
    lemma_triple(a2, b0, c2);
    lemma_triple(a2, b1, c0);
    lemma_triple(a2, b1, c1);
    lemma_triple(a2, b1, c2);
    lemma_triple(a2, b2, c0);
    lemma_triple(a2, b2, c1);
    lemma_triple(a2, b2, c2);
    // (a*b) expanded against each coefficient of c
    lemma_scaled_sum(a0 * b0, a1 * b2, a2 * b1, 1, 5, 5, c0);
    lemma_scaled_sum(a0 * b0, a1 * b2, a2 * b1, 1, 5, 5, c1);
    lemma_scaled_sum(a0 * b0, a1 * b2, a2 * b1, 1, 5, 5, c2);
    lemma_scaled_sum(a0 * b1, a1 * b0, a2 * b2, 1, 1, 5, c0);
    lemma_scaled_sum(a0 * b1, a1 * b0, a2 * b2, 1, 1, 5, c1);
    lemma_scaled_sum(a0 * b1, a1 * b0, a2 * b2, 1, 1, 5, c2);
    lemma_scaled_sum(a0 * b2, a1 * b1, a2 * b0, 1, 1, 1, c0);
    lemma_scaled_sum(a0 * b2, a1 * b1, a2 * b0, 1, 1, 1, c1);
    lemma_scaled_sum(a0 * b2, a1 * b1, a2 * b0, 1, 1, 1, c2);
    // each coefficient of a expanded against (b*c)
    lemma_scaled_sum(b0 * c0, b1 * c2, b2 * c1, 1, 5, 5, a0);
    lemma_scaled_sum(b0 * c0, b1 * c2, b2 * c1, 1, 5, 5, a1);
    lemma_scaled_sum(b0 * c0, b1 * c2, b2 * c1, 1, 5, 5, a2);
    lemma_scaled_sum(b0 * c1, b1 * c0, b2 * c2, 1, 1, 5, a0);
    lemma_scaled_sum(b0 * c1, b1 * c0, b2 * c2, 1, 1, 5, a1);
    lemma_scaled_sum(b0 * c1, b1 * c0, b2 * c2, 1, 1, 5, a2);
    lemma_scaled_sum(b0 * c2, b1 * c1, b2 * c0, 1, 1, 1, a0);
    lemma_scaled_sum(b0 * c2, b1 * c1, b2 * c0, 1, 1, 1, a1);
    lemma_scaled_sum(b0 * c2, b1 * c1, b2 * c0, 1, 1, 1, a2);
    assert(ab0 == 1 * (a0 * b0) + 5 * (a1 * b2) + 5 * (a2 * b1));
    assert(ab1 == 1 * (a0 * b1) + 1 * (a1 * b0) + 5 * (a2 * b2));
    assert(ab2 == 1 * (a0 * b2) + 1 * (a1 * b1) + 1 * (a2 * b0));
    assert(bc0 == 1 * (b0 * c0) + 5 * (b1 * c2) + 5 * (b2 * c1));
    assert(bc1 == 1 * (b0 * c1) + 1 * (b1 * c0) + 5 * (b2 * c2));
    assert(bc2 == 1 * (b0 * c2) + 1 * (b1 * c1) + 1 * (b2 * c0));
}

/// `(a*b)*c = a*(b*c)`.
proof fn lemma_triple(a: int, b: int, c: int)
    ensures
        (a * b) * c == a * (b * c),
{
    vstd::arithmetic::mul::lemma_mul_is_associative(a, b, c);
}

impl Default for M31Ext3 {
    fn default() -> (r: M31Ext3)
        ensures
            r == M31Ext3::spec_zero(),
    {
        M31Ext3 { v: [M31 { v: 0 }, M31 { v: 0 }, M31 { v: 0 }] }
    }
}

impl M31Ext3 {
    /// Coefficient of `1`, as an integer.
    pub open spec fn c0(self) -> int {
        self.v[0].v as int
    }

    /// Coefficient of `x`, as an integer.
    pub open spec fn c1(self) -> int {
        self.v[1].v as int
    }

    /// Coefficient of `x^2`, as an integer.
    pub open spec fn c2(self) -> int {
        self.v[2].v as int
    }

    /// The base-field element that `self` is, when its higher coefficients
    /// vanish.
    pub fn to_base_field(&self) -> (r: M31)
        requires
            self.v[1] == M31::spec_zero(),
            self.v[2] == M31::spec_zero(),
        ensures
            r == self.v[0],
            M31Ext3::spec_from_base(r) == *self,
    {
        proof {
            lemma_ext_equal(M31Ext3::spec_from_base(self.v[0]), *self);
        }
        self.to_base_field_unsafe()
    }

    /// The coefficient of `1`, whatever the higher coefficients are.
    pub fn to_base_field_unsafe(&self) -> (r: M31)
        ensures
            r == self.v[0],
    {
        self.v[0]
    }

    /// The three coefficients as plain words.
    pub fn as_u32_array(&self) -> (r: [u32; 3])
        ensures
            r[0] == self.v[0].v,
            r[1] == self.v[1].v,
            r[2] == self.v[2].v,
    {
        [self.v[0].v, self.v[1].v, self.v[2].v]
    }

    /// The element that three random 32-bit words stand for.
    pub fn from_random_words(w0: u32, w1: u32, w2: u32) -> (r: M31Ext3)
        ensures
            r == ext_of_ints(w0 as int, w1 as int, w2 as int),
            r.wf(),
    {
        let r = M31Ext3 {
            v: [
                M31::from_random_word(w0),
                M31::from_random_word(w1),
                M31::from_random_word(w2),
            ],
        };
        proof {
            lemma_ext_of_ints(w0 as int, w1 as int, w2 as int);
            lemma_ext_equal(r, ext_of_ints(w0 as int, w1 as int, w2 as int));
        }
        r
    }
}

/// The product of two coefficient triples, computed with base-field
/// operations.
fn mul_internal(a: &[M31; 3], b: &[M31; 3]) -> (res: [M31; 3])
    requires
        a[0].wf() && a[1].wf() && a[2].wf(),
        b[0].wf() && b[1].wf() && b[2].wf(),
    ensures
        res[0].v == mul_coeff0(
            a[0].v as int,
            a[1].v as int,
            a[2].v as int,
            b[0].v as int,
            b[1].v as int,
            b[2].v as int,
        ) % (M31_MOD as int),
        res[1].v == mul_coeff1(
            a[0].v as int,
            a[1].v as int,
            a[2].v as int,
            b[0].v as int,
            b[1].v as int,
            b[2].v as int,
        ) % (M31_MOD as int),
        res[2].v == mul_coeff2(
            a[0].v as int,
            a[1].v as int,
            a[2].v as int,
            b[0].v as int,
            b[1].v as int,
            b[2].v as int,
        ) % (M31_MOD as int),
        res[0].wf() && res[1].wf() && res[2].wf(),
{
    let five = M31 { v: 5 };
    let ghost p = M31_MOD as int;
    let ghost (a0, a1, a2) = (a[0].v as int, a[1].v as int, a[2].v as int);
    let ghost (b0, b1, b2) = (b[0].v as int, b[1].v as int, b[2].v as int);
    let r0 = a[0].mul(&b[0]).add(&five.mul(&a[1].mul(&b[2]).add(&a[2].mul(&b[1]))));
    proof {
        lemma_add_mod_noop(a1 * b2, a2 * b1, p);
        lemma_mul_mod_noop_right(5, a1 * b2 + a2 * b1, p);
        lemma_add_mod_noop(a0 * b0, 5 * (a1 * b2 + a2 * b1), p);
    }
    let r1 = a[0].mul(&b[1]).add(&a[1].mul(&b[0])).add(&five.mul(&a[2]).mul(&b[2]));
    proof {
        lemma_add_mod_noop(a0 * b1, a1 * b0, p);
        lemma_mul_mod_noop_left(5 * a2, b2, p);
        assert((5 * a2) * b2 == 5 * (a2 * b2)) by (nonlinear_arith);
        lemma_add_mod_noop(a0 * b1 + a1 * b0, 5 * (a2 * b2), p);
    }
    let r2 = a[0].mul(&b[2]).add(&a[1].mul(&b[1])).add(&a[2].mul(&b[0]));
    proof {
        lemma_add_mod_noop(a0 * b2, a1 * b1, p);
        lemma_add_mod_noop(a0 * b2 + a1 * b1, a2 * b0, p);
    }
    [r0, r1, r2]
}

impl FieldArith for M31Ext3 {
    open spec fn wf(&self) -> bool {
        self.v[0].wf() && self.v[1].wf() && self.v[2].wf()
    }

    open spec fn spec_boolean(&self) -> bool {
        self.v[0].spec_boolean() && self.v[1].spec_boolean() && self.v[2].spec_boolean()
    }

    open spec fn spec_zero() -> Self {
        M31Ext3 { v: [M31 { v: 0 }, M31 { v: 0 }, M31 { v: 0 }] }
    }

    open spec fn spec_one() -> Self {
        M31Ext3 { v: [M31 { v: 1 }, M31 { v: 0 }, M31 { v: 0 }] }
    }

    open spec fn spec_inv_2() -> Self {
        M31Ext3 { v: [M31 { v: 0x4000_0000 }, M31 { v: 0 }, M31 { v: 0 }] }
    }

    open spec fn spec_add(self, rhs: Self) -> Self {
        ext_of_ints(self.c0() + rhs.c0(), self.c1() + rhs.c1(), self.c2() + rhs.c2())
    }

    open spec fn spec_neg(self) -> Self {
        ext_of_ints(-self.c0(), -self.c1(), -self.c2())
    }

    open spec fn spec_mul(self, rhs: Self) -> Self {
        ext_of_ints(
            mul_coeff0(self.c0(), self.c1(), self.c2(), rhs.c0(), rhs.c1(), rhs.c2()),
            mul_coeff1(self.c0(), self.c1(), self.c2(), rhs.c0(), rhs.c1(), rhs.c2()),
            mul_coeff2(self.c0(), self.c1(), self.c2(), rhs.c0(), rhs.c1(), rhs.c2()),
        )
    }

    open spec fn spec_exp(self, e: nat) -> Self
        decreases e,
    {
        if e == 0 {
            Self::spec_one()
        } else {
            self.spec_mul(self.spec_exp((e - 1) as nat))
        }
    }

    /// Inversion is not offered in this field.
    open spec fn spec_inv(self) -> Option<Self> {
        None
    }

    open spec fn spec_from_u32(x: u32) -> Self {
        ext_of_ints(x as int, 0, 0)
    }

    open spec fn spec_from_uniform_bytes(bytes: Seq<u8>) -> Self {
        ext_of_ints(
            M31::be_i32(bytes.subrange(0, 4)),
            M31::be_i32(bytes.subrange(4, 8)),
            M31::be_i32(bytes.subrange(8, 12)),
        )
    }

    open spec fn spec_as_u32(self) -> u32 {
        self.v[0].v
    }

    fn zero() -> (r: Self) {
        M31Ext3 { v: [M31 { v: 0 }, M31 { v: 0 }, M31 { v: 0 }] }
    }

    fn one() -> (r: Self) {
        M31Ext3 { v: [M31 { v: 1 }, M31 { v: 0 }, M31 { v: 0 }] }
    }

    fn inv_2() -> (r: Self) {
        M31Ext3 { v: [M31 { v: 0x4000_0000 }, M31 { v: 0 }, M31 { v: 0 }] }
    }

    fn add(&self, rhs: &Self) -> (r: Self) {
        let r = M31Ext3 {
            v: [self.v[0].add(&rhs.v[0]), self.v[1].add(&rhs.v[1]), self.v[2].add(&rhs.v[2])],
        };
        proof {
            lemma_ext_equal(r, self.spec_add(*rhs));
        }
        r
    }

    fn sub(&self, rhs: &Self) -> (r: Self) {
        let n = rhs.neg();
        self.add(&n)
    }

    fn neg(&self) -> (r: Self) {
        let r = M31Ext3 { v: [self.v[0].neg(), self.v[1].neg(), self.v[2].neg()] };
        proof {
            let p = M31_MOD as int;
            lemma_mod_multiples_vanish(1, -self.c0(), p);
            lemma_mod_multiples_vanish(1, -self.c1(), p);
            lemma_mod_multiples_vanish(1, -self.c2(), p);
            lemma_ext_equal(r, self.spec_neg());
        }
        r
    }

    fn mul(&self, rhs: &Self) -> (r: Self) {
        let r = M31Ext3 { v: mul_internal(&self.v, &rhs.v) };
        proof {
            lemma_ext_equal(r, self.spec_mul(*rhs));
        }
        r
    }

    fn double(&self) -> (r: Self) {
        self.add(self)
    }

    fn square(&self) -> (r: Self) {
        let ten = M31 { v: 10 };
        let five = M31 { v: 5 };
        let ghost p = M31_MOD as int;
        let ghost (a0, a1, a2) = (self.c0(), self.c1(), self.c2());
        let r0 = self.v[0].mul(&self.v[0]).add(&ten.mul(&self.v[1].mul(&self.v[2])));
        proof {
            lemma_mul_mod_noop_right(10, a1 * a2, p);
            lemma_add_mod_noop(a0 * a0, 10 * (a1 * a2), p);
            assert(a0 * a0 + 10 * (a1 * a2) == mul_coeff0(a0, a1, a2, a0, a1, a2))
                by (nonlinear_arith);
        }
        let r1 = self.v[0].mul(&self.v[1].double()).add(&five.mul(&self.v[2]).mul(&self.v[2]));
        proof {
            lemma_mul_mod_noop_right(a0, a1 + a1, p);
            lemma_mul_mod_noop_left(5 * a2, a2, p);
            lemma_add_mod_noop(a0 * (a1 + a1), (5 * a2) * a2, p);
            assert(a0 * (a1 + a1) + (5 * a2) * a2 == mul_coeff1(a0, a1, a2, a0, a1, a2))
                by (nonlinear_arith);
        }
        let r2 = self.v[0].mul(&self.v[2].double()).add(&self.v[1].mul(&self.v[1]));
        proof {
            lemma_mul_mod_noop_right(a0, a2 + a2, p);
            lemma_add_mod_noop(a0 * (a2 + a2), a1 * a1, p);
            assert(a0 * (a2 + a2) + a1 * a1 == mul_coeff2(a0, a1, a2, a0, a1, a2))
                by (nonlinear_arith);
        }
        let r = M31Ext3 { v: [r0, r1, r2] };
        proof {
            lemma_ext_equal(r, self.spec_mul(*self));
        }
        r
    }

    fn from_u32(x: u32) -> (r: Self) {
        let r = M31Ext3 { v: [M31::from_u32(x), M31 { v: 0 }, M31 { v: 0 }] };
        proof {
            lemma_ext_of_ints(x as int, 0, 0);
            lemma_ext_equal(r, Self::spec_from_u32(x));
        }
        r
    }

    fn from_uniform_bytes(bytes: &[u8; 32]) -> (r: Self) {
        let w0 = u32_from_le(bytes[3], bytes[2], bytes[1], bytes[0]);
        let w1 = u32_from_le(bytes[7], bytes[6], bytes[5], bytes[4]);
        let w2 = u32_from_le(bytes[11], bytes[10], bytes[9], bytes[8]);
        proof {
            assert forall|u: u32| #[trigger] (u as i32) as int == if u >= 0x8000_0000u32 {
                u - 0x1_0000_0000
            } else {
                u as int
            } by {
                assert(u as i32 == if u >= 0x8000_0000u32 {
                    u - 0x1_0000_0000
                } else {
                    u as int
                }) by (bit_vector);
            }
            let s0 = bytes@.subrange(0, 4);
            let s1 = bytes@.subrange(4, 8);
            let s2 = bytes@.subrange(8, 12);
            assert(s0[0] == bytes[0] && s0[1] == bytes[1] && s0[2] == bytes[2] && s0[3]
                == bytes[3]);
            assert(s1[0] == bytes[4] && s1[1] == bytes[5] && s1[2] == bytes[6] && s1[3]
                == bytes[7]);
            assert(s2[0] == bytes[8] && s2[1] == bytes[9] && s2[2] == bytes[10] && s2[3]
                == bytes[11]);
        }
        let r = M31Ext3 { v: [reduce_i32(w0 as i32), reduce_i32(w1 as i32), reduce_i32(w2 as i32)] };
        proof {
            lemma_ext_equal(r, Self::spec_from_uniform_bytes(bytes@));
        }
        r
    }

    fn as_u32_unchecked(&self) -> (r: u32) {
        self.v[0].as_u32_unchecked()
    }

    fn is_zero(&self) -> (b: bool) {
        let b = self.v[0].v == 0 && self.v[1].v == 0 && self.v[2].v == 0;
        proof {
            if b {
                lemma_ext_equal(*self, Self::spec_zero());
            }
        }
        b
    }

    fn is_canonical(&self) -> (b: bool) {
        self.v[0].is_canonical() && self.v[1].is_canonical() && self.v[2].is_canonical()
    }

    fn equals(&self, rhs: &Self) -> (b: bool) {
        let b = self.v[0].v == rhs.v[0].v && self.v[1].v == rhs.v[1].v && self.v[2].v
            == rhs.v[2].v;
        proof {
            if b {
                lemma_ext_equal(*self, *rhs);
            }
        }
        b
    }

    fn random_unsafe(rng: &mut StdRng) -> (r: Self) {
        let a = M31::random_unsafe(rng);
        let b = M31::random_unsafe(rng);
        let c = M31::random_unsafe(rng);
        M31Ext3 { v: [a, b, c] }
    }

    fn random_bool_unsafe(rng: &mut StdRng) -> (r: Self) {
        let a = M31::random_bool_unsafe(rng);
        let b = M31::random_bool_unsafe(rng);
        let c = M31::random_bool_unsafe(rng);
        M31Ext3 { v: [a, b, c] }
    }

    proof fn lemma_constants_wf() {
    }

    proof fn lemma_closed(a: Self, b: Self) {
        lemma_ext_of_ints(a.c0() + b.c0(), a.c1() + b.c1(), a.c2() + b.c2());
        lemma_ext_of_ints(-a.c0(), -a.c1(), -a.c2());
        lemma_ext_of_ints(
            mul_coeff0(a.c0(), a.c1(), a.c2(), b.c0(), b.c1(), b.c2()),
            mul_coeff1(a.c0(), a.c1(), a.c2(), b.c0(), b.c1(), b.c2()),
            mul_coeff2(a.c0(), a.c1(), a.c2(), b.c0(), b.c1(), b.c2()),
        );
    }

    proof fn lemma_add_commutative(a: Self, b: Self) {
    }

    proof fn lemma_add_associative(a: Self, b: Self, c: Self) {
        let p = M31_MOD as int;
        let ab = a.spec_add(b);
        let bc = b.spec_add(c);
        lemma_ext_of_ints(a.c0() + b.c0(), a.c1() + b.c1(), a.c2() + b.c2());
        lemma_ext_of_ints(b.c0() + c.c0(), b.c1() + c.c1(), b.c2() + c.c2());
        lemma_add_mod_noop(a.c0() + b.c0(), c.c0(), p);
        lemma_add_mod_noop(a.c1() + b.c1(), c.c1(), p);
        lemma_add_mod_noop(a.c2() + b.c2(), c.c2(), p);
        lemma_add_mod_noop(a.c0(), b.c0() + c.c0(), p);
        lemma_add_mod_noop(a.c1(), b.c1() + c.c1(), p);
        lemma_add_mod_noop(a.c2(), b.c2() + c.c2(), p);
        lemma_small_mod(a.c0() as nat, p as nat);
        lemma_small_mod(a.c1() as nat, p as nat);
        lemma_small_mod(a.c2() as nat, p as nat);
        lemma_small_mod(c.c0() as nat, p as nat);
        lemma_small_mod(c.c1() as nat, p as nat);
        lemma_small_mod(c.c2() as nat, p as nat);
        lemma_ext_of_ints_congruent(
            ab.c0() + c.c0(),
            ab.c1() + c.c1(),
            ab.c2() + c.c2(),
            a.c0() + bc.c0(),
            a.c1() + bc.c1(),
            a.c2() + bc.c2(),
        );
    }

    proof fn lemma_add_zero(a: Self) {
        lemma_ext_of_own_coeffs(a);
    }

    proof fn lemma_add_neg(a: Self) {
        let p = M31_MOD as int;
        let n = a.spec_neg();
        lemma_ext_of_ints(-a.c0(), -a.c1(), -a.c2());
        lemma_add_mod_noop(a.c0(), -a.c0(), p);
        lemma_add_mod_noop(a.c1(), -a.c1(), p);
        lemma_add_mod_noop(a.c2(), -a.c2(), p);
        lemma_small_mod(a.c0() as nat, p as nat);
        lemma_small_mod(a.c1() as nat, p as nat);
        lemma_small_mod(a.c2() as nat, p as nat);
        lemma_ext_of_ints_congruent(a.c0() + n.c0(), a.c1() + n.c1(), a.c2() + n.c2(), 0, 0, 0);
        lemma_ext_equal(ext_of_ints(0, 0, 0), Self::spec_zero());
    }

    proof fn lemma_mul_commutative(a: Self, b: Self) {
        lemma_mul_coeffs_commute(a.c0(), a.c1(), a.c2(), b.c0(), b.c1(), b.c2());
    }

    proof fn lemma_mul_associative(a: Self, b: Self, c: Self) {
        let ab0 = mul_coeff0(a.c0(), a.c1(), a.c2(), b.c0(), b.c1(), b.c2());
        let ab1 = mul_coeff1(a.c0(), a.c1(), a.c2(), b.c0(), b.c1(), b.c2());
        let ab2 = mul_coeff2(a.c0(), a.c1(), a.c2(), b.c0(), b.c1(), b.c2());
        let bc0 = mul_coeff0(b.c0(), b.c1(), b.c2(), c.c0(), c.c1(), c.c2());
        let bc1 = mul_coeff1(b.c0(), b.c1(), b.c2(), c.c0(), c.c1(), c.c2());
        let bc2 = mul_coeff2(b.c0(), b.c1(), b.c2(), c.c0(), c.c1(), c.c2());
        lemma_ext_of_ints(ab0, ab1, ab2);
        lemma_ext_of_ints(bc0, bc1, bc2);
        lemma_mul_coeffs_reduce_left(ab0, ab1, ab2, c.c0(), c.c1(), c.c2());
        lemma_mul_coeffs_reduce_right(a.c0(), a.c1(), a.c2(), bc0, bc1, bc2);
        lemma_mul_coeffs_associate(
            a.c0(),
            a.c1(),
            a.c2(),
            b.c0(),
            b.c1(),
            b.c2(),
            c.c0(),
            c.c1(),
            c.c2(),
        );
    }

    proof fn lemma_mul_one(a: Self) {
        assert(mul_coeff0(a.c0(), a.c1(), a.c2(), 1, 0, 0) == a.c0() && mul_coeff1(
            a.c0(),
            a.c1(),
            a.c2(),
            1,
            0,
            0,
        ) == a.c1() && mul_coeff2(a.c0(), a.c1(), a.c2(), 1, 0, 0) == a.c2()) by (nonlinear_arith);
        lemma_ext_of_own_coeffs(a);
    }

    proof fn lemma_mul_distributive(a: Self, b: Self, c: Self) {
        let p = M31_MOD as int;
        let (a0, a1, a2) = (a.c0(), a.c1(), a.c2());
        let (b0, b1, b2) = (b.c0(), b.c1(), b.c2());
        let (c0, c1, c2) = (c.c0(), c.c1(), c.c2());
        let ab = a.spec_mul(b);
        let ac = a.spec_mul(c);
        lemma_ext_of_ints(b0 + c0, b1 + c1, b2 + c2);
        lemma_ext_of_ints(
            mul_coeff0(a0, a1, a2, b0, b1, b2),
            mul_coeff1(a0, a1, a2, b0, b1, b2),
            mul_coeff2(a0, a1, a2, b0, b1, b2),
        );
        lemma_ext_of_ints(
            mul_coeff0(a0, a1, a2, c0, c1, c2),
            mul_coeff1(a0, a1, a2, c0, c1, c2),
            mul_coeff2(a0, a1, a2, c0, c1, c2),
        );
        lemma_mul_coeffs_reduce_right(a0, a1, a2, b0 + c0, b1 + c1, b2 + c2);
        lemma_mul_coeffs_distribute(a0, a1, a2, b0, b1, b2, c0, c1, c2);
        lemma_add_mod_noop(
            mul_coeff0(a0, a1, a2, b0, b1, b2),
            mul_coeff0(a0, a1, a2, c0, c1, c2),
            p,
        );
        lemma_add_mod_noop(
            mul_coeff1(a0, a1, a2, b0, b1, b2),
            mul_coeff1(a0, a1, a2, c0, c1, c2),
            p,
        );
        lemma_add_mod_noop(
            mul_coeff2(a0, a1, a2, b0, b1, b2),
            mul_coeff2(a0, a1, a2, c0, c1, c2),
            p,
        );
        lemma_ext_of_ints_congruent(
            ab.c0() + ac.c0(),
            ab.c1() + ac.c1(),
            ab.c2() + ac.c2(),
            mul_coeff0(a0, a1, a2, b0 + c0, b1 + c1, b2 + c2),
            mul_coeff1(a0, a1, a2, b0 + c0, b1 + c1, b2 + c2),
            mul_coeff2(a0, a1, a2, b0 + c0, b1 + c1, b2 + c2),
        );
    }

    proof fn lemma_exp_unfold(a: Self, e: nat) {
    }

    proof fn lemma_inv_2_doubles_to_one() {
        assert((0x4000_0000int + 0x4000_0000) % 0x7fff_ffff == 1) by (nonlinear_arith);
        lemma_ext_equal(Self::spec_inv_2().spec_add(Self::spec_inv_2()), Self::spec_one());
    }

    proof fn lemma_from_u32_constants() {
        lemma_ext_equal(Self::spec_from_u32(0), Self::spec_zero());
        lemma_ext_equal(Self::spec_from_u32(1), Self::spec_one());
        lemma_ext_equal(Self::spec_from_u32(2), Self::spec_one().spec_add(Self::spec_one()));
    }
}

/// Twelve zero bytes: what fills an encoding up to its fixed width.
pub open spec fn padding() -> Seq<u8> {
    Seq::new(12, |i: int| 0u8)
}

/// Three chunks of four bytes and twelve zero bytes make up the first 24
/// bytes that they were cut from.
proof fn lemma_chunks_assemble(bytes: Seq<u8>, a: Seq<u8>, b: Seq<u8>, c: Seq<u8>)
    requires
        bytes.len() >= 24,
        a == bytes.subrange(0, 4),
        b == bytes.subrange(4, 8),
        c == bytes.subrange(8, 12),
        forall|i: int| 12 <= i < 24 ==> bytes[i] == 0,
    ensures
        a + b + c + padding() == bytes.subrange(0, 24),
{
    let s = a + b + c + padding();
    let head = bytes.subrange(0, 24);
    assert forall|i: int| 0 <= i < 24 implies s[i] == head[i] by {
        if i < 4 {
            assert(s[i] == a[i]);
        } else if i < 8 {
            assert(s[i] == b[i - 4]);
        } else if i < 12 {
            assert(s[i] == c[i - 8]);
        } else {
            assert(s[i] == padding()[i - 12]);
        }
    }
    assert(s =~= head);
}

impl FieldSerde for M31Ext3 {
    open spec fn spec_size() -> nat {
        24
    }

    /// The three coefficients, four little-endian bytes each, then twelve
    /// zero bytes.
    open spec fn spec_serialize(self) -> Seq<u8> {
        le_bytes(self.c0(), 4) + le_bytes(self.c1(), 4) + le_bytes(self.c2(), 4) + padding()
    }

    open spec fn spec_deserialize(bytes: Seq<u8>) -> Self {
        ext_of_ints(le_value_at(bytes, 0, 4), le_value_at(bytes, 4, 4), le_value_at(bytes, 8, 4))
    }

    open spec fn spec_is_canonical(bytes: Seq<u8>) -> bool {
        &&& le_value_at(bytes, 0, 4) < M31_MOD
        &&& le_value_at(bytes, 4, 4) < M31_MOD
        &&& le_value_at(bytes, 8, 4) < M31_MOD
        &&& forall|i: int| 12 <= i < 24 ==> bytes[i] == 0
    }

    fn size() -> (n: usize) {
        24
    }

    fn serialize_into(&self, buffer: &mut Vec<u8>) {
        push_le(buffer, self.v[0].v as u64, 4);
        push_le(buffer, self.v[1].v as u64, 4);
        push_le(buffer, self.v[2].v as u64, 4);
        let ghost head = buffer@;
        let mut i: usize = 0;
        while i < 12
            invariant
                i <= 12,
                buffer@.len() == head.len() + i,
                buffer@.subrange(0, head.len() as int) == head,
                head == old(buffer)@ + le_bytes(self.c0(), 4) + le_bytes(self.c1(), 4) + le_bytes(
                    self.c2(),
                    4,
                ),
                forall|j: int| head.len() <= j < buffer@.len() ==> buffer@[j] == 0,
            decreases 12 - i,
        {
            buffer.push(0);
            proof {
                assert(buffer@.subrange(0, head.len() as int) =~= head);
            }
            i += 1;
        }
        proof {
            assert forall|j: int| 0 <= j < head.len() implies buffer@[j] == head[j] by {
                assert(buffer@.subrange(0, head.len() as int)[j] == buffer@[j]);
            }
            assert(buffer@ =~= head + padding());
        }
    }

    fn deserialize_from(buffer: &[u8]) -> (r: Self) {
        let w0 = read_le(buffer, 0, 4);
        let w1 = read_le(buffer, 4, 4);
        let w2 = read_le(buffer, 8, 4);
        proof {
            lemma_le_value_bound(buffer@, 0, 4);
            lemma_le_value_bound(buffer@, 4, 4);
            lemma_le_value_bound(buffer@, 8, 4);
            lemma_pow256_values();
        }
        let r = M31Ext3 {
            v: [
                M31 { v: (w0 % (M31_MOD as u64)) as u32 },
                M31 { v: (w1 % (M31_MOD as u64)) as u32 },
                M31 { v: (w2 % (M31_MOD as u64)) as u32 },
            ],
        };
        proof {
            lemma_ext_equal(r, Self::spec_deserialize(buffer@));
        }
        r
    }

    fn decode(buffer: &[u8]) -> (r: Option<Self>) {
        if buffer.len() < 24 {
            return None;
        }
        let w0 = read_le(buffer, 0, 4);
        let w1 = read_le(buffer, 4, 4);
        let w2 = read_le(buffer, 8, 4);
        let p = M31_MOD as u64;
        if w0 >= p || w1 >= p || w2 >= p {
            return None;
        }
        let mut i: usize = 12;
        while i < 24
            invariant
                12 <= i <= 24,
                buffer@.len() >= 24,
                forall|j: int| 12 <= j < i ==> buffer@[j] == 0,
            decreases 24 - i,
        {
            if buffer[i] != 0 {
                return None;
            }
            i += 1;
        }
        let r = M31Ext3 { v: [M31 { v: w0 as u32 }, M31 { v: w1 as u32 }, M31 { v: w2 as u32 }] };
        proof {
            lemma_small_mod(w0 as nat, M31_MOD as nat);
            lemma_small_mod(w1 as nat, M31_MOD as nat);
            lemma_small_mod(w2 as nat, M31_MOD as nat);
            lemma_ext_equal(r, Self::spec_deserialize(buffer@));
        }
        Some(r)
    }

    proof fn lemma_serialize_len(a: Self) {
    }

    proof fn lemma_serialize_round_trip(a: Self, rest: Seq<u8>) {
        let s = a.spec_serialize() + rest;
        let empty = Seq::<u8>::empty();
        lemma_pow256_values();
        lemma_le_value_subrange(s, 0, 4);
        lemma_le_value_subrange(s, 4, 4);
        lemma_le_value_subrange(s, 8, 4);
        assert(s.subrange(0, 4) =~= le_bytes(a.c0(), 4) + empty);
        assert(s.subrange(4, 8) =~= le_bytes(a.c1(), 4) + empty);
        assert(s.subrange(8, 12) =~= le_bytes(a.c2(), 4) + empty);
        lemma_le_round_trip(a.c0(), 4, empty);
        lemma_le_round_trip(a.c1(), 4, empty);
        lemma_le_round_trip(a.c2(), 4, empty);
        lemma_ext_of_own_coeffs(a);
        assert forall|i: int| 12 <= i < 24 implies s[i] == 0 by {
            assert(s[i] == padding()[i - 12]);
        }
    }

    proof fn lemma_canonical_reencodes(bytes: Seq<u8>) {
        let x = Self::spec_deserialize(bytes);
        lemma_le_value_bound(bytes, 0, 4);
        lemma_le_value_bound(bytes, 4, 4);
        lemma_le_value_bound(bytes, 8, 4);
        lemma_ext_of_ints(
            le_value_at(bytes, 0, 4),
            le_value_at(bytes, 4, 4),
            le_value_at(bytes, 8, 4),
        );
        lemma_small_mod(le_value_at(bytes, 0, 4) as nat, M31_MOD as nat);
        lemma_small_mod(le_value_at(bytes, 4, 4) as nat, M31_MOD as nat);
        lemma_small_mod(le_value_at(bytes, 8, 4) as nat, M31_MOD as nat);
        lemma_le_bytes_of_value(bytes, 0, 4);
        lemma_le_bytes_of_value(bytes, 4, 4);
        lemma_le_bytes_of_value(bytes, 8, 4);
        lemma_chunks_assemble(
            bytes,
            le_bytes(x.c0(), 4),
            le_bytes(x.c1(), 4),
            le_bytes(x.c2(), 4),
        );
    }

    proof fn lemma_deserialize_prefix(bytes: Seq<u8>) {
        let head = bytes.subrange(0, 24);
        lemma_le_value_subrange(bytes, 0, 4);
        lemma_le_value_subrange(bytes, 4, 4);
        lemma_le_value_subrange(bytes, 8, 4);
        lemma_le_value_subrange(head, 0, 4);
        lemma_le_value_subrange(head, 4, 4);
        lemma_le_value_subrange(head, 8, 4);
        assert(head.subrange(0, 4) =~= bytes.subrange(0, 4));
        assert(head.subrange(4, 8) =~= bytes.subrange(4, 8));
        assert(head.subrange(8, 12) =~= bytes.subrange(8, 12));
        assert forall|i: int| 12 <= i < 24 implies head[i] == bytes[i] by {}
        lemma_ext_of_ints(
            le_value_at(bytes, 0, 4),
            le_value_at(bytes, 4, 4),
            le_value_at(bytes, 8, 4),
        );
    }
}

impl Field for M31Ext3 {
    type BaseField = M31;

    open spec fn spec_from_base(b: M31) -> Self {
        M31Ext3 { v: [b, M31 { v: 0 }, M31 { v: 0 }] }
    }

    /// Inversion is not offered in this field: the result is always `None`.
    fn inv(&self) -> (r: Option<Self>) {
        None
    }

    fn exp(&self, exponent: u64) -> (r: Self) {
        exp_by_squaring(self, exponent)
    }

    fn from_base(b: &M31) -> (r: Self) {
        M31Ext3 { v: [*b, M31 { v: 0 }, M31 { v: 0 }] }
    }

    fn mul_base_elem(&self, rhs: &M31) -> (r: Self) {
        let r = M31Ext3 { v: [self.v[0].mul(rhs), self.v[1].mul(rhs), self.v[2].mul(rhs)] };
        proof {
            let (a0, a1, a2, b) = (self.c0(), self.c1(), self.c2(), rhs.v as int);
            assert(mul_coeff0(a0, a1, a2, b, 0, 0) == a0 * b && mul_coeff1(a0, a1, a2, b, 0, 0)
                == a1 * b && mul_coeff2(a0, a1, a2, b, 0, 0) == a2 * b) by (nonlinear_arith);
            lemma_ext_equal(r, self.spec_mul(Self::spec_from_base(*rhs)));
        }
        r
    }

    fn add_base_elem(&self, rhs: &M31) -> (r: Self) {
        let r = M31Ext3 { v: [self.v[0].add(rhs), self.v[1], self.v[2]] };
        proof {
            lemma_small_mod(self.c1() as nat, M31_MOD as nat);
            lemma_small_mod(self.c2() as nat, M31_MOD as nat);
            lemma_ext_equal(r, self.spec_add(Self::spec_from_base(*rhs)));
        }
        r
    }

    proof fn lemma_from_base_homomorphism(a: M31, b: M31) {
        let p = M31_MOD as int;
        let (x, y) = (a.v as int, b.v as int);
        lemma_small_mod(0, p as nat);
        lemma_mod_bound(x + y, p);
        lemma_mod_bound(x * y, p);
        lemma_mod_bound(p - x, p);
        lemma_ext_equal(
            Self::spec_from_base(a.spec_add(b)),
            Self::spec_from_base(a).spec_add(Self::spec_from_base(b)),
        );
        assert(mul_coeff0(x, 0, 0, y, 0, 0) == x * y && mul_coeff1(x, 0, 0, y, 0, 0) == 0
            && mul_coeff2(x, 0, 0, y, 0, 0) == 0) by (nonlinear_arith);
        lemma_ext_equal(
            Self::spec_from_base(a.spec_mul(b)),
            Self::spec_from_base(a).spec_mul(Self::spec_from_base(b)),
        );
        lemma_mod_multiples_vanish(1, -x, p);
        lemma_ext_equal(Self::spec_from_base(a.spec_neg()), Self::spec_from_base(a).spec_neg());
    }
}

} // verus!
