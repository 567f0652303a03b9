//! The scalar field of the BN254 curve.
//!
//! An element is held as the four 64-bit limbs of its canonical residue,
//! least significant first. Sums, products and inverses are computed by
//! halo2curves; everything else is computed here on the limbs.
use crate::field::encoding::{
    le_bytes, le_value_at, lemma_le_bytes_of_value, lemma_le_round_trip, lemma_le_value_bound,
    lemma_le_value_subrange, lemma_pow256_values, push_le, read_le,
};
use crate::field::modular::{
    add_mod, is_residue, lemma_add_mod_assoc, lemma_add_mod_neg, lemma_add_mod_zero,
    lemma_mul_mod_assoc, lemma_mul_mod_comm, lemma_mul_mod_distributes, lemma_mul_mod_one,
    lemma_residue_closed, mul_mod, neg_mod,
};
use crate::field::{
    exp_by_squaring, next_u64, two_adic_root, Field, FieldArith, FieldSerde, TwoAdicField,
};
use halo2curves::ff::{Field as FfField, PrimeField};
use rand::rngs::StdRng;
use vstd::arithmetic::div_mod::{
    lemma_fundamental_div_mod, lemma_fundamental_div_mod_converse, lemma_mod_bound,
    lemma_small_mod,
};
use vstd::prelude::*;

verus! {

/// The order of the field.
pub open spec fn modulus() -> int {
    0x30644e72e131a029_b85045b68181585d_2833e84879b97091_43e1f593f0000001int
}

/// `2^64`: the weight of a limb.
pub open spec fn limb_base() -> int {
    0x1_0000_0000_0000_0000int
}

pub const MODULUS_LIMBS: [u64; 4] = [
    0x43e1f593f0000001,
    0x2833e84879b97091,
    0xb85045b68181585d,
    0x30644e72e131a029,
];

#[derive(Clone, Copy, Debug, PartialEq, Eq, Structural)]
pub struct Fr {
    pub l0: u64,
    pub l1: u64,
    pub l2: u64,
    pub l3: u64,
}

/// The element whose limbs are the base-`2^64` digits of `v`.
pub open spec fn fr_of(v: int) -> Fr {
    Fr {
        l0: (v % limb_base()) as u64,
        l1: ((v / limb_base()) % limb_base()) as u64,
        l2: ((v / limb_base() / limb_base()) % limb_base()) as u64,
        l3: ((v / limb_base() / limb_base() / limb_base()) % limb_base()) as u64,
    }
}

/// The inverse of the nonzero residue `a`: the residue `x` with `a * x = 1`.
pub open spec fn inv_mod(a: int) -> int {
    choose|x: int| is_residue(x, modulus()) && mul_mod(a, x, modulus()) == 1
}

/// The limbs of `fr_of(v)` are the digits of `v`.
pub proof fn lemma_value_of_fr_of(v: int)
    requires
        0 <= v < limb_base() * limb_base() * limb_base() * limb_base(),
    ensures
        fr_of(v).value() == v,
{
    let b = limb_base();
    let q1 = v / b;
    let q2 = q1 / b;
    let q3 = q2 / b;
    lemma_fundamental_div_mod(v, b);
    lemma_fundamental_div_mod(q1, b);
    lemma_fundamental_div_mod(q2, b);
    lemma_fundamental_div_mod(q3, b);
    lemma_mod_bound(v, b);
    lemma_mod_bound(q1, b);
    lemma_mod_bound(q2, b);
    lemma_mod_bound(q3, b);
    assert(q3 < b) by (nonlinear_arith)
        requires
            0 <= v < b * b * b * b,
            v == b * q1 + v % b,
            q1 == b * q2 + q1 % b,
            q2 == b * q3 + q2 % b,
            0 <= v % b,
            0 <= q1 % b,
            0 <= q2 % b,
            b > 0,
    ;
    assert(0 <= q3) by (nonlinear_arith)
        requires
            0 <= v,
            q1 == v / b,
            q2 == q1 / b,
            q3 == q2 / b,
            b > 0,
    ;
    lemma_small_mod(q3 as nat, b as nat);
    assert(v % b + b * (q1 % b) + b * b * (q2 % b) + b * b * b * (q3 % b) == v)
        by (nonlinear_arith)
        requires
            v == b * q1 + v % b,
            q1 == b * q2 + q1 % b,
            q2 == b * q3 + q2 % b,
            q3 % b == q3,
    ;
}

/// An element is `fr_of` its own value.
pub proof fn lemma_fr_of_value(x: Fr)
    ensures
        fr_of(x.value()) == x,
        0 <= x.value() < limb_base() * limb_base() * limb_base() * limb_base(),
{
    let b = limb_base();
    let v = x.value();
    let t1 = x.l1 as int + b * (x.l2 as int) + b * b * (x.l3 as int);
    let t2 = x.l2 as int + b * (x.l3 as int);
    let t3 = x.l3 as int;
    assert(v == b * t1 + x.l0 as int && t1 == b * t2 + x.l1 as int && t2 == b * t3
        + x.l2 as int) by (nonlinear_arith)
        requires
            v == x.l0 as int + b * (x.l1 as int) + b * b * (x.l2 as int) + b * b * b * (
            x.l3 as int),
            t1 == x.l1 as int + b * (x.l2 as int) + b * b * (x.l3 as int),
            t2 == x.l2 as int + b * (x.l3 as int),
            t3 == x.l3 as int,
    ;
    lemma_fundamental_div_mod_converse(v, b, t1, x.l0 as int);
    lemma_fundamental_div_mod_converse(t1, b, t2, x.l1 as int);
    lemma_fundamental_div_mod_converse(t2, b, t3, x.l2 as int);
    lemma_small_mod(x.l3 as nat, b as nat);
    assert(0 <= v < b * b * b * b) by (nonlinear_arith)
        requires
            v == x.l0 as int + b * (x.l1 as int) + b * b * (x.l2 as int) + b * b * b * (
            x.l3 as int),
            0 <= x.l0 < b,
            0 <= x.l1 < b,
            0 <= x.l2 < b,
            0 <= x.l3 < b,
    ;
}

/// `fr_of` of a residue is canonical and has that residue as its value.
pub proof fn lemma_fr_of_residue(v: int)
    requires
        is_residue(v, modulus()),
    ensures
        fr_of(v).wf(),
        fr_of(v).value() == v,
{
    assert(modulus() < limb_base() * limb_base() * limb_base() * limb_base()) by (nonlinear_arith);
    lemma_value_of_fr_of(v);
}

/// A nonzero residue has at most one inverse.
pub proof fn lemma_inverse_unique(a: int, x: int, y: int)
    requires
        is_residue(a, modulus()),
        is_residue(x, modulus()),
        is_residue(y, modulus()),
        mul_mod(a, x, modulus()) == 1,
        mul_mod(a, y, modulus()) == 1,
    ensures
        x == y,
{
    let r = modulus();
    // x = x * (a * y) = (x * a) * y = y
    lemma_mul_mod_one(x, r);
    lemma_mul_mod_one(y, r);
    lemma_mul_mod_assoc(x, a, y, r);
    lemma_mul_mod_comm(x, a, r);
}

/// The sum of two elements, computed by halo2curves: `Fr::from_raw` takes the
/// limbs of each operand, `+` adds in the field, and `to_repr` gives the
/// canonical little-endian bytes of the sum.
#[verifier::external_body]
fn fr_add(a: &Fr, b: &Fr) -> (r: Fr)
    requires
        a.wf(),
        b.wf(),
    ensures
        r == fr_of(add_mod(a.value(), b.value(), modulus())),
{
    let x = halo2curves::bn256::Fr::from_raw([a.l0, a.l1, a.l2, a.l3]);
    let y = halo2curves::bn256::Fr::from_raw([b.l0, b.l1, b.l2, b.l3]);
    let s = (x + y).to_repr();
    let w = s.as_ref();
    Fr {
        l0: u64::from_le_bytes(w[0..8].try_into().unwrap()),
        l1: u64::from_le_bytes(w[8..16].try_into().unwrap()),
        l2: u64::from_le_bytes(w[16..24].try_into().unwrap()),
        l3: u64::from_le_bytes(w[24..32].try_into().unwrap()),
    }
}

/// The additive inverse of an element, computed by halo2curves: unary `-` on
/// `Fr::from_raw` of the limbs, read back through `to_repr`.
#[verifier::external_body]
fn fr_neg(a: &Fr) -> (r: Fr)
    requires
        a.wf(),
    ensures
        r == fr_of(neg_mod(a.value(), modulus())),
{
    let x = halo2curves::bn256::Fr::from_raw([a.l0, a.l1, a.l2, a.l3]);
    let s = (-x).to_repr();
    let w = s.as_ref();
    Fr {
        l0: u64::from_le_bytes(w[0..8].try_into().unwrap()),
        l1: u64::from_le_bytes(w[8..16].try_into().unwrap()),
        l2: u64::from_le_bytes(w[16..24].try_into().unwrap()),
        l3: u64::from_le_bytes(w[24..32].try_into().unwrap()),
    }
}

/// The product of two elements, computed by halo2curves: `*` on
/// `Fr::from_raw` of the limbs, read back through `to_repr`.
#[verifier::external_body]
fn fr_mul(a: &Fr, b: &Fr) -> (r: Fr)
    requires
        a.wf(),
        b.wf(),
    ensures
        r == fr_of(mul_mod(a.value(), b.value(), modulus())),
{
    let x = halo2curves::bn256::Fr::from_raw([a.l0, a.l1, a.l2, a.l3]);
    let y = halo2curves::bn256::Fr::from_raw([b.l0, b.l1, b.l2, b.l3]);
    let s = (x * y).to_repr();
    let w = s.as_ref();
    Fr {
        l0: u64::from_le_bytes(w[0..8].try_into().unwrap()),
        l1: u64::from_le_bytes(w[8..16].try_into().unwrap()),
        l2: u64::from_le_bytes(w[16..24].try_into().unwrap()),
        l3: u64::from_le_bytes(w[24..32].try_into().unwrap()),
    }
}

/// The multiplicative inverse, computed by `Field::invert` of halo2curves,
/// which fails exactly on zero; zero is handed back in that case, and
/// otherwise the canonical element whose product with the operand is one.
#[verifier::external_body]
fn fr_invert(a: &Fr) -> (r: Fr)
    requires
        a.wf(),
    ensures
        r.wf(),
        a.value() == 0 ==> r.value() == 0,
        a.value() != 0 ==> mul_mod(a.value(), r.value(), modulus()) == 1,
{
    let x = halo2curves::bn256::Fr::from_raw([a.l0, a.l1, a.l2, a.l3]);
    let s = x.invert().unwrap_or(halo2curves::bn256::Fr::zero()).to_repr();
    let w = s.as_ref();
    Fr {
        l0: u64::from_le_bytes(w[0..8].try_into().unwrap()),
        l1: u64::from_le_bytes(w[8..16].try_into().unwrap()),
        l2: u64::from_le_bytes(w[16..24].try_into().unwrap()),
        l3: u64::from_le_bytes(w[24..32].try_into().unwrap()),
    }
}

/// The residue of any four limbs, computed by `Fr::from_raw` of halo2curves,
/// which takes an integer in little-endian limbs to the element congruent to
/// it, read back through `to_repr`.
#[verifier::external_body]
fn fr_from_raw(l0: u64, l1: u64, l2: u64, l3: u64) -> (r: Fr)
    ensures
        r == fr_of((Fr { l0, l1, l2, l3 }).value() % modulus()),
{
    let s = halo2curves::bn256::Fr::from_raw([l0, l1, l2, l3]).to_repr();
    let w = s.as_ref();
    Fr {
        l0: u64::from_le_bytes(w[0..8].try_into().unwrap()),
        l1: u64::from_le_bytes(w[8..16].try_into().unwrap()),
        l2: u64::from_le_bytes(w[16..24].try_into().unwrap()),
        l3: u64::from_le_bytes(w[24..32].try_into().unwrap()),
    }
}

impl Default for Fr {
    fn default() -> (r: Fr)
        ensures
            r == Fr::spec_zero(),
    {
        Fr { l0: 0, l1: 0, l2: 0, l3: 0 }
    }
}

impl Fr {
    /// The residue that the limbs spell out in base `2^64`.
    pub open spec fn value(self) -> int {
        self.l0 as int + limb_base() * (self.l1 as int) + limb_base() * limb_base() * (
        self.l2 as int) + limb_base() * limb_base() * limb_base() * (self.l3 as int)
    }

    /// The limbs spell out a number below the modulus.
    pub fn below_modulus(&self) -> (b: bool)
        ensures
            b == (self.value() < modulus()),
    {
        proof {
            assert(limb_base() * limb_base() == 0x1_0000_0000_0000_0000_0000_0000_0000_0000int)
                by (nonlinear_arith);
            assert(limb_base() * limb_base() * limb_base()
                == 0x1_0000_0000_0000_0000_0000_0000_0000_0000_0000_0000_0000_0000int)
                by (nonlinear_arith);
        }
        if self.l3 != MODULUS_LIMBS[3] {
            return self.l3 < MODULUS_LIMBS[3];
        }
        if self.l2 != MODULUS_LIMBS[2] {
            return self.l2 < MODULUS_LIMBS[2];
        }
        if self.l1 != MODULUS_LIMBS[1] {
            return self.l1 < MODULUS_LIMBS[1];
        }
        self.l0 < MODULUS_LIMBS[0]
    }

    /// The element that four random 64-bit words stand for.
    pub fn from_random_words(w0: u64, w1: u64, w2: u64, w3: u64) -> (r: Fr)
        ensures
            r == fr_of((Fr { l0: w0, l1: w1, l2: w2, l3: w3 }).value() % modulus()),
            r.wf(),
    {
        proof {
            lemma_mod_bound((Fr { l0: w0, l1: w1, l2: w2, l3: w3 }).value(), modulus());
            lemma_fr_of_residue((Fr { l0: w0, l1: w1, l2: w2, l3: w3 }).value() % modulus());
        }
        fr_from_raw(w0, w1, w2, w3)
    }
}

/// The four limbs that the first 32 bytes spell out, little-endian.
pub open spec fn limbs_of_bytes(bytes: Seq<u8>) -> Fr {
    Fr {
        l0: le_value_at(bytes, 0, 8) as u64,
        l1: le_value_at(bytes, 8, 8) as u64,
        l2: le_value_at(bytes, 16, 8) as u64,
        l3: le_value_at(bytes, 24, 8) as u64,
    }
}

/// Reads four limbs from the front of `bytes`.
fn read_limbs(bytes: &[u8]) -> (r: Fr)
    requires
        bytes@.len() >= 32,
    ensures
        r == limbs_of_bytes(bytes@),
{
    Fr {
        l0: read_le(bytes, 0, 8),
        l1: read_le(bytes, 8, 8),
        l2: read_le(bytes, 16, 8),
        l3: read_le(bytes, 24, 8),
    }
}

/// A single small limb is the element of that value.
proof fn lemma_fr_of_word(x: u64)
    ensures
        fr_of(x as int) == (Fr { l0: x, l1: 0, l2: 0, l3: 0 }),
        (Fr { l0: x, l1: 0, l2: 0, l3: 0 }).value() == x,
        (Fr { l0: x, l1: 0, l2: 0, l3: 0 }).wf(),
{
    lemma_fr_of_value(Fr { l0: x, l1: 0, l2: 0, l3: 0 });
    assert(limb_base() * 0 == 0 && limb_base() * limb_base() * 0 == 0 && limb_base()
        * limb_base() * limb_base() * 0 == 0) by (nonlinear_arith);
}

/// The value of the constant `inv_2`: half of the modulus plus one.
proof fn lemma_inv_2_value()
    ensures
        Fr::spec_inv_2().value()
            == 0x183227397098d014_dc2822db40c0ac2e_9419f4243cdcb848_a1f0fac9f8000001int,
{
    assert(Fr::spec_inv_2().value()
        == 0x183227397098d014_dc2822db40c0ac2e_9419f4243cdcb848_a1f0fac9f8000001int)
        by (nonlinear_arith)
        requires
            Fr::spec_inv_2().value() == 0xa1f0fac9f8000001int + limb_base() * (
            0x9419f4243cdcb848int) + limb_base() * limb_base() * (0xdc2822db40c0ac2eint)
                + limb_base() * limb_base() * limb_base() * (0x183227397098d014int),
            limb_base() == 0x1_0000_0000_0000_0000int,
    ;
}

impl FieldArith for Fr {
    open spec fn wf(&self) -> bool {
        self.value() < modulus()
    }

    open spec fn spec_boolean(&self) -> bool {
        *self == Self::spec_zero() || *self == Self::spec_one()
    }

    open spec fn spec_zero() -> Self {
        Fr { l0: 0, l1: 0, l2: 0, l3: 0 }
    }

    open spec fn spec_one() -> Self {
        Fr { l0: 1, l1: 0, l2: 0, l3: 0 }
    }

    open spec fn spec_inv_2() -> Self {
        Fr {
            l0: 0xa1f0fac9f8000001,
            l1: 0x9419f4243cdcb848,
            l2: 0xdc2822db40c0ac2e,
            l3: 0x183227397098d014,
        }
    }

    open spec fn spec_add(self, rhs: Self) -> Self {
        fr_of(add_mod(self.value(), rhs.value(), modulus()))
    }

    open spec fn spec_neg(self) -> Self {
        fr_of(neg_mod(self.value(), modulus()))
    }

    open spec fn spec_mul(self, rhs: Self) -> Self {
        fr_of(mul_mod(self.value(), rhs.value(), modulus()))
    }

    open spec fn spec_exp(self, e: nat) -> Self
        decreases e,
    {
        if e == 0 {
            Self::spec_one()
        } else {
            self.spec_mul(self.spec_exp((e - 1) as nat))
        }
    }

    open spec fn spec_inv(self) -> Option<Self> {
        if self.value() == 0 {
            None
        } else {
            Some(fr_of(inv_mod(self.value())))
        }
    }

    open spec fn spec_from_u32(x: u32) -> Self {
        Fr { l0: x as u64, l1: 0, l2: 0, l3: 0 }
    }

    open spec fn spec_from_uniform_bytes(bytes: Seq<u8>) -> Self {
        fr_of(limbs_of_bytes(bytes).value() % modulus())
    }

    open spec fn spec_as_u32(self) -> u32 {
        (self.l0 % 0x1_0000_0000) as u32
    }

    fn zero() -> (r: Self) {
        proof {
            lemma_fr_of_word(0);
        }
        Fr { l0: 0, l1: 0, l2: 0, l3: 0 }
    }

    fn one() -> (r: Self) {
        proof {
            lemma_fr_of_word(1);
        }
        Fr { l0: 1, l1: 0, l2: 0, l3: 0 }
    }

    fn inv_2() -> (r: Self) {
        proof {
            Self::lemma_constants_wf();
        }
        Fr {
            l0: 0xa1f0fac9f8000001,
            l1: 0x9419f4243cdcb848,
            l2: 0xdc2822db40c0ac2e,
            l3: 0x183227397098d014,
        }
    }

    fn add(&self, rhs: &Self) -> (r: Self) {
        proof {
            Self::lemma_closed(*self, *rhs);
        }
        fr_add(self, rhs)
    }

    fn sub(&self, rhs: &Self) -> (r: Self) {
        let n = rhs.neg();
        self.add(&n)
    }

    fn neg(&self) -> (r: Self) {
        proof {
            Self::lemma_closed(*self, *self);
        }
        fr_neg(self)
    }

    fn mul(&self, rhs: &Self) -> (r: Self) {
        proof {
            Self::lemma_closed(*self, *rhs);
        }
        fr_mul(self, rhs)
    }

    fn double(&self) -> (r: Self) {
        self.add(self)
    }

    fn square(&self) -> (r: Self) {
        self.mul(self)
    }

    fn from_u32(x: u32) -> (r: Self) {
        proof {
            lemma_fr_of_word(x as u64);
        }
        Fr { l0: x as u64, l1: 0, l2: 0, l3: 0 }
    }

    fn from_uniform_bytes(bytes: &[u8; 32]) -> (r: Self) {
        let raw = read_limbs(bytes.as_slice());
        proof {
            lemma_mod_bound(raw.value(), modulus());
            lemma_fr_of_residue(raw.value() % modulus());
        }
        fr_from_raw(raw.l0, raw.l1, raw.l2, raw.l3)
    }

    fn as_u32_unchecked(&self) -> (r: u32) {
        (self.l0 % 0x1_0000_0000) as u32
    }

    fn is_zero(&self) -> (b: bool) {
        self.l0 == 0 && self.l1 == 0 && self.l2 == 0 && self.l3 == 0
    }

    fn is_canonical(&self) -> (b: bool) {
        self.below_modulus()
    }

    fn equals(&self, rhs: &Self) -> (b: bool) {
        self.l0 == rhs.l0 && self.l1 == rhs.l1 && self.l2 == rhs.l2 && self.l3 == rhs.l3
    }

    fn random_unsafe(rng: &mut StdRng) -> (r: Self) {
        let w0 = next_u64(rng);
        let w1 = next_u64(rng);
        let w2 = next_u64(rng);
        let w3 = next_u64(rng);
        Fr::from_random_words(w0, w1, w2, w3)
    }

    fn random_bool_unsafe(rng: &mut StdRng) -> (r: Self) {
        let w = next_u64(rng);
        proof {
            lemma_fr_of_word(w % 2);
        }
        Fr { l0: w % 2, l1: 0, l2: 0, l3: 0 }
    }

    proof fn lemma_constants_wf() {
        lemma_fr_of_word(0);
        lemma_fr_of_word(1);
        lemma_inv_2_value();
    }

    proof fn lemma_closed(a: Self, b: Self) {
        lemma_residue_closed(a.value(), b.value(), modulus());
        lemma_fr_of_residue(add_mod(a.value(), b.value(), modulus()));
        lemma_fr_of_residue(neg_mod(a.value(), modulus()));
        lemma_fr_of_residue(mul_mod(a.value(), b.value(), modulus()));
    }

    proof fn lemma_add_commutative(a: Self, b: Self) {
    }

    proof fn lemma_add_associative(a: Self, b: Self, c: Self) {
        let r = modulus();
        lemma_fr_of_value(a);
        lemma_fr_of_value(b);
        lemma_fr_of_value(c);
        lemma_residue_closed(a.value(), b.value(), r);
        lemma_residue_closed(b.value(), c.value(), r);
        lemma_fr_of_residue(add_mod(a.value(), b.value(), r));
        lemma_fr_of_residue(add_mod(b.value(), c.value(), r));
        lemma_add_mod_assoc(a.value(), b.value(), c.value(), r);
    }

    proof fn lemma_add_zero(a: Self) {
        lemma_fr_of_word(0);
        lemma_fr_of_value(a);
        lemma_add_mod_zero(a.value(), modulus());
    }

    proof fn lemma_add_neg(a: Self) {
        let r = modulus();
        lemma_fr_of_word(0);
        lemma_fr_of_value(a);
        lemma_residue_closed(a.value(), a.value(), r);
        lemma_fr_of_residue(neg_mod(a.value(), r));
        lemma_add_mod_neg(a.value(), r);
    }

    proof fn lemma_mul_commutative(a: Self, b: Self) {
        lemma_mul_mod_comm(a.value(), b.value(), modulus());
    }

    proof fn lemma_mul_associative(a: Self, b: Self, c: Self) {
        let r = modulus();
        lemma_fr_of_value(a);
        lemma_fr_of_value(b);
        lemma_fr_of_value(c);
        lemma_residue_closed(a.value(), b.value(), r);
        lemma_residue_closed(b.value(), c.value(), r);
        lemma_fr_of_residue(mul_mod(a.value(), b.value(), r));
        lemma_fr_of_residue(mul_mod(b.value(), c.value(), r));
        lemma_mul_mod_assoc(a.value(), b.value(), c.value(), r);
    }

    proof fn lemma_mul_one(a: Self) {
        lemma_fr_of_word(1);
        lemma_fr_of_value(a);
        lemma_mul_mod_one(a.value(), modulus());
    }

    proof fn lemma_mul_distributive(a: Self, b: Self, c: Self) {
        let r = modulus();
        lemma_fr_of_value(a);
        lemma_fr_of_value(b);
        lemma_fr_of_value(c);
        lemma_residue_closed(a.value(), b.value(), r);
        lemma_residue_closed(a.value(), c.value(), r);
        lemma_residue_closed(b.value(), c.value(), r);
        lemma_fr_of_residue(add_mod(b.value(), c.value(), r));
        lemma_fr_of_residue(mul_mod(a.value(), b.value(), r));
        lemma_fr_of_residue(mul_mod(a.value(), c.value(), r));
        lemma_mul_mod_distributes(a.value(), b.value(), c.value(), r);
    }

    proof fn lemma_exp_unfold(a: Self, e: nat) {
    }

    proof fn lemma_inv_2_doubles_to_one() {
        lemma_inv_2_value();
        lemma_fr_of_word(1);
        let h = Self::spec_inv_2().value();
        assert((h + h) % modulus() == 1) by (nonlinear_arith)
            requires
                h == 0x183227397098d014_dc2822db40c0ac2e_9419f4243cdcb848_a1f0fac9f8000001int,
                modulus()
                    == 0x30644e72e131a029_b85045b68181585d_2833e84879b97091_43e1f593f0000001int,
        ;
    }

    proof fn lemma_from_u32_constants() {
        lemma_fr_of_word(1);
        lemma_fr_of_word(2);
        lemma_small_mod(2, modulus() as nat);
    }
}

impl FieldSerde for Fr {
    open spec fn spec_size() -> nat {
        32
    }

    /// The four limbs, eight little-endian bytes each.
    open spec fn spec_serialize(self) -> Seq<u8> {
        le_bytes(self.l0 as int, 8) + le_bytes(self.l1 as int, 8) + le_bytes(self.l2 as int, 8)
            + le_bytes(self.l3 as int, 8)
    }

    open spec fn spec_deserialize(bytes: Seq<u8>) -> Self {
        fr_of(limbs_of_bytes(bytes).value() % modulus())
    }

    open spec fn spec_is_canonical(bytes: Seq<u8>) -> bool {
        limbs_of_bytes(bytes).wf()
    }

    fn size() -> (n: usize) {
        32
    }

    fn serialize_into(&self, buffer: &mut Vec<u8>) {
        push_le(buffer, self.l0, 8);
        push_le(buffer, self.l1, 8);
        push_le(buffer, self.l2, 8);
        push_le(buffer, self.l3, 8);
        proof {
            assert(buffer@ =~= old(buffer)@ + self.spec_serialize());
        }
    }

    fn deserialize_from(buffer: &[u8]) -> (r: Self) {
        let raw = read_limbs(buffer);
        proof {
            lemma_mod_bound(raw.value(), modulus());
            lemma_fr_of_residue(raw.value() % modulus());
        }
        fr_from_raw(raw.l0, raw.l1, raw.l2, raw.l3)
    }

    fn decode(buffer: &[u8]) -> (r: Option<Self>) {
        if buffer.len() < 32 {
            return None;
        }
        let raw = read_limbs(buffer);
        if raw.below_modulus() {
            proof {
                lemma_small_mod(raw.value() as nat, modulus() as nat);
                lemma_fr_of_value(raw);
            }
            Some(raw)
        } else {
            None
        }
    }

    proof fn lemma_serialize_len(a: Self) {
    }

    proof fn lemma_serialize_round_trip(a: Self, rest: Seq<u8>) {
        let s = a.spec_serialize() + rest;
        let empty = Seq::<u8>::empty();
        lemma_pow256_values();
        lemma_le_value_subrange(s, 0, 8);
        lemma_le_value_subrange(s, 8, 8);
        lemma_le_value_subrange(s, 16, 8);
        lemma_le_value_subrange(s, 24, 8);
        assert(s.subrange(0, 8) =~= le_bytes(a.l0 as int, 8) + empty);
        assert(s.subrange(8, 16) =~= le_bytes(a.l1 as int, 8) + empty);
        assert(s.subrange(16, 24) =~= le_bytes(a.l2 as int, 8) + empty);
        assert(s.subrange(24, 32) =~= le_bytes(a.l3 as int, 8) + empty);
        lemma_le_round_trip(a.l0 as int, 8, empty);
        lemma_le_round_trip(a.l1 as int, 8, empty);
        lemma_le_round_trip(a.l2 as int, 8, empty);
        lemma_le_round_trip(a.l3 as int, 8, empty);
        assert(limbs_of_bytes(s) == a);
        lemma_small_mod(a.value() as nat, modulus() as nat);
        lemma_fr_of_value(a);
    }

    proof fn lemma_canonical_reencodes(bytes: Seq<u8>) {
        let raw = limbs_of_bytes(bytes);
        lemma_small_mod(raw.value() as nat, modulus() as nat);
        lemma_fr_of_value(raw);
        lemma_pow256_values();
        lemma_le_value_bound(bytes, 0, 8);
        lemma_le_value_bound(bytes, 8, 8);
        lemma_le_value_bound(bytes, 16, 8);
        lemma_le_value_bound(bytes, 24, 8);
        lemma_le_bytes_of_value(bytes, 0, 8);
        lemma_le_bytes_of_value(bytes, 8, 8);
        lemma_le_bytes_of_value(bytes, 16, 8);
        lemma_le_bytes_of_value(bytes, 24, 8);
        let s = raw.spec_serialize();
        let head = bytes.subrange(0, 32);
        assert forall|i: int| 0 <= i < 32 implies s[i] == head[i] by {
            if i < 8 {
                assert(s[i] == bytes.subrange(0, 8)[i]);
            } else if i < 16 {
                assert(s[i] == bytes.subrange(8, 16)[i - 8]);
            } else if i < 24 {
                assert(s[i] == bytes.subrange(16, 24)[i - 16]);
            } else {
                assert(s[i] == bytes.subrange(24, 32)[i - 24]);
            }
        }
        assert(s =~= head);
    }

    proof fn lemma_deserialize_prefix(bytes: Seq<u8>) {
        let head = bytes.subrange(0, 32);
        lemma_le_value_subrange(bytes, 0, 8);
        lemma_le_value_subrange(bytes, 8, 8);
        lemma_le_value_subrange(bytes, 16, 8);
        lemma_le_value_subrange(bytes, 24, 8);
        lemma_le_value_subrange(head, 0, 8);
        lemma_le_value_subrange(head, 8, 8);
        lemma_le_value_subrange(head, 16, 8);
        lemma_le_value_subrange(head, 24, 8);
        assert(head.subrange(0, 8) =~= bytes.subrange(0, 8));
        assert(head.subrange(8, 16) =~= bytes.subrange(8, 16));
        assert(head.subrange(16, 24) =~= bytes.subrange(16, 24));
        assert(head.subrange(24, 32) =~= bytes.subrange(24, 32));
        lemma_mod_bound(limbs_of_bytes(bytes).value(), modulus());
        lemma_fr_of_residue(limbs_of_bytes(bytes).value() % modulus());
    }
}

impl Field for Fr {
    type BaseField = Fr;

    open spec fn spec_from_base(b: Fr) -> Self {
        b
    }

    fn inv(&self) -> (r: Option<Self>) {
        proof {
            lemma_fr_of_word(0);
            lemma_fr_of_word(1);
            lemma_fr_of_value(*self);
        }
        if self.is_zero() {
            return None;
        }
        let x = fr_invert(self);
        proof {
            lemma_fr_of_value(x);
            // the inverse that was computed is a witness for the one chosen
            assert(is_residue(x.value(), modulus()) && mul_mod(self.value(), x.value(), modulus())
                == 1);
            lemma_inverse_unique(self.value(), x.value(), inv_mod(self.value()));
        }
        Some(x)
    }

    fn exp(&self, exponent: u64) -> (r: Self) {
        exp_by_squaring(self, exponent)
    }

    fn from_base(b: &Fr) -> (r: Self) {
        *b
    }

    fn mul_base_elem(&self, rhs: &Fr) -> (r: Self) {
        self.mul(rhs)
    }

    fn add_base_elem(&self, rhs: &Fr) -> (r: Self) {
        self.add(rhs)
    }

    proof fn lemma_from_base_homomorphism(a: Fr, b: Fr) {
    }
}

impl TwoAdicField for Fr {
    open spec fn spec_two_adicity() -> nat {
        28
    }

    /// The seventh power residue `7^((r - 1) / 2^28)`.
    open spec fn spec_two_adic_generator() -> Self {
        Fr {
            l0: 0xd34f1ed960c37c9c,
            l1: 0x3215cf6dd39329c8,
            l2: 0x98865ea93dd31f74,
            l3: 0x03ddb9f5166d18b7,
        }
    }

    proof fn lemma_generator_order() {
        crate::field::bn254_order::lemma_generator_order();
    }

    fn two_adicity() -> (s: usize) {
        28
    }

    fn two_adic_generator() -> (g: Self) {
        let g = Fr {
            l0: 0xd34f1ed960c37c9c,
            l1: 0x3215cf6dd39329c8,
            l2: 0x98865ea93dd31f74,
            l3: 0x03ddb9f5166d18b7,
        };
        proof {
            assert(g.value()
                == 0x03ddb9f5166d18b7_98865ea93dd31f74_3215cf6dd39329c8_d34f1ed960c37c9cint)
                by (nonlinear_arith)
                requires
                    g.value() == 0xd34f1ed960c37c9cint + limb_base() * (0x3215cf6dd39329c8int)
                        + limb_base() * limb_base() * (0x98865ea93dd31f74int) + limb_base()
                        * limb_base() * limb_base() * (0x03ddb9f5166d18b7int),
                    limb_base() == 0x1_0000_0000_0000_0000int,
            ;
        }
        g
    }

    fn root_of_unity(k: usize) -> (r: Self) {
        let g = Self::two_adic_generator();
        two_adic_root(&g, 28, k)
    }
}

} // verus!
