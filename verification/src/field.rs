//! Finite fields: the operations every field offers, their algebraic laws,
//! serialization, base-field embedding and two-adic structure.
pub mod algebra;
pub mod bn254;
pub mod bn254_order;
pub mod encoding;
pub mod m31;
pub mod m31_ext;
pub mod modular;
pub mod msn61_ext;

use rand::rngs::StdRng;
use rand::RngCore;
use vstd::prelude::*;

verus! {

#[verifier::external_type_specification]
#[verifier::external_body]
pub struct ExStdRng(StdRng);

/// Draws one 32-bit word with `RngCore::next_u32` of rand. The word depends on
/// the generator's state, so nothing is claimed of it.
#[verifier::external_body]
pub(crate) fn next_u32(rng: &mut StdRng) -> (w: u32) {
    rng.next_u32()
}

/// Draws one 64-bit word with `RngCore::next_u64` of rand. The word depends on
/// the generator's state, so nothing is claimed of it.
#[verifier::external_body]
pub(crate) fn next_u64(rng: &mut StdRng) -> (w: u64) {
    rng.next_u64()
}

/// Arithmetic of a finite field on canonical representatives.
///
/// Every operation is mirrored by a `spec_` function; the `lemma_` functions
/// are the laws of a commutative ring with unit that each implementation
/// proves of its own `spec_` functions.
pub trait FieldArith: Sized + Copy {
    /// The value is the canonical representative of its class.
    spec fn wf(&self) -> bool;

    spec fn spec_zero() -> Self;

    spec fn spec_one() -> Self;

    /// Whether the value is Boolean: zero or one and, in an extension field,
    /// each coefficient zero or one.
    spec fn spec_boolean(&self) -> bool;

    /// The inverse of `1 + 1`.
    spec fn spec_inv_2() -> Self;

    spec fn spec_add(self, rhs: Self) -> Self;

    spec fn spec_neg(self) -> Self;

    spec fn spec_mul(self, rhs: Self) -> Self;

    /// What `inv` returns: the element whose product with `self` is one, and
    /// `None` for zero and where inversion is not offered.
    spec fn spec_inv(self) -> Option<Self>;

    spec fn spec_from_u32(x: u32) -> Self;

    /// The element that 32 uniform bytes are reduced to.
    spec fn spec_from_uniform_bytes(bytes: Seq<u8>) -> Self;

    /// The low 32 bits of the first limb.
    spec fn spec_as_u32(self) -> u32;

    /// `self` to the power `e`: the product of `e` copies of `self`.
    spec fn spec_exp(self, e: nat) -> Self;

    fn zero() -> (r: Self)
        ensures
            r == Self::spec_zero(),
            r.wf(),
    ;

    fn one() -> (r: Self)
        ensures
            r == Self::spec_one(),
            r.wf(),
    ;

    fn inv_2() -> (r: Self)
        ensures
            r == Self::spec_inv_2(),
            r.wf(),
    ;

    fn add(&self, rhs: &Self) -> (r: Self)
        requires
            self.wf(),
            rhs.wf(),
        ensures
            r == self.spec_add(*rhs),
            r.wf(),
    ;

    fn sub(&self, rhs: &Self) -> (r: Self)
        requires
            self.wf(),
            rhs.wf(),
        ensures
            r == self.spec_add(rhs.spec_neg()),
            r.wf(),
    ;

    fn neg(&self) -> (r: Self)
        requires
            self.wf(),
        ensures
            r == self.spec_neg(),
            r.wf(),
    ;

    fn mul(&self, rhs: &Self) -> (r: Self)
        requires
            self.wf(),
            rhs.wf(),
        ensures
            r == self.spec_mul(*rhs),
            r.wf(),
    ;

    fn double(&self) -> (r: Self)
        requires
            self.wf(),
        ensures
            r == self.spec_add(*self),
            r.wf(),
    ;

    fn square(&self) -> (r: Self)
        requires
            self.wf(),
        ensures
            r == self.spec_mul(*self),
            r.wf(),
    ;

    fn from_u32(x: u32) -> (r: Self)
        ensures
            r == Self::spec_from_u32(x),
            r.wf(),
    ;

    fn from_uniform_bytes(bytes: &[u8; 32]) -> (r: Self)
        ensures
            r == Self::spec_from_uniform_bytes(bytes@),
            r.wf(),
    ;

    fn as_u32_unchecked(&self) -> (r: u32)
        ensures
            r == self.spec_as_u32(),
    ;

    fn is_zero(&self) -> (b: bool)
        requires
            self.wf(),
        ensures
            b == (*self == Self::spec_zero()),
    ;

    /// Whether the value is the canonical representative of its class.
    fn is_canonical(&self) -> (b: bool)
        ensures
            b == self.wf(),
    ;

    /// Equality of canonical representatives.
    fn equals(&self, rhs: &Self) -> (b: bool)
        requires
            self.wf(),
            rhs.wf(),
        ensures
            b == (*self == *rhs),
    ;

    /// A field element drawn from `rng`. Not for secrets.
    fn random_unsafe(rng: &mut StdRng) -> (r: Self)
        ensures
            r.wf(),
    ;

    /// Zero or one, drawn from `rng`; in an extension field, each
    /// coefficient is drawn so. Not for secrets.
    fn random_bool_unsafe(rng: &mut StdRng) -> (r: Self)
        ensures
            r.wf(),
            r.spec_boolean(),
    ;

    /// The constants are canonical.
    proof fn lemma_constants_wf()
        ensures
            Self::spec_zero().wf(),
            Self::spec_one().wf(),
            Self::spec_inv_2().wf(),
    ;

    /// Sums, negations and products of canonical values are canonical.
    proof fn lemma_closed(a: Self, b: Self)
        requires
            a.wf(),
            b.wf(),
        ensures
            a.spec_add(b).wf(),
            a.spec_neg().wf(),
            a.spec_mul(b).wf(),
    ;

    /// `a + b = b + a`.
    proof fn lemma_add_commutative(a: Self, b: Self)
        requires
            a.wf(),
            b.wf(),
        ensures
            a.spec_add(b) == b.spec_add(a),
    ;

    /// `(a + b) + c = a + (b + c)`.
    proof fn lemma_add_associative(a: Self, b: Self, c: Self)
        requires
            a.wf(),
            b.wf(),
            c.wf(),
        ensures
            a.spec_add(b).spec_add(c) == a.spec_add(b.spec_add(c)),
    ;

    /// `a + 0 = a`.
    proof fn lemma_add_zero(a: Self)
        requires
            a.wf(),
        ensures
            a.spec_add(Self::spec_zero()) == a,
    ;

    /// `a + (-a) = 0`.
    proof fn lemma_add_neg(a: Self)
        requires
            a.wf(),
        ensures
            a.spec_add(a.spec_neg()) == Self::spec_zero(),
    ;

    /// `a * b = b * a`.
    proof fn lemma_mul_commutative(a: Self, b: Self)
        requires
            a.wf(),
            b.wf(),
        ensures
            a.spec_mul(b) == b.spec_mul(a),
    ;

    /// `(a * b) * c = a * (b * c)`.
    proof fn lemma_mul_associative(a: Self, b: Self, c: Self)
        requires
            a.wf(),
            b.wf(),
            c.wf(),
        ensures
            a.spec_mul(b).spec_mul(c) == a.spec_mul(b.spec_mul(c)),
    ;

    /// `a * 1 = a`.
    proof fn lemma_mul_one(a: Self)
        requires
            a.wf(),
        ensures
            a.spec_mul(Self::spec_one()) == a,
    ;

    /// `a * (b + c) = a * b + a * c`.
    proof fn lemma_mul_distributive(a: Self, b: Self, c: Self)
        requires
            a.wf(),
            b.wf(),
            c.wf(),
        ensures
            a.spec_mul(b.spec_add(c)) == a.spec_mul(b).spec_add(a.spec_mul(c)),
    ;

    /// `a^0 = 1` and `a^e = a * a^(e-1)`.
    proof fn lemma_exp_unfold(a: Self, e: nat)
        ensures
            a.spec_exp(0) == Self::spec_one(),
            e > 0 ==> a.spec_exp(e) == a.spec_mul(a.spec_exp((e - 1) as nat)),
    ;

    /// `inv_2 + inv_2 = 1`.
    proof fn lemma_inv_2_doubles_to_one()
        ensures
            Self::spec_inv_2().spec_add(Self::spec_inv_2()) == Self::spec_one(),
    ;

    /// `from_u32` sends 0 and 1 to the constants, and 2 to `1 + 1`.
    proof fn lemma_from_u32_constants()
        ensures
            Self::spec_from_u32(0) == Self::spec_zero(),
            Self::spec_from_u32(1) == Self::spec_one(),
            Self::spec_from_u32(2) == Self::spec_one().spec_add(Self::spec_one()),
    ;
}

/// Powers of canonical values are canonical.
pub proof fn lemma_pow_wf<F: FieldArith>(a: F, e: nat)
    requires
        a.wf(),
    ensures
        a.spec_exp(e).wf(),
    decreases e,
{
    F::lemma_exp_unfold(a, e);
    if e == 0 {
        F::lemma_constants_wf();
    } else {
        lemma_pow_wf(a, (e - 1) as nat);
        F::lemma_closed(a, a.spec_exp((e - 1) as nat));
    }
}

/// `a^(2k) = (a * a)^k`.
pub proof fn lemma_pow_of_square<F: FieldArith>(a: F, k: nat)
    requires
        a.wf(),
    ensures
        a.spec_mul(a).spec_exp(k) == a.spec_exp(2 * k),
    decreases k,
{
    if k == 0 {
        F::lemma_exp_unfold(a, 0);
        F::lemma_exp_unfold(a.spec_mul(a), 0);
    } else {
        let rest = a.spec_exp((2 * k - 2) as nat);
        lemma_pow_of_square(a, (k - 1) as nat);
        lemma_pow_wf(a, (2 * k - 2) as nat);
        F::lemma_mul_associative(a, a, rest);
        F::lemma_exp_unfold(a, (2 * k - 1) as nat);
        F::lemma_exp_unfold(a, 2 * k);
        F::lemma_exp_unfold(a.spec_mul(a), k);
        F::lemma_closed(a, a);
        assert(a.spec_exp((2 * k - 1) as nat) == a.spec_mul(rest));
        assert(a.spec_exp(2 * k) == a.spec_mul(a.spec_exp((2 * k - 1) as nat)));
    }
}

/// Square-and-multiply exponentiation, from the low bit of the exponent up.
pub fn exp_by_squaring<F: FieldArith>(base: &F, exponent: u64) -> (r: F)
    requires
        base.wf(),
    ensures
        r == base.spec_exp(exponent as nat),
        r.wf(),
{
    let mut e = exponent;
    let mut res = F::one();
    let mut t = *base;
    proof {
        lemma_pow_wf(*base, exponent as nat);
        F::lemma_mul_commutative(F::spec_one(), t.spec_exp(e as nat));
        F::lemma_mul_one(t.spec_exp(e as nat));
    }
    while e != 0
        invariant
            res.wf(),
            t.wf(),
            res.spec_mul(t.spec_exp(e as nat)) == base.spec_exp(exponent as nat),
        decreases e,
    {
        let ghost k = (e / 2) as nat;
        proof {
            lemma_pow_of_square(t, k);
            lemma_pow_wf(t, 2 * k);
        }
        if e % 2 == 1 {
            proof {
                assert(e as nat == 2 * k + 1);
                F::lemma_exp_unfold(t, e as nat);
                assert(t.spec_exp(e as nat) == t.spec_mul(t.spec_exp(2 * k)));
                F::lemma_mul_associative(res, t, t.spec_exp(2 * k));
            }
            res = res.mul(&t);
        } else {
            assert(e as nat == 2 * k);
        }
        t = t.mul(&t);
        e = e / 2;
    }
    proof {
        F::lemma_exp_unfold(t, 0);
        F::lemma_mul_one(res);
    }
    res
}

/// Fixed-width byte encoding of field elements.
pub trait FieldSerde: FieldArith {
    /// Width of an encoded element in bytes.
    spec fn spec_size() -> nat;

    /// The little-endian limb encoding of a canonical element.
    spec fn spec_serialize(self) -> Seq<u8>;

    /// The element that the first `spec_size()` bytes reduce to.
    spec fn spec_deserialize(bytes: Seq<u8>) -> Self;

    /// The first `spec_size()` bytes are the encoding of a canonical element.
    spec fn spec_is_canonical(bytes: Seq<u8>) -> bool;

    fn size() -> (n: usize)
        ensures
            n == Self::spec_size(),
            0 < n <= 32,
    ;

    /// Appends the encoding of `self` to `buffer`.
    fn serialize_into(&self, buffer: &mut Vec<u8>)
        requires
            self.wf(),
        ensures
            final(buffer)@ == old(buffer)@ + self.spec_serialize(),
    ;

    /// Reads an element from the front of `buffer`, reducing a value that is
    /// out of range.
    fn deserialize_from(buffer: &[u8]) -> (r: Self)
        requires
            buffer@.len() >= Self::spec_size(),
        ensures
            r == Self::spec_deserialize(buffer@),
            r.wf(),
    ;

    /// Reads an element from the front of `buffer`, rejecting a short buffer
    /// and an encoding that is out of range.
    fn decode(buffer: &[u8]) -> (r: Option<Self>)
        ensures
            r.is_some() <==> buffer@.len() >= Self::spec_size() && Self::spec_is_canonical(
                buffer@,
            ),
            r matches Some(x) ==> x == Self::spec_deserialize(buffer@) && x.wf(),
    ;

    /// An encoding has the fixed width.
    proof fn lemma_serialize_len(a: Self)
        requires
            a.wf(),
        ensures
            a.spec_serialize().len() == Self::spec_size(),
    ;

    /// Decoding an encoding gives the element back, whatever follows it.
    proof fn lemma_serialize_round_trip(a: Self, rest: Seq<u8>)
        requires
            a.wf(),
        ensures
            Self::spec_is_canonical(a.spec_serialize() + rest),
            Self::spec_deserialize(a.spec_serialize() + rest) == a,
    ;

    /// A canonical encoding is the encoding of the element it decodes to.
    proof fn lemma_canonical_reencodes(bytes: Seq<u8>)
        requires
            bytes.len() >= Self::spec_size(),
            Self::spec_is_canonical(bytes),
        ensures
            Self::spec_deserialize(bytes).spec_serialize() == bytes.subrange(
                0,
                Self::spec_size() as int,
            ),
    ;

    /// Decoding reads only the first `spec_size()` bytes.
    proof fn lemma_deserialize_prefix(bytes: Seq<u8>)
        requires
            bytes.len() >= Self::spec_size(),
        ensures
            Self::spec_deserialize(bytes) == Self::spec_deserialize(
                bytes.subrange(0, Self::spec_size() as int),
            ),
            Self::spec_is_canonical(bytes) == Self::spec_is_canonical(
                bytes.subrange(0, Self::spec_size() as int),
            ),
            Self::spec_deserialize(bytes).wf(),
    ;
}

/// A field together with the base field that its coefficients live in.
pub trait Field: FieldArith + FieldSerde {
    type BaseField: FieldArith + FieldSerde;

    /// The embedding of the base field.
    spec fn spec_from_base(b: Self::BaseField) -> Self;

    /// The multiplicative inverse, where the field offers it: what is
    /// returned gives one when multiplied with `self`.
    fn inv(&self) -> (r: Option<Self>)
        requires
            self.wf(),
        ensures
            r == self.spec_inv(),
            r matches Some(x) ==> x.wf() && self.spec_mul(x) == Self::spec_one(),
    ;

    /// `self` to the power `exponent`.
    fn exp(&self, exponent: u64) -> (r: Self)
        requires
            self.wf(),
        ensures
            r == self.spec_exp(exponent as nat),
            r.wf(),
    ;

    fn from_base(b: &Self::BaseField) -> (r: Self)
        requires
            b.wf(),
        ensures
            r == Self::spec_from_base(*b),
            r.wf(),
    ;

    fn mul_base_elem(&self, rhs: &Self::BaseField) -> (r: Self)
        requires
            self.wf(),
            rhs.wf(),
        ensures
            r == self.spec_mul(Self::spec_from_base(*rhs)),
            r.wf(),
    ;

    fn add_base_elem(&self, rhs: &Self::BaseField) -> (r: Self)
        requires
            self.wf(),
            rhs.wf(),
        ensures
            r == self.spec_add(Self::spec_from_base(*rhs)),
            r.wf(),
    ;

    /// The embedding keeps canonical values canonical and respects the
    /// constants and the operations.
    proof fn lemma_from_base_homomorphism(a: Self::BaseField, b: Self::BaseField)
        requires
            a.wf(),
            b.wf(),
        ensures
            Self::spec_from_base(a).wf(),
            Self::spec_from_base(Self::BaseField::spec_zero()) == Self::spec_zero(),
            Self::spec_from_base(Self::BaseField::spec_one()) == Self::spec_one(),
            Self::spec_from_base(a.spec_add(b)) == Self::spec_from_base(a).spec_add(
                Self::spec_from_base(b),
            ),
            Self::spec_from_base(a.spec_mul(b)) == Self::spec_from_base(a).spec_mul(
                Self::spec_from_base(b),
            ),
            Self::spec_from_base(a.spec_neg()) == Self::spec_from_base(a).spec_neg(),
    ;
}

/// `2^k`.
pub open spec fn pow2(k: nat) -> nat
    decreases k,
{
    if k == 0 {
        1
    } else {
        2 * pow2((k - 1) as nat)
    }
}

/// A field whose multiplicative group has a large subgroup of order a power
/// of two.
pub trait TwoAdicField: Field {
    /// The subgroup of order `2^spec_two_adicity()` is the largest of its kind.
    spec fn spec_two_adicity() -> nat;

    /// A fixed generator of that subgroup.
    spec fn spec_two_adic_generator() -> Self;

    fn two_adicity() -> (s: usize)
        ensures
            s == Self::spec_two_adicity(),
            s < 64,
    ;

    fn two_adic_generator() -> (g: Self)
        ensures
            g == Self::spec_two_adic_generator(),
            g.wf(),
    ;

    /// The generator is canonical and has order `2^spec_two_adicity()`:
    /// raised to that power it gives one, and raised to half that power it
    /// does not.
    proof fn lemma_generator_order()
        ensures
            Self::spec_two_adic_generator().wf(),
            Self::spec_two_adic_generator().spec_exp(pow2(Self::spec_two_adicity()))
                == Self::spec_one(),
            Self::spec_two_adicity() >= 1 ==> Self::spec_two_adic_generator().spec_exp(
                pow2((Self::spec_two_adicity() - 1) as nat),
            ) != Self::spec_one(),
    ;

    /// The generator raised to `2^(two_adicity - k)`: a `2^k`-th root of unity.
    fn root_of_unity(k: usize) -> (r: Self)
        requires
            k <= Self::spec_two_adicity(),
        ensures
            r == Self::spec_two_adic_generator().spec_exp(
                pow2((Self::spec_two_adicity() - k) as nat),
            ),
            r.wf(),
    ;
}

/// The generator of a two-adic field raised to `2^(two_adicity - k)`.
pub fn two_adic_root<F: FieldArith>(generator: &F, two_adicity: usize, k: usize) -> (r: F)
    requires
        generator.wf(),
        k <= two_adicity < 64,
    ensures
        r == generator.spec_exp(pow2((two_adicity - k) as nat)),
        r.wf(),
{
    let mut e: u64 = 1;
    let mut i: usize = 0;
    while i < two_adicity - k
        invariant
            i <= two_adicity - k,
            k <= two_adicity < 64,
            e == pow2(i as nat),
            e <= 0x8000_0000_0000_0000u64,
            i < 63 ==> e <= 0x4000_0000_0000_0000u64,
        decreases two_adicity - k - i,
    {
        proof {
            lemma_pow2_bound(i as nat);
            lemma_pow2_bound((i + 1) as nat);
        }
        e = e * 2;
        i += 1;
    }
    exp_by_squaring(generator, e)
}

/// `2^k` fits a 64-bit word when `k < 64`, and grows with `k`.
pub proof fn lemma_pow2_bound(k: nat)
    requires
        k < 64,
    ensures
        pow2(k) <= 0x8000_0000_0000_0000,
        k < 63 ==> pow2(k) <= 0x4000_0000_0000_0000,
        k < 62 ==> pow2(k) <= 0x2000_0000_0000_0000,
    decreases k,
{
    if k > 0 {
        lemma_pow2_bound((k - 1) as nat);
        lemma_pow2_step_bound(k);
    }
}

proof fn lemma_pow2_step_bound(k: nat)
    requires
        0 < k < 64,
    ensures
        pow2(k) <= 0x8000_0000_0000_0000,
        k < 63 ==> pow2(k) <= 0x4000_0000_0000_0000,
        k < 62 ==> pow2(k) <= 0x2000_0000_0000_0000,
    decreases k,
{
    lemma_pow2_exact(k);
    lemma_pow2_monotone(k, 63);
    if k < 63 {
        lemma_pow2_monotone(k, 62);
    }
    if k < 62 {
        lemma_pow2_monotone(k, 61);
    }
    lemma_pow2_exact(61);
    lemma_pow2_exact(62);
    lemma_pow2_exact(63);
}

proof fn lemma_pow2_exact(k: nat)
    ensures
        k == 61 ==> pow2(k) == 0x2000_0000_0000_0000,
        k == 62 ==> pow2(k) == 0x4000_0000_0000_0000,
        k == 63 ==> pow2(k) == 0x8000_0000_0000_0000,
{
    reveal_with_fuel(pow2, 64);
}

/// `2^a < 2^b` when `a < b`: powers of two determine their exponent.
pub proof fn lemma_pow2_strict(a: nat, b: nat)
    requires
        a < b,
    ensures
        pow2(a) < pow2(b),
    decreases b,
{
    lemma_pow2_monotone(a, (b - 1) as nat);
}

/// `2^(a + b) = 2^a * 2^b`.
pub proof fn lemma_pow2_add(a: nat, b: nat)
    ensures
        pow2(a + b) == pow2(a) * pow2(b),
    decreases a,
{
    if a > 0 {
        lemma_pow2_add((a - 1) as nat, b);
        assert(pow2(a + b) == 2 * pow2((a - 1 + b) as nat));
        assert(2 * (pow2((a - 1) as nat) * pow2(b)) == (2 * pow2((a - 1) as nat)) * pow2(b))
            by (nonlinear_arith);
    } else {
        assert(1 * pow2(b) == pow2(b)) by (nonlinear_arith);
    }
}

/// `2^64` is one more than the largest 64-bit word.
pub proof fn lemma_pow2_64()
    ensures
        pow2(64) == 0x1_0000_0000_0000_0000,
{
    lemma_pow2_exact(63);
    assert(pow2(64) == 2 * pow2(63));
}

pub proof fn lemma_pow2_monotone(a: nat, b: nat)
    requires
        a <= b,
    ensures
        pow2(a) <= pow2(b),
        pow2(a) > 0,
    decreases b,
{
    if a < b {
        lemma_pow2_monotone(a, (b - 1) as nat);
    } else if a > 0 {
        lemma_pow2_monotone((a - 1) as nat, (a - 1) as nat);
    }
}

} // verus!
