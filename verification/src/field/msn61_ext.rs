//! The prime field of order `2^61 - 1`.
use crate::field::encoding::{
    le_bytes, le_value, lemma_le_bytes_of_value, lemma_le_round_trip, lemma_le_value_bound, lemma_le_value_subrange,
    lemma_pow256_values, push_le, read_le,
};
use crate::field::modular::{
    add_mod, lemma_add_mod_assoc, lemma_add_mod_neg, lemma_add_mod_zero, lemma_mul_mod_assoc,
    lemma_mul_mod_comm, lemma_mul_mod_distributes, lemma_mul_mod_one, lemma_neg_mod_value,
    lemma_residue_closed, mul_mod, neg_mod,
};
use crate::field::{exp_by_squaring, next_u32, next_u64, Field, FieldArith, FieldSerde};
use rand::rngs::StdRng;
use vstd::arithmetic::div_mod::{
    lemma_fundamental_div_mod_converse, lemma_mod_bound, lemma_mod_multiples_vanish,
    lemma_mod_sub_multiples_vanish, lemma_small_mod,
};
use vstd::prelude::*;
use vstd::std_specs::convert::FromSpecImpl;

verus! {

pub const MSN61_MOD: u64 = 0x1fff_ffff_ffff_ffff;

#[derive(Clone, Copy, Debug, PartialEq, Eq, Structural)]
pub struct Msn61 {
    pub v: u64,
}

/// The residue `x` as an element.
pub open spec fn msn61_of(x: int) -> Msn61 {
    Msn61 { v: x as u64 }
}

/// `hi * 2^61 + lo` is congruent to `hi + lo` modulo `2^61 - 1`.
proof fn lemma_fold_congruent(x: int, hi: int, lo: int)
    requires
        x == hi * 0x2000_0000_0000_0000 + lo,
    ensures
        (hi + lo) % (MSN61_MOD as int) == x % (MSN61_MOD as int),
{
    let p = MSN61_MOD as int;
    assert(x == hi * p + (hi + lo)) by (nonlinear_arith)
        requires
            x == hi * 0x2000_0000_0000_0000 + lo,
            p == 0x1fff_ffff_ffff_ffff,
    ;
    lemma_mod_multiples_vanish(hi, hi + lo, p);
}

/// One folding step of the Mersenne reduction of a product of two residues:
/// when `x < p^2`, the result is congruent to `x` and below `2p`.
pub fn msn61_mod(x: u128) -> (r: u64)
    requires
        x < (MSN61_MOD as int) * (MSN61_MOD as int),
    ensures
        r == (x as int) % 0x2000_0000_0000_0000 + (x as int) / 0x2000_0000_0000_0000,
        (r as int) % (MSN61_MOD as int) == (x as int) % (MSN61_MOD as int),
        r < 2 * MSN61_MOD,
{
    let lo128: u128 = x & (MSN61_MOD as u128);
    let hi128: u128 = x >> 61;
    assert(hi128 < 0x1fff_ffff_ffff_ffff && lo128 <= 0x1fff_ffff_ffff_ffff && x == hi128
        * 0x2000_0000_0000_0000 + lo128) by {
        assert(x < 0x1fff_ffff_ffff_ffffu128 * 0x1fff_ffff_ffff_ffffu128) by (nonlinear_arith)
            requires
                x < (0x1fff_ffff_ffff_ffff as int) * (0x1fff_ffff_ffff_ffff as int),
        ;
        assert(x < 0x1fff_ffff_ffff_ffffu128 * 0x1fff_ffff_ffff_ffffu128 ==> (x >> 61)
            < 0x1fff_ffff_ffff_ffff && (x & 0x1fff_ffff_ffff_ffff) <= 0x1fff_ffff_ffff_ffff && x
            == (x >> 61) * 0x2000_0000_0000_0000 + (x & 0x1fff_ffff_ffff_ffff)) by (bit_vector);
    }
    proof {
        lemma_fundamental_div_mod_converse(
            x as int,
            0x2000_0000_0000_0000,
            hi128 as int,
            lo128 as int,
        );
        lemma_fold_congruent(x as int, hi128 as int, lo128 as int);
    }
    (lo128 as u64) + (hi128 as u64)
}

/// One folding step of the Mersenne reduction of a 64-bit word: the result
/// is congruent to `x` and at most `p + 7`.
pub fn msn61_mod_u64(x: u64) -> (r: u64)
    ensures
        r == (x as int) % 0x2000_0000_0000_0000 + (x as int) / 0x2000_0000_0000_0000,
        (r as int) % (MSN61_MOD as int) == (x as int) % (MSN61_MOD as int),
        r <= MSN61_MOD + 7,
{
    let lo: u64 = x & MSN61_MOD;
    let hi: u64 = x >> 61;
    assert(hi <= 7 && lo <= 0x1fff_ffff_ffff_ffff && x == hi * 0x2000_0000_0000_0000 + lo) by {
        assert((x >> 61) <= 7 && (x & 0x1fff_ffff_ffff_ffff) <= 0x1fff_ffff_ffff_ffff && x == (x
            >> 61) * 0x2000_0000_0000_0000 + (x & 0x1fff_ffff_ffff_ffff)) by (bit_vector);
    }
    proof {
        lemma_fundamental_div_mod_converse(x as int, 0x2000_0000_0000_0000, hi as int, lo as int);
        lemma_fold_congruent(x as int, hi as int, lo as int);
    }
    lo + hi
}

/// The canonical residue of a value below `2p`.
pub fn msn61_try_sub(x: u64) -> (r: u64)
    requires
        x < 2 * MSN61_MOD,
    ensures
        r == (x as int) % (MSN61_MOD as int),
        r < MSN61_MOD,
{
    proof {
        if x < MSN61_MOD {
            lemma_small_mod(x as nat, MSN61_MOD as nat);
        } else {
            lemma_mod_sub_multiples_vanish(x as int, MSN61_MOD as int);
            lemma_small_mod((x - MSN61_MOD) as nat, MSN61_MOD as nat);
        }
    }
    if x < MSN61_MOD {
        x
    } else {
        x - MSN61_MOD
    }
}

impl Msn61 {
    /// The canonical residue of any 64-bit word.
    pub fn from_u64(x: u64) -> (r: Msn61)
        ensures
            r.v == (x as int) % (MSN61_MOD as int),
            r.wf(),
    {
        let folded = msn61_mod_u64(x);
        let v = msn61_try_sub(folded);
        Msn61 { v }
    }

    /// The element that a random 64-bit word stands for.
    pub fn from_random_word(w: u64) -> (r: Msn61)
        ensures
            r.v == (w as int) % (MSN61_MOD as int),
            r.wf(),
    {
        Msn61::from_u64(w)
    }
}

impl Default for Msn61 {
    fn default() -> (r: Msn61)
        ensures
            r == Msn61::spec_zero(),
    {
        Msn61 { v: 0 }
    }
}

impl From<u32> for Msn61 {
    fn from(x: u32) -> (r: Msn61) {
        Msn61 { v: x as u64 }
    }
}

impl FromSpecImpl<u32> for Msn61 {
    open spec fn obeys_from_spec() -> bool {
        true
    }

    open spec fn from_spec(x: u32) -> Msn61 {
        Msn61 { v: x as u64 }
    }
}

impl From<u64> for Msn61 {
    fn from(x: u64) -> (r: Msn61) {
        Msn61::from_u64(x)
    }
}

impl FromSpecImpl<u64> for Msn61 {
    open spec fn obeys_from_spec() -> bool {
        true
    }

    open spec fn from_spec(x: u64) -> Msn61 {
        msn61_of((x as int) % (MSN61_MOD as int))
    }
}

impl FieldArith for Msn61 {
    open spec fn wf(&self) -> bool {
        self.v < MSN61_MOD
    }

    open spec fn spec_boolean(&self) -> bool {
        *self == Self::spec_zero() || *self == Self::spec_one()
    }

    open spec fn spec_zero() -> Self {
        Msn61 { v: 0 }
    }

    open spec fn spec_one() -> Self {
        Msn61 { v: 1 }
    }

    open spec fn spec_inv_2() -> Self {
        Msn61 { v: 0x1000_0000_0000_0000 }
    }

    open spec fn spec_add(self, rhs: Self) -> Self {
        msn61_of(add_mod(self.v as int, rhs.v as int, MSN61_MOD as int))
    }

    open spec fn spec_neg(self) -> Self {
        msn61_of(neg_mod(self.v as int, MSN61_MOD as int))
    }

    open spec fn spec_mul(self, rhs: Self) -> Self {
        msn61_of(mul_mod(self.v as int, rhs.v as int, MSN61_MOD as int))
    }

    open spec fn spec_exp(self, e: nat) -> Self
        decreases e,
    {
        if e == 0 {
            Self::spec_one()
        } else {
            self.spec_mul(self.spec_exp((e - 1) as nat))
        }
    }

    /// The power `p - 2` of `self`, where that is the inverse.
    open spec fn spec_inv(self) -> Option<Self> {
        let candidate = self.spec_exp((MSN61_MOD - 2) as nat);
        if self.spec_mul(candidate) == Self::spec_one() {
            Some(candidate)
        } else {
            None
        }
    }

    open spec fn spec_from_u32(x: u32) -> Self {
        Msn61 { v: x as u64 }
    }

    open spec fn spec_from_uniform_bytes(bytes: Seq<u8>) -> Self {
        msn61_of(le_value(bytes, 8) % (MSN61_MOD as int))
    }

    open spec fn spec_as_u32(self) -> u32 {
        (self.v % 0x1_0000_0000) as u32
    }

    fn zero() -> (r: Self) {
        Msn61 { v: 0 }
    }

    fn one() -> (r: Self) {
        Msn61 { v: 1 }
    }

    fn inv_2() -> (r: Self) {
        Msn61 { v: 0x1000_0000_0000_0000 }
    }

    fn add(&self, rhs: &Self) -> (r: Self) {
        let mut vv: u64 = self.v + rhs.v;
        proof {
            if vv >= MSN61_MOD {
                lemma_mod_sub_multiples_vanish(vv as int, MSN61_MOD as int);
                lemma_small_mod((vv - MSN61_MOD) as nat, MSN61_MOD as nat);
            } else {
                lemma_small_mod(vv as nat, MSN61_MOD as nat);
            }
        }
        if vv >= MSN61_MOD {
            vv -= MSN61_MOD;
        }
        Msn61 { v: vv }
    }

    fn sub(&self, rhs: &Self) -> (r: Self) {
        let n = rhs.neg();
        self.add(&n)
    }

    fn neg(&self) -> (r: Self) {
        proof {
            lemma_neg_mod_value(self.v as int, MSN61_MOD as int);
        }
        Msn61 {
            v: if self.v == 0 {
                0
            } else {
                MSN61_MOD - self.v
            },
        }
    }

    fn mul(&self, rhs: &Self) -> (r: Self) {
        proof {
            assert((self.v as int) * (rhs.v as int) < (MSN61_MOD as int) * (MSN61_MOD as int))
                by (nonlinear_arith)
                requires
                    0 <= self.v < MSN61_MOD,
                    0 <= rhs.v < MSN61_MOD,
            ;
            assert((MSN61_MOD as int) * (MSN61_MOD as int) < 0x1_0000_0000_0000_0000_0000_0000_0000_0000)
                by (nonlinear_arith);
            assert(0 <= (self.v as int) * (rhs.v as int)) by (nonlinear_arith);
        }
        let vv = msn61_mod((self.v as u128) * (rhs.v as u128));
        Msn61 { v: msn61_try_sub(vv) }
    }

    fn double(&self) -> (r: Self) {
        self.add(self)
    }

    fn square(&self) -> (r: Self) {
        self.mul(self)
    }

    fn from_u32(x: u32) -> (r: Self) {
        Msn61 { v: x as u64 }
    }

    fn from_uniform_bytes(bytes: &[u8; 32]) -> (r: Self) {
        let w = read_le(bytes.as_slice(), 0, 8);
        Msn61::from_u64(w)
    }

    fn as_u32_unchecked(&self) -> (r: u32) {
        (self.v % 0x1_0000_0000) as u32
    }

    fn is_zero(&self) -> (b: bool) {
        self.v == 0
    }

    fn is_canonical(&self) -> (b: bool) {
        self.v < MSN61_MOD
    }

    fn equals(&self, rhs: &Self) -> (b: bool) {
        self.v == rhs.v
    }

    fn random_unsafe(rng: &mut StdRng) -> (r: Self) {
        let w = next_u64(rng);
        Msn61::from_random_word(w)
    }

    fn random_bool_unsafe(rng: &mut StdRng) -> (r: Self) {
        let w = next_u32(rng);
        Msn61 { v: (w % 2) as u64 }
    }

    proof fn lemma_constants_wf() {
    }

    proof fn lemma_closed(a: Self, b: Self) {
        lemma_residue_closed(a.v as int, b.v as int, MSN61_MOD as int);
    }

    proof fn lemma_add_commutative(a: Self, b: Self) {
    }

    proof fn lemma_add_associative(a: Self, b: Self, c: Self) {
        lemma_residue_closed(a.v as int, b.v as int, MSN61_MOD as int);
        lemma_residue_closed(b.v as int, c.v as int, MSN61_MOD as int);
        lemma_add_mod_assoc(a.v as int, b.v as int, c.v as int, MSN61_MOD as int);
    }

    proof fn lemma_add_zero(a: Self) {
        lemma_add_mod_zero(a.v as int, MSN61_MOD as int);
    }

    proof fn lemma_add_neg(a: Self) {
        lemma_residue_closed(a.v as int, a.v as int, MSN61_MOD as int);
        lemma_add_mod_neg(a.v as int, MSN61_MOD as int);
    }

    proof fn lemma_mul_commutative(a: Self, b: Self) {
        lemma_mul_mod_comm(a.v as int, b.v as int, MSN61_MOD as int);
    }

    proof fn lemma_mul_associative(a: Self, b: Self, c: Self) {
        lemma_residue_closed(a.v as int, b.v as int, MSN61_MOD as int);
        lemma_residue_closed(b.v as int, c.v as int, MSN61_MOD as int);
        lemma_mul_mod_assoc(a.v as int, b.v as int, c.v as int, MSN61_MOD as int);
    }

    proof fn lemma_mul_one(a: Self) {
        lemma_mul_mod_one(a.v as int, MSN61_MOD as int);
    }

    proof fn lemma_mul_distributive(a: Self, b: Self, c: Self) {
        lemma_residue_closed(a.v as int, b.v as int, MSN61_MOD as int);
        lemma_residue_closed(a.v as int, c.v as int, MSN61_MOD as int);
        lemma_residue_closed(b.v as int, c.v as int, MSN61_MOD as int);
        lemma_mul_mod_distributes(a.v as int, b.v as int, c.v as int, MSN61_MOD as int);
    }

    proof fn lemma_exp_unfold(a: Self, e: nat) {
    }

    proof fn lemma_inv_2_doubles_to_one() {
        assert((0x1000_0000_0000_0000int + 0x1000_0000_0000_0000) % 0x1fff_ffff_ffff_ffff == 1)
            by (nonlinear_arith);
    }

    proof fn lemma_from_u32_constants() {
    }
}

impl FieldSerde for Msn61 {
    open spec fn spec_size() -> nat {
        8
    }

    open spec fn spec_serialize(self) -> Seq<u8> {
        le_bytes(self.v as int, 8)
    }

    open spec fn spec_deserialize(bytes: Seq<u8>) -> Self {
        msn61_of(le_value(bytes, 8) % (MSN61_MOD as int))
    }

    open spec fn spec_is_canonical(bytes: Seq<u8>) -> bool {
        le_value(bytes, 8) < MSN61_MOD
    }

    fn size() -> (n: usize) {
        8
    }

    fn serialize_into(&self, buffer: &mut Vec<u8>) {
        push_le(buffer, self.v, 8);
    }

    fn deserialize_from(buffer: &[u8]) -> (r: Self) {
        let w = read_le(buffer, 0, 8);
        Msn61::from_u64(w)
    }

    fn decode(buffer: &[u8]) -> (r: Option<Self>) {
        if buffer.len() < 8 {
            return None;
        }
        let w = read_le(buffer, 0, 8);
        if w < MSN61_MOD {
            proof {
                lemma_small_mod(w as nat, MSN61_MOD as nat);
            }
            Some(Msn61 { v: w })
        } else {
            None
        }
    }

    proof fn lemma_serialize_len(a: Self) {
    }

    proof fn lemma_serialize_round_trip(a: Self, rest: Seq<u8>) {
        lemma_pow256_values();
        lemma_le_round_trip(a.v as int, 8, rest);
        lemma_small_mod(a.v as nat, MSN61_MOD as nat);
    }

    proof fn lemma_canonical_reencodes(bytes: Seq<u8>) {
        lemma_le_value_bound(bytes, 0, 8);
        lemma_le_bytes_of_value(bytes, 0, 8);
        lemma_small_mod(le_value(bytes, 8) as nat, MSN61_MOD as nat);
    }

    proof fn lemma_deserialize_prefix(bytes: Seq<u8>) {
        let head = bytes.subrange(0, 8);
        lemma_le_value_subrange(bytes, 0, 8);
        lemma_le_value_subrange(head, 0, 8);
        assert(head.subrange(0, 8) =~= head);
        lemma_mod_bound(le_value(bytes, 8), MSN61_MOD as int);
    }
}

impl Field for Msn61 {
    type BaseField = Msn61;

    open spec fn spec_from_base(b: Msn61) -> Self {
        b
    }

    fn inv(&self) -> (r: Option<Self>) {
        let candidate = exp_by_squaring(self, MSN61_MOD - 2);
        if self.mul(&candidate).equals(&Msn61 { v: 1 }) {
            Some(candidate)
        } else {
            None
        }
    }

    fn exp(&self, exponent: u64) -> (r: Self) {
        exp_by_squaring(self, exponent)
    }

    fn from_base(b: &Msn61) -> (r: Self) {
        *b
    }

    fn mul_base_elem(&self, rhs: &Msn61) -> (r: Self) {
        self.mul(rhs)
    }

    fn add_base_elem(&self, rhs: &Msn61) -> (r: Self) {
        self.add(rhs)
    }

    proof fn lemma_from_base_homomorphism(a: Msn61, b: Msn61) {
    }
}

} // verus!
