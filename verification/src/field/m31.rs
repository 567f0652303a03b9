//! The prime field of order `2^31 - 1`.
use crate::field::encoding::{
    le_bytes, le_value, lemma_le_bytes_of_value, lemma_le_round_trip, lemma_le_value_bound, lemma_le_value_subrange,
    lemma_pow256_values, push_le, read_le,
};
use crate::field::modular::{
    add_mod, lemma_add_mod_assoc, lemma_add_mod_neg, lemma_add_mod_zero, lemma_mul_mod_assoc,
    lemma_mul_mod_comm, lemma_mul_mod_distributes, lemma_mul_mod_one, lemma_neg_mod_value,
    lemma_residue_closed, mul_mod, neg_mod,
};
use crate::field::{exp_by_squaring, next_u32, Field, FieldArith, FieldSerde};
use rand::rngs::StdRng;
use vstd::prelude::*;

verus! {

pub const M31_MOD: u32 = 2147483647;

#[derive(Clone, Copy, Debug, PartialEq, Eq, Structural)]
pub struct M31 {
    pub v: u32,
}

/// The residue `x` as an element.
pub open spec fn m31_of(x: int) -> M31 {
    M31 { v: x as u32 }
}

/// One folding step of the Mersenne reduction: the low 31 bits plus what
/// stands above them. The result is congruent to `x` and lies in `-1 ..= p`.
pub fn mod_reduce_i32(x: i32) -> (r: i32)
    ensures
        r == (x as int) % 0x8000_0000 + (x as int) / 0x8000_0000,
        (r as int) % (M31_MOD as int) == (x as int) % (M31_MOD as int),
        -1 <= r <= M31_MOD,
{
    let lo: i32 = x & 0x7fff_ffff;
    let hi: i32 = x >> 31;
    assert(lo == (x as int) % 0x8000_0000 && hi == (x as int) / 0x8000_0000 && 0 <= lo
        <= 0x7fff_ffff && -1 <= hi <= 0) by {
        assert(0 <= x & 0x7fff_ffff <= 0x7fff_ffff && -1 <= x >> 31 <= 0 && x == (x >> 31)
            * 0x8000_0000 + (x & 0x7fff_ffff)) by (bit_vector);
        vstd::arithmetic::div_mod::lemma_fundamental_div_mod_converse(
            x as int,
            0x8000_0000,
            hi as int,
            lo as int,
        );
    }
    proof {
        // x = hi * 2^31 + lo and 2^31 = p + 1, so x = hi * p + (hi + lo)
        let p = M31_MOD as int;
        assert(x as int == hi * p + (hi + lo)) by (nonlinear_arith)
            requires
                x as int == hi * 0x8000_0000 + lo,
                p == 0x7fff_ffff,
        ;
        vstd::arithmetic::div_mod::lemma_mod_multiples_vanish(hi as int, (hi + lo) as int, p);
    }
    lo + hi
}

/// The canonical residue of any 32-bit pattern read as a signed integer.
pub fn reduce_i32(x: i32) -> (r: M31)
    ensures
        r.v == (x as int) % (M31_MOD as int),
        r.wf(),
{
    let once = mod_reduce_i32(x);
    let twice = mod_reduce_i32(once);
    proof {
        let p = M31_MOD as int;
        // once lies in -1 ..= p, so the second step only moves -1 to p - 1
        assert(twice == if once == -1 {
            p - 1
        } else {
            once as int
        }) by {
            if once == -1 {
                assert((-1int) % 0x8000_0000 == 0x7fff_ffff && (-1int) / 0x8000_0000 == -1)
                    by (nonlinear_arith);
            } else {
                vstd::arithmetic::div_mod::lemma_small_mod(once as nat, 0x8000_0000);
                vstd::arithmetic::div_mod::lemma_basic_div(once as int, 0x8000_0000);
            }
        }
        assert(0 <= twice <= p);
        if twice == p {
            vstd::arithmetic::div_mod::lemma_mod_self_0(p);
        } else {
            vstd::arithmetic::div_mod::lemma_small_mod(twice as nat, p as nat);
        }
    }
    if twice == 2147483647 {
        M31 { v: 0 }
    } else {
        M31 { v: twice as u32 }
    }
}

/// The canonical residue of any 32-bit word.
pub fn reduce_u32(x: u32) -> (r: M31)
    ensures
        r.v == (x as int) % (M31_MOD as int),
        r.wf(),
{
    M31 { v: x % M31_MOD }
}

impl M31 {
    /// The element that a random 32-bit word stands for.
    pub fn from_random_word(w: u32) -> (r: M31)
        ensures
            r.v == (w as int) % (M31_MOD as int),
            r.wf(),
    {
        reduce_u32(w)
    }

    /// Big-endian value of the first four bytes, read as a signed integer.
    pub open spec fn be_i32(bytes: Seq<u8>) -> int {
        let u = 0x100_0000 * (bytes[0] as int) + 0x1_0000 * (bytes[1] as int) + 0x100 * (
        bytes[2] as int) + bytes[3] as int;
        if u >= 0x8000_0000 {
            u - 0x1_0000_0000
        } else {
            u
        }
    }
}

/// The 32-bit word whose little-endian bytes are `b0, b1, b2, b3`.
pub fn u32_from_le(b0: u8, b1: u8, b2: u8, b3: u8) -> (r: u32)
    ensures
        r == b0 as int + 0x100 * (b1 as int) + 0x1_0000 * (b2 as int) + 0x100_0000 * (b3 as int),
{
    (b0 as u32) + 0x100 * (b1 as u32) + 0x1_0000 * (b2 as u32) + 0x100_0000 * (b3 as u32)
}

impl Default for M31 {
    fn default() -> (r: M31)
        ensures
            r == M31::spec_zero(),
    {
        M31 { v: 0 }
    }
}

impl FieldArith for M31 {
    open spec fn wf(&self) -> bool {
        self.v < M31_MOD
    }

    open spec fn spec_boolean(&self) -> bool {
        *self == Self::spec_zero() || *self == Self::spec_one()
    }

    open spec fn spec_zero() -> Self {
        M31 { v: 0 }
    }

    open spec fn spec_one() -> Self {
        M31 { v: 1 }
    }

    open spec fn spec_inv_2() -> Self {
        M31 { v: 0x4000_0000 }
    }

    open spec fn spec_add(self, rhs: Self) -> Self {
        m31_of(add_mod(self.v as int, rhs.v as int, M31_MOD as int))
    }

    open spec fn spec_neg(self) -> Self {
        m31_of(neg_mod(self.v as int, M31_MOD as int))
    }

    open spec fn spec_mul(self, rhs: Self) -> Self {
        m31_of(mul_mod(self.v as int, rhs.v as int, M31_MOD as int))
    }

    open spec fn spec_exp(self, e: nat) -> Self
        decreases e,
    {
        if e == 0 {
            Self::spec_one()
        } else {
            self.spec_mul(self.spec_exp((e - 1) as nat))
        }
    }

    /// The power `p - 2` of `self`, where that is the inverse.
    open spec fn spec_inv(self) -> Option<Self> {
        let candidate = self.spec_exp((M31_MOD - 2) as nat);
        if self.spec_mul(candidate) == Self::spec_one() {
            Some(candidate)
        } else {
            None
        }
    }

    open spec fn spec_from_u32(x: u32) -> Self {
        m31_of((x as int) % (M31_MOD as int))
    }

    open spec fn spec_from_uniform_bytes(bytes: Seq<u8>) -> Self {
        m31_of(Self::be_i32(bytes) % (M31_MOD as int))
    }

    open spec fn spec_as_u32(self) -> u32 {
        self.v
    }

    fn zero() -> (r: Self) {
        M31 { v: 0 }
    }

    fn one() -> (r: Self) {
        M31 { v: 1 }
    }

    fn inv_2() -> (r: Self) {
        M31 { v: 0x4000_0000 }
    }

    fn add(&self, rhs: &Self) -> (r: Self) {
        let s: u32 = self.v + rhs.v;
        proof {
            if s >= M31_MOD {
                vstd::arithmetic::div_mod::lemma_mod_sub_multiples_vanish(
                    s as int,
                    M31_MOD as int,
                );
                vstd::arithmetic::div_mod::lemma_small_mod((s - M31_MOD) as nat, M31_MOD as nat);
            } else {
                vstd::arithmetic::div_mod::lemma_small_mod(s as nat, M31_MOD as nat);
            }
        }
        if s >= M31_MOD {
            M31 { v: s - M31_MOD }
        } else {
            M31 { v: s }
        }
    }

    fn sub(&self, rhs: &Self) -> (r: Self) {
        let n = rhs.neg();
        self.add(&n)
    }

    fn neg(&self) -> (r: Self) {
        proof {
            lemma_neg_mod_value(self.v as int, M31_MOD as int);
        }
        if self.v == 0 {
            M31 { v: 0 }
        } else {
            M31 { v: M31_MOD - self.v }
        }
    }

    fn mul(&self, rhs: &Self) -> (r: Self) {
        proof {
            assert((self.v as int) * (rhs.v as int) <= 0x7fff_ffff * 0x7fff_ffff)
                by (nonlinear_arith)
                requires
                    0 <= self.v <= 0x7fff_ffff,
                    0 <= rhs.v <= 0x7fff_ffff,
            ;
        }
        let prod: u64 = (self.v as u64) * (rhs.v as u64);
        M31 { v: (prod % (M31_MOD as u64)) as u32 }
    }

    fn double(&self) -> (r: Self) {
        self.add(self)
    }

    fn square(&self) -> (r: Self) {
        self.mul(self)
    }

    fn from_u32(x: u32) -> (r: Self) {
        reduce_u32(x)
    }

    fn from_uniform_bytes(bytes: &[u8; 32]) -> (r: Self) {
        let u = u32_from_le(bytes[3], bytes[2], bytes[1], bytes[0]);
        let x: i32 = u as i32;
        assert(x as int == Self::be_i32(bytes@)) by {
            assert(u as i32 == if u >= 0x8000_0000u32 {
                u - 0x1_0000_0000
            } else {
                u as int
            }) by (bit_vector);
        }
        reduce_i32(x)
    }

    fn as_u32_unchecked(&self) -> (r: u32) {
        self.v
    }

    fn is_zero(&self) -> (b: bool) {
        self.v == 0
    }

    fn is_canonical(&self) -> (b: bool) {
        self.v < M31_MOD
    }

    fn equals(&self, rhs: &Self) -> (b: bool) {
        self.v == rhs.v
    }

    fn random_unsafe(rng: &mut StdRng) -> (r: Self) {
        let w = next_u32(rng);
        M31::from_random_word(w)
    }

    fn random_bool_unsafe(rng: &mut StdRng) -> (r: Self) {
        let w = next_u32(rng);
        M31 { v: w % 2 }
    }

    proof fn lemma_constants_wf() {
    }

    proof fn lemma_closed(a: Self, b: Self) {
        lemma_residue_closed(a.v as int, b.v as int, M31_MOD as int);
    }

    proof fn lemma_add_commutative(a: Self, b: Self) {
    }

    proof fn lemma_add_associative(a: Self, b: Self, c: Self) {
        lemma_residue_closed(a.v as int, b.v as int, M31_MOD as int);
        lemma_residue_closed(b.v as int, c.v as int, M31_MOD as int);
        lemma_add_mod_assoc(a.v as int, b.v as int, c.v as int, M31_MOD as int);
    }

    proof fn lemma_add_zero(a: Self) {
        lemma_add_mod_zero(a.v as int, M31_MOD as int);
    }

    proof fn lemma_add_neg(a: Self) {
        lemma_residue_closed(a.v as int, a.v as int, M31_MOD as int);
        lemma_add_mod_neg(a.v as int, M31_MOD as int);
    }

    proof fn lemma_mul_commutative(a: Self, b: Self) {
        lemma_mul_mod_comm(a.v as int, b.v as int, M31_MOD as int);
    }

    proof fn lemma_mul_associative(a: Self, b: Self, c: Self) {
        lemma_residue_closed(a.v as int, b.v as int, M31_MOD as int);
        lemma_residue_closed(b.v as int, c.v as int, M31_MOD as int);
        lemma_mul_mod_assoc(a.v as int, b.v as int, c.v as int, M31_MOD as int);
    }

    proof fn lemma_mul_one(a: Self) {
        lemma_mul_mod_one(a.v as int, M31_MOD as int);
    }

    proof fn lemma_mul_distributive(a: Self, b: Self, c: Self) {
        lemma_residue_closed(a.v as int, b.v as int, M31_MOD as int);
        lemma_residue_closed(a.v as int, c.v as int, M31_MOD as int);
        lemma_residue_closed(b.v as int, c.v as int, M31_MOD as int);
        lemma_mul_mod_distributes(a.v as int, b.v as int, c.v as int, M31_MOD as int);
    }

    proof fn lemma_exp_unfold(a: Self, e: nat) {
    }

    proof fn lemma_inv_2_doubles_to_one() {
        assert((0x4000_0000int + 0x4000_0000) % 0x7fff_ffff == 1) by (nonlinear_arith);
    }

    proof fn lemma_from_u32_constants() {
        assert(0int % 0x7fff_ffff == 0 && 1int % 0x7fff_ffff == 1 && 2int % 0x7fff_ffff == 2)
            by (nonlinear_arith);
    }
}

impl FieldSerde for M31 {
    open spec fn spec_size() -> nat {
        4
    }

    open spec fn spec_serialize(self) -> Seq<u8> {
        le_bytes(self.v as int, 4)
    }

    open spec fn spec_deserialize(bytes: Seq<u8>) -> Self {
        m31_of(le_value(bytes, 4) % (M31_MOD as int))
    }

    open spec fn spec_is_canonical(bytes: Seq<u8>) -> bool {
        le_value(bytes, 4) < M31_MOD
    }

    fn size() -> (n: usize) {
        4
    }

    fn serialize_into(&self, buffer: &mut Vec<u8>) {
        push_le(buffer, self.v as u64, 4);
    }

    fn deserialize_from(buffer: &[u8]) -> (r: Self) {
        let u = read_le(buffer, 0, 4);
        proof {
            lemma_le_value_bound(buffer@, 0, 4);
            lemma_pow256_values();
        }
        M31 { v: (u % (M31_MOD as u64)) as u32 }
    }

    fn decode(buffer: &[u8]) -> (r: Option<Self>) {
        if buffer.len() < 4 {
            return None;
        }
        let u = read_le(buffer, 0, 4);
        if u < M31_MOD as u64 {
            proof {
                vstd::arithmetic::div_mod::lemma_small_mod(u as nat, M31_MOD as nat);
            }
            Some(M31 { v: u as u32 })
        } else {
            None
        }
    }

    proof fn lemma_serialize_len(a: Self) {
    }

    proof fn lemma_serialize_round_trip(a: Self, rest: Seq<u8>) {
        lemma_pow256_values();
        lemma_le_round_trip(a.v as int, 4, rest);
        vstd::arithmetic::div_mod::lemma_small_mod(a.v as nat, M31_MOD as nat);
    }

    proof fn lemma_canonical_reencodes(bytes: Seq<u8>) {
        lemma_le_value_bound(bytes, 0, 4);
        lemma_le_bytes_of_value(bytes, 0, 4);
        vstd::arithmetic::div_mod::lemma_small_mod(le_value(bytes, 4) as nat, M31_MOD as nat);
    }

    proof fn lemma_deserialize_prefix(bytes: Seq<u8>) {
        let head = bytes.subrange(0, 4);
        lemma_le_value_subrange(bytes, 0, 4);
        lemma_le_value_subrange(head, 0, 4);
        assert(head.subrange(0, 4) =~= head);
        vstd::arithmetic::div_mod::lemma_mod_bound(le_value(bytes, 4), M31_MOD as int);
    }
}

impl Field for M31 {
    type BaseField = M31;

    open spec fn spec_from_base(b: M31) -> Self {
        b
    }

    fn inv(&self) -> (r: Option<Self>) {
        let candidate = exp_by_squaring(self, (M31_MOD - 2) as u64);
        if self.mul(&candidate).equals(&M31 { v: 1 }) {
            Some(candidate)
        } else {
            None
        }
    }

    fn exp(&self, exponent: u64) -> (r: Self) {
        exp_by_squaring(self, exponent)
    }

    fn from_base(b: &M31) -> (r: Self) {
        *b
    }

    fn mul_base_elem(&self, rhs: &M31) -> (r: Self) {
        self.mul(rhs)
    }

    fn add_base_elem(&self, rhs: &M31) -> (r: Self) {
        self.add(rhs)
    }

    proof fn lemma_from_base_homomorphism(a: M31, b: M31) {
    }
}

} // verus!
