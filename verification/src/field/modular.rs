//! Arithmetic of residues modulo a positive integer, on mathematical integers.
//!
//! The prime fields of this crate state their operations over these functions,
//! so that each algebraic law is proved once, for every modulus.
use vstd::arithmetic::div_mod::*;
use vstd::arithmetic::mul::*;
use vstd::prelude::*;

verus! {

/// `a` is a canonical residue modulo `p`.
pub open spec fn is_residue(a: int, p: int) -> bool {
    0 <= a < p
}

/// Sum of two residues.
pub open spec fn add_mod(a: int, b: int, p: int) -> int {
    (a + b) % p
}

/// Additive inverse of a residue.
pub open spec fn neg_mod(a: int, p: int) -> int {
    (p - a) % p
}

/// Product of two residues.
pub open spec fn mul_mod(a: int, b: int, p: int) -> int {
    (a * b) % p
}

pub proof fn lemma_residue_closed(a: int, b: int, p: int)
    requires
        p > 0,
    ensures
        is_residue(add_mod(a, b, p), p),
        is_residue(neg_mod(a, p), p),
        is_residue(mul_mod(a, b, p), p),
{
    lemma_mod_bound(a + b, p);
    lemma_mod_bound(p - a, p);
    lemma_mod_bound(a * b, p);
}

pub proof fn lemma_neg_mod_value(a: int, p: int)
    requires
        p > 0,
        is_residue(a, p),
    ensures
        neg_mod(a, p) == if a == 0 {
            0
        } else {
            p - a
        },
{
    if a == 0 {
        lemma_mod_self_0(p);
    } else {
        lemma_small_mod((p - a) as nat, p as nat);
    }
}

pub proof fn lemma_add_mod_assoc(a: int, b: int, c: int, p: int)
    requires
        p > 0,
    ensures
        add_mod(add_mod(a, b, p), c, p) == add_mod(a, add_mod(b, c, p), p),
{
    lemma_add_mod_noop(a + b, c, p);
    lemma_add_mod_noop(a, b + c, p);
    lemma_mod_twice(a + b, p);
    lemma_mod_twice(b + c, p);
    lemma_add_mod_noop((a + b) % p, c, p);
    lemma_add_mod_noop(a, (b + c) % p, p);
    assert((a + b) + c == a + (b + c));
}

pub proof fn lemma_add_mod_zero(a: int, p: int)
    requires
        p > 0,
        is_residue(a, p),
    ensures
        add_mod(a, 0, p) == a,
        add_mod(0, a, p) == a,
{
    lemma_small_mod(a as nat, p as nat);
}

pub proof fn lemma_add_mod_neg(a: int, p: int)
    requires
        p > 0,
        is_residue(a, p),
    ensures
        add_mod(a, neg_mod(a, p), p) == 0,
        add_mod(neg_mod(a, p), a, p) == 0,
{
    lemma_neg_mod_value(a, p);
    if a == 0 {
        lemma_small_mod(0, p as nat);
    } else {
        lemma_mod_self_0(p);
    }
}

pub proof fn lemma_mul_mod_comm(a: int, b: int, p: int)
    ensures
        mul_mod(a, b, p) == mul_mod(b, a, p),
{
    lemma_mul_is_commutative(a, b);
}

pub proof fn lemma_mul_mod_assoc(a: int, b: int, c: int, p: int)
    requires
        p > 0,
    ensures
        mul_mod(mul_mod(a, b, p), c, p) == mul_mod(a, mul_mod(b, c, p), p),
{
    lemma_mul_mod_noop_left(a * b, c, p);
    lemma_mul_mod_noop_right(a, b * c, p);
    lemma_mul_is_associative(a, b, c);
}

pub proof fn lemma_mul_mod_one(a: int, p: int)
    requires
        p > 1,
        is_residue(a, p),
    ensures
        mul_mod(a, 1, p) == a,
        mul_mod(1, a, p) == a,
{
    lemma_small_mod(a as nat, p as nat);
}

pub proof fn lemma_mul_mod_distributes(a: int, b: int, c: int, p: int)
    requires
        p > 0,
    ensures
        mul_mod(a, add_mod(b, c, p), p) == add_mod(mul_mod(a, b, p), mul_mod(a, c, p), p),
{
    lemma_mul_mod_noop_right(a, b + c, p);
    lemma_mul_is_distributive_add(a, b, c);
    lemma_add_mod_noop(a * b, a * c, p);
}

} // verus!
