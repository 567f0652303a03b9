//! Little-endian byte encodings of unsigned integers.
use vstd::arithmetic::div_mod::{lemma_div_denominator, lemma_small_mod};
use vstd::prelude::*;

verus! {

/// `256^n`.
pub open spec fn pow256(n: nat) -> int
    decreases n,
{
    if n == 0 {
        1
    } else {
        256 * pow256((n - 1) as nat)
    }
}

/// Byte `i` of the little-endian encoding of `x`.
pub open spec fn le_byte(x: int, i: nat) -> u8 {
    ((x / pow256(i)) % 256) as u8
}

/// The `n` little-endian bytes of `x`.
pub open spec fn le_bytes(x: int, n: nat) -> Seq<u8> {
    Seq::new(n, |i: int| le_byte(x, i as nat))
}

/// The number whose little-endian encoding is `bytes[start .. start + n]`.
pub open spec fn le_value_at(bytes: Seq<u8>, start: int, n: nat) -> int
    decreases n,
{
    if n == 0 {
        0
    } else {
        bytes[start] as int + 256 * le_value_at(bytes, start + 1, (n - 1) as nat)
    }
}

/// The number whose little-endian encoding is the first `n` bytes.
pub open spec fn le_value(bytes: Seq<u8>, n: nat) -> int {
    le_value_at(bytes, 0, n)
}

pub proof fn lemma_pow256_positive(n: nat)
    ensures
        pow256(n) > 0,
    decreases n,
{
    if n > 0 {
        lemma_pow256_positive((n - 1) as nat);
    }
}

pub proof fn lemma_pow256_values()
    ensures
        pow256(0) == 1,
        pow256(1) == 0x100,
        pow256(4) == 0x1_0000_0000,
        pow256(8) == 0x1_0000_0000_0000_0000,
{
    reveal_with_fuel(pow256, 9);
}

/// A value read from `n` bytes is below `256^n`.
pub proof fn lemma_le_value_bound(bytes: Seq<u8>, start: int, n: nat)
    ensures
        0 <= le_value_at(bytes, start, n) < pow256(n),
    decreases n,
{
    if n > 0 {
        lemma_le_value_bound(bytes, start + 1, (n - 1) as nat);
    }
}

/// The value read depends only on the bytes it spans.
pub proof fn lemma_le_value_subrange(a: Seq<u8>, start: int, n: nat)
    requires
        0 <= start,
        start + n <= a.len(),
    ensures
        le_value_at(a, start, n) == le_value(a.subrange(start, start + n), n),
    decreases n,
{
    if n > 0 {
        let sub = a.subrange(start, start + n);
        lemma_le_value_subrange(a, start + 1, (n - 1) as nat);
        lemma_le_value_subrange(sub, 1, (n - 1) as nat);
        assert(sub.subrange(1, n as int) =~= a.subrange(start + 1, start + n));
    }
}

/// Reading `n - i` bytes of an encoding from byte `i` gives the digits of `x`
/// from `i` up.
proof fn lemma_le_round_trip_from(x: int, n: nat, i: nat, s: Seq<u8>)
    requires
        0 <= x,
        i <= n,
        forall|j: int| 0 <= j < n ==> #[trigger] s[j] == le_byte(x, j as nat),
    ensures
        le_value_at(s, i as int, (n - i) as nat) == (x / pow256(i)) % pow256((n - i) as nat),
    decreases n - i,
{
    lemma_pow256_positive(i);
    lemma_pow256_positive((n - i) as nat);
    let q = x / pow256(i);
    if i == n {
        assert(q % 1 == 0);
    } else {
        lemma_le_round_trip_from(x, n, i + 1, s);
        assert(s[i as int] == le_byte(x, i));
        let m = pow256((n - i - 1) as nat);
        lemma_pow256_positive((n - i - 1) as nat);
        // q / 256 = x / 256^(i+1)
        lemma_div_denominator(x, pow256(i), 256);
        assert(pow256(i) * 256 == pow256(i + 1)) by (nonlinear_arith)
            requires
                pow256(i + 1) == 256 * pow256(i),
        ;
        let hi = (q / 256) % m;
        let lo = q % 256;
        assert(le_value_at(s, i as int, (n - i) as nat) == lo + 256 * hi);
        // q % (256 * m) = q % 256 + 256 * ((q / 256) % m)
        vstd::arithmetic::div_mod::lemma_breakdown(q, 256, m);
        assert(pow256((n - i) as nat) == 256 * m);
        assert(0 <= q) by {
            vstd::arithmetic::div_mod::lemma_div_pos_is_pos(x, pow256(i));
        }
    }
}

/// Reading an encoding gives the encoded number back, whatever follows it.
pub proof fn lemma_le_round_trip(x: int, n: nat, rest: Seq<u8>)
    requires
        0 <= x < pow256(n),
    ensures
        le_value(le_bytes(x, n) + rest, n) == x,
{
    let s = le_bytes(x, n) + rest;
    lemma_le_round_trip_from(x, n, 0, s);
    lemma_small_mod(x as nat, pow256(n) as nat);
}

/// Dividing a value read from `n` bytes by `256^i` drops its first `i` bytes.
proof fn lemma_le_value_shift(bytes: Seq<u8>, start: int, n: nat, i: nat)
    requires
        i <= n,
        0 <= start,
        start + n <= bytes.len(),
    ensures
        le_value_at(bytes, start, n) / pow256(i) == le_value_at(bytes, start + i, (n - i) as nat),
    decreases i,
{
    let x = le_value_at(bytes, start, n);
    lemma_le_value_bound(bytes, start, n);
    if i > 0 {
        let j = (i - 1) as nat;
        lemma_le_value_shift(bytes, start, n, j);
        let v = le_value_at(bytes, start + j, (n - j) as nat);
        let w = le_value_at(bytes, start + i, (n - i) as nat);
        lemma_pow256_positive(j);
        lemma_div_denominator(x, pow256(j), 256);
        assert(pow256(j) * 256 == pow256(i)) by (nonlinear_arith)
            requires
                pow256(i) == 256 * pow256(j),
        ;
        lemma_le_value_bound(bytes, start + i, (n - i) as nat);
        vstd::arithmetic::div_mod::lemma_fundamental_div_mod_converse(
            v,
            256,
            w,
            bytes[start + j] as int,
        );
    }
}

/// Encoding a value read from `n` bytes gives those bytes back.
pub proof fn lemma_le_bytes_of_value(bytes: Seq<u8>, start: int, n: nat)
    requires
        0 <= start,
        start + n <= bytes.len(),
    ensures
        le_bytes(le_value_at(bytes, start, n), n) == bytes.subrange(start, start + n),
{
    let x = le_value_at(bytes, start, n);
    assert forall|i: int| 0 <= i < n implies le_bytes(x, n)[i] == bytes[start + i] by {
        lemma_le_value_shift(bytes, start, n, i as nat);
        let v = le_value_at(bytes, start + i, (n - i) as nat);
        let w = le_value_at(bytes, start + i + 1, (n - i - 1) as nat);
        lemma_le_value_bound(bytes, start + i + 1, (n - i - 1) as nat);
        vstd::arithmetic::div_mod::lemma_fundamental_div_mod_converse(
            v,
            256,
            w,
            bytes[start + i] as int,
        );
    }
    assert(le_bytes(x, n) =~= bytes.subrange(start, start + n));
}

/// Appends the `n` little-endian bytes of `x`.
pub fn push_le(buffer: &mut Vec<u8>, x: u64, n: usize)
    requires
        n <= 8,
    ensures
        final(buffer)@ == old(buffer)@ + le_bytes(x as int, n as nat),
{
    let mut rest: u64 = x;
    let mut i: usize = 0;
    proof {
        assert(buffer@ =~= old(buffer)@ + le_bytes(x as int, 0));
    }
    while i < n
        invariant
            i <= n <= 8,
            rest == (x as int) / pow256(i as nat),
            buffer@ == old(buffer)@ + le_bytes(x as int, i as nat),
        decreases n - i,
    {
        let b: u8 = (rest % 256) as u8;
        buffer.push(b);
        proof {
            lemma_pow256_positive(i as nat);
            lemma_div_denominator(x as int, pow256(i as nat), 256);
            assert(pow256(i as nat) * 256 == pow256((i + 1) as nat)) by (nonlinear_arith)
                requires
                    pow256((i + 1) as nat) == 256 * pow256(i as nat),
            ;
            assert(b == le_byte(x as int, i as nat));
            assert(buffer@ =~= old(buffer)@ + le_bytes(x as int, (i + 1) as nat));
        }
        rest = rest / 256;
        i += 1;
    }
}

/// Reads the number that `bytes[start .. start + n]` encode.
pub fn read_le(bytes: &[u8], start: usize, n: usize) -> (r: u64)
    requires
        n <= 8,
        start + n <= bytes@.len(),
    ensures
        r == le_value_at(bytes@, start as int, n as nat),
{
    let len = bytes.len();
    let mut acc: u64 = 0;
    let mut i: usize = n;
    while i > 0
        invariant
            i <= n <= 8,
            start + n <= len,
            len == bytes@.len(),
            acc == le_value_at(bytes@, start + i, (n - i) as nat),
        decreases i,
    {
        i -= 1;
        proof {
            lemma_le_value_bound(bytes@, start + i + 1, (n - i - 1) as nat);
            lemma_pow256_mono((n - i - 1) as nat, 7);
            reveal_with_fuel(pow256, 8);
            assert(pow256(7) == 0x100_0000_0000_0000);
        }
        acc = acc * 256 + (bytes[start + i] as u64);
    }
    acc
}

pub proof fn lemma_pow256_mono(a: nat, b: nat)
    requires
        a <= b,
    ensures
        pow256(a) <= pow256(b),
    decreases b,
{
    if a < b {
        lemma_pow256_mono(a, (b - 1) as nat);
        lemma_pow256_positive((b - 1) as nat);
    }
}

} // verus!
