//! Multiplicative subgroups of order a power of two, with their powers
//! tabulated, and the evaluation of a coefficient vector on such a subgroup.
use crate::field::algebra::{
    lemma_add_interchange, lemma_mul_zero, lemma_pow_add, lemma_pow_of_pow, lemma_pow_periodic,
};
use crate::field::{
    exp_by_squaring, lemma_pow2_add, lemma_pow2_monotone, lemma_pow_of_square, lemma_pow_wf, pow2,
    FieldArith, TwoAdicField,
};
use crate::poly::all_wf;
use vstd::prelude::*;

verus! {

/// The value at `x` of the polynomial with the coefficients `coeff`, lowest
/// degree first.
pub open spec fn poly_eval<F: FieldArith>(coeff: Seq<F>, x: F) -> F
    decreases coeff.len(),
{
    if coeff.len() == 0 {
        F::spec_zero()
    } else {
        coeff[0].spec_add(x.spec_mul(poly_eval(coeff.skip(1), x)))
    }
}

/// The value at a canonical point of a polynomial with canonical
/// coefficients is canonical.
pub proof fn lemma_poly_eval_wf<F: FieldArith>(coeff: Seq<F>, x: F)
    requires
        all_wf(coeff),
        x.wf(),
    ensures
        poly_eval(coeff, x).wf(),
    decreases coeff.len(),
{
    F::lemma_constants_wf();
    if coeff.len() > 0 {
        lemma_poly_eval_wf(coeff.skip(1), x);
        F::lemma_closed(x, poly_eval(coeff.skip(1), x));
        F::lemma_closed(coeff[0], x.spec_mul(poly_eval(coeff.skip(1), x)));
    }
}

/// The first `n` powers of `base`, from `base^0` on.
pub open spec fn powers<F: FieldArith>(base: F, n: nat) -> Seq<F> {
    Seq::new(n, |i: int| base.spec_exp(i as nat))
}

/// The subgroup generated by `omega`, of order `2^log_order`.
#[derive(Clone, Debug)]
pub struct Radix2Group<F: TwoAdicField> {
    pub log_order: usize,
    /// The generator.
    pub omega: F,
    /// `omega^i` at index `i`.
    pub elements: Vec<F>,
    /// `omega^(-i)` at index `i`, as the powers of `omega^(order - 1)`.
    pub elements_inv: Vec<F>,
}

/// The value at `x` of the polynomial with the coefficients `coeff`.
pub fn evaluate<F: FieldArith>(coeff: &[F], x: &F) -> (r: F)
    requires
        all_wf(coeff@),
        x.wf(),
    ensures
        r == poly_eval(coeff@, *x),
        r.wf(),
{
    let n = coeff.len();
    let mut acc = F::zero();
    let mut i: usize = n;
    proof {
        assert(coeff@.subrange(n as int, n as int) =~= Seq::<F>::empty());
    }
    while i > 0
        invariant
            i <= n == coeff@.len(),
            all_wf(coeff@),
            x.wf(),
            acc.wf(),
            acc == poly_eval(coeff@.subrange(i as int, n as int), *x),
        decreases i,
    {
        i -= 1;
        proof {
            let tail = coeff@.subrange(i as int, n as int);
            assert(tail.skip(1) =~= coeff@.subrange(i + 1, n as int));
            assert(tail[0] == coeff@[i as int]);
        }
        acc = coeff[i].add(&x.mul(&acc));
    }
    proof {
        assert(coeff@.subrange(0, n as int) =~= coeff@);
    }
    acc
}

/// The first `n` powers of `base`.
pub fn tabulate_powers<F: FieldArith>(base: &F, n: usize) -> (r: Vec<F>)
    requires
        base.wf(),
    ensures
        r@ == powers(*base, n as nat),
        all_wf(r@),
{
    let mut out: Vec<F> = Vec::new();
    let mut cur = F::one();
    let mut i: usize = 0;
    proof {
        F::lemma_exp_unfold(*base, 0);
    }
    while i < n
        invariant
            i <= n,
            base.wf(),
            cur.wf(),
            cur == base.spec_exp(i as nat),
            out@.len() == i,
            all_wf(out@),
            forall|j: int| 0 <= j < i ==> #[trigger] out@[j] == base.spec_exp(j as nat),
        decreases n - i,
    {
        out.push(cur);
        proof {
            F::lemma_exp_unfold(*base, (i + 1) as nat);
        }
        cur = base.mul(&cur);
        i += 1;
    }
    proof {
        assert(out@ =~= powers(*base, n as nat));
    }
    out
}

impl<F: TwoAdicField> Radix2Group<F> {
    /// The order of the group.
    pub open spec fn order(&self) -> nat {
        pow2(self.log_order as nat)
    }

    /// The generator's inverse, as a power of the generator.
    pub open spec fn omega_inv(&self) -> F {
        self.omega.spec_exp((self.order() - 1) as nat)
    }

    /// The generator has order `2^log_order`: raised to that power it gives
    /// one, and raised to half that power it does not. The tables hold the
    /// powers of the generator and of its inverse.
    pub open spec fn wf(&self) -> bool {
        &&& self.log_order < 32
        &&& self.omega.wf()
        &&& self.omega.spec_exp(self.order()) == F::spec_one()
        &&& self.log_order >= 1 ==> self.omega.spec_exp(pow2((self.log_order - 1) as nat))
            != F::spec_one()
        &&& self.elements@ == powers(self.omega, self.order())
        &&& self.elements_inv@ == powers(self.omega_inv(), self.order())
    }

    /// The group generated by `omega`, which has order `2^log_order`.
    pub fn from_omega(omega: F, log_order: usize) -> (g: Self)
        requires
            omega.wf(),
            log_order < 32,
            omega.spec_exp(pow2(log_order as nat)) == F::spec_one(),
            log_order >= 1 ==> omega.spec_exp(pow2((log_order - 1) as nat)) != F::spec_one(),
        ensures
            g.omega == omega,
            g.log_order == log_order,
            g.wf(),
    {
        let mut order: usize = 1;
        let mut i: usize = 0;
        while i < log_order
            invariant
                i <= log_order < 32,
                order == pow2(i as nat),
                order <= 0x8000_0000,
            decreases log_order - i,
        {
            proof {
                lemma_pow2_small((i + 1) as nat);
            }
            order = order * 2;
            i += 1;
        }
        proof {
            lemma_pow2_monotone(0, log_order as nat);
        }
        let elements = tabulate_powers(&omega, order);
        let omega_inv = exp_by_squaring(&omega, (order - 1) as u64);
        let elements_inv = tabulate_powers(&omega_inv, order);
        Radix2Group { log_order, omega, elements, elements_inv }
    }

    /// The subgroup of order `2^log_order`, generated by the field's root of
    /// unity of that order.
    pub fn new(log_order: u32) -> (g: Self)
        requires
            log_order < 32,
            log_order <= F::spec_two_adicity(),
        ensures
            g.log_order == log_order,
            g.omega == F::spec_two_adic_generator().spec_exp(
                pow2((F::spec_two_adicity() - log_order) as nat),
            ),
            g.wf(),
    {
        let omega = F::root_of_unity(log_order as usize);
        proof {
            let rest = (F::spec_two_adicity() - log_order) as nat;
            F::lemma_generator_order();
            lemma_pow_of_pow(F::spec_two_adic_generator(), pow2(rest), pow2(log_order as nat));
            lemma_pow2_add(rest, log_order as nat);
            if log_order >= 1 {
                lemma_pow_of_pow(
                    F::spec_two_adic_generator(),
                    pow2(rest),
                    pow2((log_order - 1) as nat),
                );
                lemma_pow2_add(rest, (log_order - 1) as nat);
            }
        }
        Self::from_omega(omega, log_order as usize)
    }

    /// The order of the group.
    pub fn size(&self) -> (n: usize)
        requires
            self.wf(),
        ensures
            n == self.order(),
            0 < n <= 0x8000_0000,
    {
        proof {
            lemma_pow2_small(self.log_order as nat);
            lemma_pow2_monotone(0, self.log_order as nat);
        }
        self.elements.len()
    }

    /// `omega^i`.
    pub fn element_at(&self, i: usize) -> (r: F)
        requires
            self.wf(),
            i < self.order(),
        ensures
            r == self.omega.spec_exp(i as nat),
            r.wf(),
    {
        proof {
            crate::field::lemma_pow_wf(self.omega, i as nat);
        }
        self.elements[i]
    }

    /// `omega^(-i)`.
    pub fn element_inv_at(&self, i: usize) -> (r: F)
        requires
            self.wf(),
            i < self.order(),
        ensures
            r == self.omega_inv().spec_exp(i as nat),
            r.wf(),
    {
        proof {
            crate::field::lemma_pow_wf(self.omega, (self.order() - 1) as nat);
            crate::field::lemma_pow_wf(self.omega_inv(), i as nat);
        }
        self.elements_inv[i]
    }

    /// The subgroup generated by the square of the generator, of half the
    /// order. `index` is 2, the exponent of the generator.
    pub fn exp(&self, index: usize) -> (g: Self)
        requires
            self.wf(),
            index == 2,
            self.log_order > 0,
        ensures
            g.omega == self.omega.spec_mul(self.omega),
            g.log_order == self.log_order - 1,
            g.wf(),
    {
        let omega = self.omega.mul(&self.omega);
        proof {
            lemma_pow_of_square(self.omega, pow2((self.log_order - 1) as nat));
            if self.log_order >= 2 {
                lemma_pow_of_square(self.omega, pow2((self.log_order - 2) as nat));
            }
        }
        Self::from_omega(omega, self.log_order - 1)
    }

    /// The values, at the powers of `omega^stride`, of the polynomial with
    /// the `2^log_len` coefficients `coeff`, by splitting the polynomial into
    /// its even and odd parts.
    fn fft_rec(&self, coeff: &Vec<F>, log_len: usize, stride: usize) -> (r: Vec<F>)
        requires
            self.wf(),
            log_len <= self.log_order,
            coeff@.len() == pow2(log_len as nat),
            stride == pow2((self.log_order - log_len) as nat),
            all_wf(coeff@),
        ensures
            r@.len() == coeff@.len(),
            all_wf(r@),
            forall|i: int|
                0 <= i < r@.len() ==> #[trigger] r@[i] == poly_eval(
                    coeff@,
                    self.omega.spec_exp((stride * i) as nat),
                ),
        decreases log_len,
    {
        let len = coeff.len();
        let n = self.size();
        proof {
            lemma_pow2_add((self.log_order - log_len) as nat, log_len as nat);
            lemma_pow2_monotone(0, log_len as nat);
            lemma_pow2_monotone(0, (self.log_order - log_len) as nat);
        }
        if log_len == 0 {
            let mut out: Vec<F> = Vec::new();
            out.push(coeff[0]);
            proof {
                assert(coeff@[0].wf());
                lemma_pow_wf(self.omega, 0);
                lemma_poly_eval_constant(coeff@, self.omega.spec_exp(0));
                assert(stride * 0 == 0);
            }
            return out;
        }
        let half = len / 2;
        proof {
            assert(pow2(log_len as nat) == 2 * pow2((log_len - 1) as nat));
            lemma_pow2_add((self.log_order - log_len) as nat, 1);
            assert(pow2(1) == 2) by {
                reveal_with_fuel(pow2, 2);
            }
            assert(stride * 2 == pow2((self.log_order - (log_len - 1)) as nat));
            assert(stride * len == n);
            assert(stride * 2 <= n) by (nonlinear_arith)
                requires
                    stride * len == n,
                    len >= 2,
                    stride >= 0,
            ;
        }
        let mut even: Vec<F> = Vec::new();
        let mut odd: Vec<F> = Vec::new();
        let mut j: usize = 0;
        while j < half
            invariant
                j <= half,
                len == 2 * half == coeff@.len(),
                all_wf(coeff@),
                even@.len() == j,
                odd@.len() == j,
                forall|k: int| 0 <= k < j ==> #[trigger] even@[k] == coeff@[2 * k],
                forall|k: int| 0 <= k < j ==> #[trigger] odd@[k] == coeff@[2 * k + 1],
                all_wf(even@),
                all_wf(odd@),
            decreases half - j,
        {
            proof {
                assert(coeff@[2 * j].wf() && coeff@[2 * j + 1].wf());
            }
            even.push(coeff[2 * j]);
            odd.push(coeff[2 * j + 1]);
            j += 1;
        }
        proof {
            assert(even@ =~= evens(coeff@));
            assert(odd@ =~= odds(coeff@));
        }
        let e = self.fft_rec(&even, log_len - 1, stride * 2);
        let o = self.fft_rec(&odd, log_len - 1, stride * 2);
        let mut out: Vec<F> = Vec::new();
        let mut i: usize = 0;
        while i < len
            invariant
                i <= len == 2 * half == coeff@.len(),
                self.wf(),
                n == self.order(),
                stride * len == n,
                0 < stride,
                all_wf(coeff@),
                even@ == evens(coeff@),
                odd@ == odds(coeff@),
                e@.len() == half,
                o@.len() == half,
                all_wf(e@),
                all_wf(o@),
                forall|k: int|
                    0 <= k < half ==> #[trigger] e@[k] == poly_eval(
                        even@,
                        self.omega.spec_exp(((stride * 2) * k) as nat),
                    ),
                forall|k: int|
                    0 <= k < half ==> #[trigger] o@[k] == poly_eval(
                        odd@,
                        self.omega.spec_exp(((stride * 2) * k) as nat),
                    ),
                out@.len() == i,
                all_wf(out@),
                forall|k: int|
                    0 <= k < i ==> #[trigger] out@[k] == poly_eval(
                        coeff@,
                        self.omega.spec_exp((stride * k) as nat),
                    ),
            decreases len - i,
        {
            let j = if i < half {
                i
            } else {
                i - half
            };
            proof {
                assert(stride * i < stride * len) by (nonlinear_arith)
                    requires
                        i < len,
                        0 < stride,
                ;
                assert(e@[j as int].wf() && o@[j as int].wf());
                let x = self.omega.spec_exp((stride * i) as nat);
                let y = self.omega.spec_exp(((stride * 2) * j) as nat);
                lemma_pow_wf(self.omega, (stride * i) as nat);
                // x * x is the point that the halves were taken at
                lemma_pow_add(self.omega, (stride * i) as nat, (stride * i) as nat);
                if i < half {
                    assert(stride * i + stride * i == (stride * 2) * j) by (nonlinear_arith)
                        requires
                            i == j,
                    ;
                } else {
                    assert(stride * i + stride * i == (stride * 2) * j + n) by (nonlinear_arith)
                        requires
                            i == j + half,
                            stride * len == n,
                            len == 2 * half,
                    ;
                    lemma_pow_periodic(self.omega, n as nat, ((stride * 2) * j) as nat);
                }
                assert(x.spec_mul(x) == y);
                lemma_even_odd_split(coeff@, x);
            }
            let x = self.elements[stride * i];
            out.push(e[j].add(&x.mul(&o[j])));
            i += 1;
        }
        out
    }

    /// The values on the group, in the order of the powers of the generator,
    /// of the polynomial with the coefficients `coeff`.
    pub fn fft(&self, coeff: Vec<F>) -> (r: Vec<F>)
        requires
            self.wf(),
            all_wf(coeff@),
            coeff@.len() <= self.order(),
        ensures
            r@.len() == self.order(),
            forall|i: int|
                0 <= i < r@.len() ==> #[trigger] r@[i] == poly_eval(
                    coeff@,
                    self.omega.spec_exp(i as nat),
                ),
            all_wf(r@),
    {
        let n = self.size();
        let zero = F::zero();
        let mut padded = coeff;
        let ghost given = padded@;
        proof {
            assert(given + zeros_seq::<F>(0) =~= given);
        }
        while padded.len() < n
            invariant
                padded@.len() <= n,
                zero == F::spec_zero(),
                zero.wf(),
                all_wf(padded@),
                padded@ == given + zeros_seq::<F>((padded@.len() - given.len()) as nat),
                given.len() <= padded@.len(),
            decreases n - padded@.len(),
        {
            let ghost before = padded@;
            padded.push(zero);
            proof {
                assert(padded@ =~= given + zeros_seq::<F>((padded@.len() - given.len()) as nat));
            }
        }
        proof {
            assert(pow2(0) == 1);
        }
        let r = self.fft_rec(&padded, self.log_order, 1);
        proof {
            assert forall|i: int| 0 <= i < r@.len() implies #[trigger] r@[i] == poly_eval(
                given,
                self.omega.spec_exp(i as nat),
            ) by {
                assert(1 * i == i);
                lemma_pow_wf(self.omega, i as nat);
                lemma_poly_eval_padded(
                    given,
                    (padded@.len() - given.len()) as nat,
                    self.omega.spec_exp(i as nat),
                );
            }
        }
        r
    }

    /// The coefficients of the polynomial of degree below the order that
    /// takes the values `values` on the group, by the inverse transform: the
    /// values are taken as coefficients and evaluated at the inverse powers,
    /// and the results are divided by the order. There is no result where
    /// the field does not offer the inverse of the order.
    pub fn ifft(&self, values: Vec<F>) -> (r: Option<Vec<F>>)
        requires
            self.wf(),
            all_wf(values@),
            values@.len() == self.order(),
        ensures
            r.is_some() == F::spec_from_u32(self.order() as u32).spec_inv().is_some(),
            r matches Some(c) ==> c@.len() == self.order() && all_wf(c@) && forall|j: int|
                0 <= j < c@.len() ==> #[trigger] c@[j] == poly_eval(
                    values@,
                    self.omega_inv().spec_exp(j as nat),
                ).spec_mul(F::spec_from_u32(self.order() as u32).spec_inv().unwrap()),
    {
        let n = self.size();
        let scale = match F::from_u32(n as u32).inv() {
            None => {
                return None;
            },
            Some(s) => s,
        };
        proof {
            // (omega^(n-1))^n = (omega^n)^(n-1) = 1
            lemma_pow_of_pow(self.omega, (n - 1) as nat, n as nat);
            lemma_pow_of_pow(self.omega, n as nat, (n - 1) as nat);
            assert((n - 1) * n == n * (n - 1)) by (nonlinear_arith);
            crate::field::algebra::lemma_pow_of_one::<F>((n - 1) as nat);
            lemma_pow_wf(self.omega, (n - 1) as nat);
            if self.log_order >= 1 {
                // with h = omega^(n/2): h^(n-1) * h = h^n = 1, so h^(n-1) = 1 would make h one
                let m = pow2((self.log_order - 1) as nat);
                let h = self.omega.spec_exp(m);
                lemma_pow_wf(self.omega, m);
                lemma_pow_of_pow(self.omega, (n - 1) as nat, m);
                lemma_pow_of_pow(self.omega, m, (n - 1) as nat);
                assert((n - 1) * m == m * (n - 1)) by (nonlinear_arith);
                lemma_pow_add(h, (n - 1) as nat, 1);
                crate::field::algebra::lemma_pow_one(h);
                lemma_pow_of_pow(self.omega, m, n as nat);
                lemma_pow_of_pow(self.omega, n as nat, m);
                assert(m * n == n * m) by (nonlinear_arith);
                crate::field::algebra::lemma_pow_of_one::<F>(m);
                crate::field::algebra::lemma_one_mul(h);
            }
        }
        let omega_inv = exp_by_squaring(&self.omega, (n - 1) as u64);
        let mirror = Self::from_omega(omega_inv, self.log_order);
        let sums = mirror.fft(values);
        let mut out: Vec<F> = Vec::new();
        let mut j: usize = 0;
        while j < n
            invariant
                j <= n == sums@.len(),
                scale.wf(),
                all_wf(sums@),
                out@.len() == j,
                all_wf(out@),
                forall|k: int| 0 <= k < j ==> #[trigger] out@[k] == sums@[k].spec_mul(scale),
            decreases n - j,
        {
            proof {
                assert(sums@[j as int].wf());
            }
            out.push(sums[j].mul(&scale));
            j += 1;
        }
        Some(out)
    }

    /// The inverse powers are the inverses of the powers.
    pub proof fn lemma_inverse_powers(&self, i: nat)
        requires
            self.wf(),
        ensures
            self.omega.spec_exp(i).spec_mul(self.omega_inv().spec_exp(i)) == F::spec_one(),
    {
        let n = self.order();
        lemma_pow2_monotone(0, self.log_order as nat);
        // omega^i * (omega^(n-1))^i = omega^(i + (n-1) i) = (omega^n)^i = 1
        lemma_pow_of_pow(self.omega, (n - 1) as nat, i);
        lemma_pow_add(self.omega, i, ((n - 1) * i) as nat);
        assert(i + (n - 1) * i == n * i) by (nonlinear_arith)
            requires
                n >= 1,
        ;
        lemma_pow_of_pow(self.omega, n, i);
        crate::field::algebra::lemma_pow_of_one::<F>(i);
    }
}

/// The coefficients of even index.
pub open spec fn evens<F>(c: Seq<F>) -> Seq<F> {
    Seq::new((c.len() / 2) as nat, |j: int| c[2 * j])
}

/// The coefficients of odd index.
pub open spec fn odds<F>(c: Seq<F>) -> Seq<F> {
    Seq::new((c.len() / 2) as nat, |j: int| c[2 * j + 1])
}

/// `count` zeros.
pub open spec fn zeros_seq<F: FieldArith>(count: nat) -> Seq<F> {
    Seq::new(count, |j: int| F::spec_zero())
}

/// A polynomial with one coefficient is constant.
pub proof fn lemma_poly_eval_constant<F: FieldArith>(c: Seq<F>, x: F)
    requires
        c.len() == 1,
        c[0].wf(),
        x.wf(),
    ensures
        poly_eval(c, x) == c[0],
{
    assert(c.skip(1).len() == 0);
    assert(poly_eval(c.skip(1), x) == F::spec_zero());
    lemma_mul_zero(x);
    F::lemma_add_zero(c[0]);
}

/// The zero polynomial is zero everywhere.
pub proof fn lemma_poly_eval_zeros<F: FieldArith>(count: nat, x: F)
    requires
        x.wf(),
    ensures
        poly_eval(zeros_seq::<F>(count), x) == F::spec_zero(),
    decreases count,
{
    if count > 0 {
        assert(zeros_seq::<F>(count).skip(1) =~= zeros_seq::<F>((count - 1) as nat));
        lemma_poly_eval_zeros::<F>((count - 1) as nat, x);
        lemma_mul_zero(x);
        F::lemma_constants_wf();
        F::lemma_add_zero(F::spec_zero());
    }
}

/// Zero coefficients at the top do not change a polynomial.
pub proof fn lemma_poly_eval_padded<F: FieldArith>(c: Seq<F>, count: nat, x: F)
    requires
        all_wf(c),
        x.wf(),
    ensures
        poly_eval(c + zeros_seq::<F>(count), x) == poly_eval(c, x),
    decreases c.len(),
{
    if c.len() == 0 {
        assert(c + zeros_seq::<F>(count) =~= zeros_seq::<F>(count));
        lemma_poly_eval_zeros::<F>(count, x);
    } else {
        assert((c + zeros_seq::<F>(count)).skip(1) =~= c.skip(1) + zeros_seq::<F>(count));
        lemma_poly_eval_padded(c.skip(1), count, x);
    }
}

/// `c0 + x (c1 + x (e + x o)) = (c0 + x^2 e) + x (c1 + x^2 o)`.
proof fn lemma_split_step<F: FieldArith>(c0: F, c1: F, x: F, e: F, o: F)
    requires
        c0.wf(),
        c1.wf(),
        x.wf(),
        e.wf(),
        o.wf(),
    ensures
        c0.spec_add(x.spec_mul(c1.spec_add(x.spec_mul(e.spec_add(x.spec_mul(o))))))
            == c0.spec_add(x.spec_mul(x).spec_mul(e)).spec_add(
            x.spec_mul(c1.spec_add(x.spec_mul(x).spec_mul(o))),
        ),
{
    let y = x.spec_mul(x);
    let xo = x.spec_mul(o);
    let ye = y.spec_mul(e);
    let yo = y.spec_mul(o);
    let xc1 = x.spec_mul(c1);
    F::lemma_closed(x, x);
    F::lemma_closed(x, o);
    F::lemma_closed(x, e);
    F::lemma_closed(y, e);
    F::lemma_closed(y, o);
    F::lemma_closed(x, c1);
    F::lemma_closed(x, yo);
    F::lemma_closed(e, xo);
    F::lemma_closed(x.spec_mul(e), yo);
    F::lemma_closed(ye, x.spec_mul(yo));
    F::lemma_closed(c1, yo);
    // x (e + x o) = x e + y o
    F::lemma_mul_distributive(x, e, xo);
    F::lemma_mul_associative(x, x, o);
    // x (c1 + (x e + y o)) = x c1 + (y e + x (y o))
    F::lemma_mul_distributive(x, c1, x.spec_mul(e).spec_add(yo));
    F::lemma_mul_distributive(x, x.spec_mul(e), yo);
    F::lemma_mul_associative(x, x, e);
    // x (c1 + y o) = x c1 + x (y o)
    F::lemma_mul_distributive(x, c1, yo);
    // c0 + (x c1 + (y e + x (y o))) = (c0 + y e) + (x c1 + x (y o))
    F::lemma_constants_wf();
    lemma_add_interchange(c0, xc1, ye, x.spec_mul(yo));
    F::lemma_add_associative(c0, xc1, ye.spec_add(x.spec_mul(yo)));
    F::lemma_closed(c0, xc1);
    F::lemma_closed(xc1, ye.spec_add(x.spec_mul(yo)));
    F::lemma_add_associative(xc1, ye, x.spec_mul(yo));
    F::lemma_add_commutative(xc1, ye);
    F::lemma_add_associative(ye, xc1, x.spec_mul(yo));
    F::lemma_closed(xc1, x.spec_mul(yo));
    F::lemma_add_associative(c0, ye, xc1.spec_add(x.spec_mul(yo)));
}

/// A polynomial is its even part at the square of the point plus the point
/// times its odd part at the square.
pub proof fn lemma_even_odd_split<F: FieldArith>(c: Seq<F>, x: F)
    requires
        c.len() % 2 == 0,
        all_wf(c),
        x.wf(),
    ensures
        poly_eval(c, x) == poly_eval(evens(c), x.spec_mul(x)).spec_add(
            x.spec_mul(poly_eval(odds(c), x.spec_mul(x))),
        ),
    decreases c.len(),
{
    let y = x.spec_mul(x);
    F::lemma_closed(x, x);
    F::lemma_constants_wf();
    if c.len() == 0 {
        assert(evens(c).len() == 0 && odds(c).len() == 0);
        lemma_mul_zero(x);
        F::lemma_add_zero(F::spec_zero());
    } else {
        let rest = c.skip(2);
        assert(c.skip(1).skip(1) =~= rest);
        assert(evens(c).skip(1) =~= evens(rest));
        assert(odds(c).skip(1) =~= odds(rest));
        assert(all_wf(rest)) by {
            assert forall|k: int| 0 <= k < rest.len() implies (#[trigger] rest[k]).wf() by {
                assert(rest[k] == c[k + 2]);
            }
        }
        assert(all_wf(evens(rest))) by {
            assert forall|k: int| 0 <= k < evens(rest).len() implies (
            #[trigger] evens(rest)[k]).wf() by {
                assert(evens(rest)[k] == rest[2 * k]);
            }
        }
        assert(all_wf(odds(rest))) by {
            assert forall|k: int| 0 <= k < odds(rest).len() implies (#[trigger] odds(rest)[k]).wf() by {
                assert(odds(rest)[k] == rest[2 * k + 1]);
            }
        }
        lemma_even_odd_split(rest, x);
        lemma_poly_eval_wf(evens(rest), y);
        lemma_poly_eval_wf(odds(rest), y);
        assert(c[0].wf() && c[1].wf());
        assert(c.skip(1)[0] == c[1]);
        assert(evens(c)[0] == c[0]);
        assert(odds(c)[0] == c[1]);
        assert(poly_eval(c.skip(1), x) == c[1].spec_add(x.spec_mul(poly_eval(rest, x))));
        assert(poly_eval(c, x) == c[0].spec_add(x.spec_mul(poly_eval(c.skip(1), x))));
        assert(poly_eval(evens(c), y) == c[0].spec_add(y.spec_mul(poly_eval(evens(rest), y))));
        assert(poly_eval(odds(c), y) == c[1].spec_add(y.spec_mul(poly_eval(odds(rest), y))));
        lemma_split_step(c[0], c[1], x, poly_eval(evens(rest), y), poly_eval(odds(rest), y));
    }
}

/// `2^k` fits 32 bits when `k < 32`.
pub proof fn lemma_pow2_small(k: nat)
    requires
        k < 32,
    ensures
        pow2(k) <= 0x8000_0000,
        k < 31 ==> pow2(k) <= 0x4000_0000,
{
    assert(pow2(30) == 0x4000_0000 && pow2(31) == 0x8000_0000) by {
        reveal_with_fuel(pow2, 32);
    }
    lemma_pow2_monotone(k, 31);
    if k < 31 {
        lemma_pow2_monotone(k, 30);
    }
}

} // verus!
