//! The shuffle scheme: the polynomial is sent as in the raw scheme, and the
//! opening walks the point coordinate by coordinate, sending at each step
//! the value at the point shifted by one in its first coordinate.
use crate::field::algebra::{field_sub, lemma_add_sub_cancel, lemma_mul_zero, lemma_one_mul};
use crate::field::{lemma_pow2_monotone, pow2, Field, FieldArith, FieldSerde};
use crate::poly::{
    all_wf, is_pow2_of, fold_evals, fold_in_place, lemma_fold_evals_wf, lemma_fold_prefix,
    mle_eval, MultiLinearPoly,
};
use crate::poly_commit::raw::{
    decode_all, lemma_count_from_width, lemma_decode_all_round_trip,
    lemma_serialize_all_len, serialize_all, RawCommitment,
};
use crate::poly_commit::{CommitmentSerde, PolyCommitProver, PolyCommitVerifier};
use crate::prover::proof_buffer::{read_field, Proof};
use crate::transcript::{Transcript, TranscriptState};
use vstd::prelude::*;
use vstd::slice::{slice_subrange, slice_to_vec};

verus! {

/// The coordinates of `point` from `i` on, the first of them raised by one.
pub open spec fn shifted_point<F: FieldArith>(point: Seq<F>, i: int) -> Seq<F> {
    point.subrange(i, point.len() as int).update(0, point[i].spec_add(F::spec_one()))
}

/// The claim after one round: the line through the old claim at the point's
/// coordinate and the shifted value one further, taken at the challenge.
pub open spec fn next_claim<F: FieldArith>(claim: F, next_eval: F, challenge: F, coordinate: F) -> F {
    claim.spec_add(challenge.spec_add(coordinate.spec_neg()).spec_mul(field_sub(next_eval, claim)))
}

/// The transcript after rounds `i ..` of an opening of the polynomial whose
/// remaining values are `evals`.
pub open spec fn shuffle_open_from<F: Field>(
    evals: Seq<F>,
    point: Seq<F>,
    i: nat,
    t: TranscriptState,
) -> TranscriptState
    decreases point.len() - i,
{
    if i >= point.len() {
        t
    } else {
        let next_eval = mle_eval(evals, shifted_point(point, i as int));
        let sent = t.append(next_eval.spec_serialize());
        let r = sent.challenge_fext::<F>();
        shuffle_open_from(fold_evals(evals, r), point, i + 1, sent.squeeze())
    }
}

/// The verdict of rounds `i ..` of a verification, with the claim `eval` at
/// the challenges `new_point` drawn so far.
pub open spec fn shuffle_verify_from<F: Field>(
    vals: Seq<F>,
    point: Seq<F>,
    i: nat,
    eval: F,
    new_point: Seq<F>,
    t: TranscriptState,
    proof_bytes: Seq<u8>,
    cursor: nat,
) -> bool
    decreases point.len() - i,
{
    if i >= point.len() {
        vals.len() == pow2(new_point.len()) && eval == mle_eval(vals, new_point)
    } else {
        match read_field::<F>(proof_bytes, cursor) {
            None => false,
            Some(next_eval) => {
                let sent = t.append(next_eval.spec_serialize());
                let r = sent.challenge_fext::<F>();
                shuffle_verify_from(
                    vals,
                    point,
                    i + 1,
                    next_claim(eval, next_eval, r, point[i as int]),
                    new_point.push(r),
                    sent.squeeze(),
                    proof_bytes,
                    cursor + F::spec_size(),
                )
            },
        }
    }
}

/// The transcript after rounds `i ..` of a verification: each round mirrors
/// the value it reads and draws a challenge.
pub open spec fn shuffle_mirror_from<F: Field>(
    rounds: nat,
    i: nat,
    t: TranscriptState,
    proof_bytes: Seq<u8>,
    cursor: nat,
) -> TranscriptState
    decreases rounds - i,
{
    if i >= rounds {
        t
    } else {
        match read_field::<F>(proof_bytes, cursor) {
            None => t,
            Some(next_eval) => shuffle_mirror_from::<F>(
                rounds,
                i + 1,
                t.append(next_eval.spec_serialize()).squeeze(),
                proof_bytes,
                cursor + F::spec_size(),
            ),
        }
    }
}

/// The claim moves along a line: a challenge equal to the point's coordinate
/// leaves it where it is, and a challenge one above the coordinate takes it
/// to the value that was sent.
pub proof fn lemma_next_claim_line<F: FieldArith>(claim: F, next_eval: F, coordinate: F)
    requires
        claim.wf(),
        next_eval.wf(),
        coordinate.wf(),
    ensures
        next_claim(claim, next_eval, coordinate, coordinate) == claim,
        next_claim(claim, next_eval, coordinate.spec_add(F::spec_one()), coordinate) == next_eval,
{
    let one = F::spec_one();
    let z = coordinate;
    let d = field_sub(next_eval, claim);
    F::lemma_constants_wf();
    F::lemma_closed(z, one);
    F::lemma_closed(claim, next_eval);
    F::lemma_closed(next_eval, claim.spec_neg());
    // (z - z) d = 0
    F::lemma_add_neg(z);
    lemma_mul_zero(d);
    F::lemma_add_zero(claim);
    // ((z + 1) - z) d = d
    F::lemma_add_commutative(z, one);
    F::lemma_add_associative(one, z, z.spec_neg());
    F::lemma_add_zero(one);
    lemma_one_mul(d);
    lemma_add_sub_cancel(claim, next_eval);
}

/// The claim after one round.
pub fn update_claim<F: FieldArith>(claim: &F, next_eval: &F, challenge: &F, coordinate: &F) -> (r: F)
    requires
        claim.wf(),
        next_eval.wf(),
        challenge.wf(),
        coordinate.wf(),
    ensures
        r == next_claim(*claim, *next_eval, *challenge, *coordinate),
        r.wf(),
{
    claim.add(&challenge.add(&coordinate.neg()).mul(&next_eval.sub(claim)))
}

/// The coordinates of `point` from `i` on, the first of them raised by one.
pub fn shift_point<F: FieldArith>(point: &[F], i: usize) -> (r: Vec<F>)
    requires
        i < point@.len(),
        all_wf(point@),
    ensures
        r@ == shifted_point(point@, i as int),
        all_wf(r@),
{
    let mut new_point = slice_to_vec(slice_subrange(point, i, point.len()));
    let first = new_point[0].add(&F::one());
    new_point[0] = first;
    new_point
}

pub struct ShufflePcProver<F: Field> {
    pub poly: MultiLinearPoly<F>,
}

impl<F: Field> PolyCommitProver<F> for ShufflePcProver<F> {
    type Param = ();

    type Commitment = RawCommitment<F>;

    open spec fn param_wf(pp: &(), var_num: nat) -> bool {
        pow2(var_num) * F::spec_size() <= usize::MAX
    }

    open spec fn wf(&self, pp: &()) -> bool {
        &&& self.poly.wf()
        &&& self.poly.evals@.len() * F::spec_size() <= usize::MAX
    }

    open spec fn poly_evals(&self) -> Seq<F> {
        self.poly.evals@
    }

    open spec fn spec_commitment(pp: &(), evals: Seq<F>) -> Seq<u8> {
        serialize_all(evals)
    }

    open spec fn spec_open(
        pp: &(),
        evals: Seq<F>,
        point: Seq<F>,
        t: TranscriptState,
    ) -> TranscriptState {
        shuffle_open_from(evals, point, 0, t)
    }

    fn new(pp: &(), poly: &MultiLinearPoly<F>) -> (r: Self) {
        ShufflePcProver { poly: poly.duplicate() }
    }

    fn commit(&self, pp: &()) -> (c: RawCommitment<F>) {
        RawCommitment { poly_vals: slice_to_vec(self.poly.evals.as_slice()) }
    }

    fn open(&self, pp: &(), point: &[F], transcript: &mut Transcript) {
        let mut poly_evals = slice_to_vec(self.poly.evals.as_slice());
        let n = point.len();
        let mut i: usize = 0;
        while i < n
            invariant
                i <= n == point@.len(),
                all_wf(point@),
                all_wf(poly_evals@),
                poly_evals@.len() == pow2((n - i) as nat),
                transcript.wf(),
                shuffle_open_from(poly_evals@, point@, i as nat, transcript@) == shuffle_open_from(
                    self.poly.evals@,
                    point@,
                    0,
                    old(transcript)@,
                ),
            decreases n - i,
        {
            let new_point = shift_point(point, i);
            let next_eval = MultiLinearPoly::<F>::eval_multilinear_ext(
                poly_evals.as_slice(),
                new_point.as_slice(),
            );
            transcript.append_f(next_eval);
            let r = transcript.challenge_fext::<F>();
            let new_len = poly_evals.len() / 2;
            let ghost before = poly_evals@;
            fold_in_place(&mut poly_evals, new_len, &r);
            proof {
                lemma_fold_prefix(before, poly_evals@, before.len(), r);
                assert(before.subrange(0, before.len() as int) =~= before);
                lemma_fold_evals_wf(before, r);
                lemma_pow2_monotone(0, (n - i - 1) as nat);
            }
            poly_evals.truncate(new_len);
            i += 1;
        }
    }
}

pub struct ShufflePcVerifier<F: Field> {
    pub commit: RawCommitment<F>,
}

impl<F: Field> PolyCommitVerifier<F> for ShufflePcVerifier<F> {
    type Param = ();

    type Commitment = RawCommitment<F>;

    open spec fn spec_verify(
        pp: &(),
        commitment: Seq<u8>,
        point: Seq<F>,
        eval: F,
        t: TranscriptState,
        proof_bytes: Seq<u8>,
        cursor: nat,
    ) -> bool {
        &&& commitment.len() == pow2(point.len()) * F::spec_size()
        &&& shuffle_verify_from(
            decode_all::<F>(commitment, pow2(point.len())),
            point,
            0,
            eval,
            Seq::empty(),
            t,
            proof_bytes,
            cursor,
        )
    }

    /// One element is read for each coordinate of the point.
    open spec fn spec_cursor_after(
        pp: &(),
        commitment: Seq<u8>,
        point: Seq<F>,
        eval: F,
        t: TranscriptState,
        proof_bytes: Seq<u8>,
        cursor: nat,
    ) -> nat {
        cursor + point.len() * F::spec_size()
    }

    open spec fn spec_transcript_after(
        pp: &(),
        commitment: Seq<u8>,
        point: Seq<F>,
        eval: F,
        t: TranscriptState,
        proof_bytes: Seq<u8>,
        cursor: nat,
    ) -> TranscriptState {
        shuffle_mirror_from::<F>(point.len(), 0, t, proof_bytes, cursor)
    }

    open spec fn param_wf(pp: &()) -> bool {
        true
    }

    open spec fn wf(&self, pp: &()) -> bool {
        self.commit.wf()
    }

    open spec fn spec_commitment(&self) -> Seq<u8> {
        serialize_all(self.commit.poly_vals@)
    }

    fn new(pp: &(), commit: RawCommitment<F>) -> (r: Self) {
        ShufflePcVerifier { commit }
    }

    fn verify(
        &self,
        pp: &(),
        point: &[F],
        eval: F,
        transcript: &mut Transcript,
        proof: &mut Proof,
    ) -> (r: bool) {
        let size = F::size();
        proof {
            lemma_serialize_all_len(self.commit.poly_vals@);
            lemma_decode_all_round_trip(self.commit.poly_vals@);
            lemma_count_from_width::<F>(self.commit.poly_vals@.len(), pow2(point@.len()));
        }
        if !is_pow2_of(self.commit.poly_vals.len(), point.len()) {
            return false;
        }
        let ghost verdict = shuffle_verify_from(
            self.commit.poly_vals@,
            point@,
            0,
            eval,
            Seq::empty(),
            old(transcript)@,
            old(proof).bytes@,
            old(proof).cursor(),
        );
        let mut claim = eval;
        let mut new_point: Vec<F> = Vec::new();
        let n = point.len();
        let mut i: usize = 0;
        while i < n
            invariant
                i <= n == point@.len(),
                all_wf(point@),
                all_wf(new_point@),
                new_point@.len() == i,
                self.commit.wf(),
                self.commit.poly_vals@.len() == pow2(n as nat),
                serialize_all(self.commit.poly_vals@).len() == pow2(n as nat) * F::spec_size(),
                decode_all::<F>(serialize_all(self.commit.poly_vals@), pow2(n as nat))
                    == self.commit.poly_vals@,
                claim.wf(),
                transcript.wf(),
                proof.bytes == old(proof).bytes,
                size == F::spec_size(),
                proof.cursor() == old(proof).cursor() + i * size,
                shuffle_mirror_from::<F>(
                    n as nat,
                    i as nat,
                    transcript@,
                    proof.bytes@,
                    proof.cursor(),
                ) == shuffle_mirror_from::<F>(
                    n as nat,
                    0,
                    old(transcript)@,
                    old(proof).bytes@,
                    old(proof).cursor(),
                ),
                verdict == shuffle_verify_from(
                    self.commit.poly_vals@,
                    point@,
                    0,
                    eval,
                    Seq::empty(),
                    old(transcript)@,
                    old(proof).bytes@,
                    old(proof).cursor(),
                ),
                shuffle_verify_from(
                    self.commit.poly_vals@,
                    point@,
                    i as nat,
                    claim,
                    new_point@,
                    transcript@,
                    proof.bytes@,
                    proof.cursor(),
                ) == verdict,
            decreases n - i,
        {
            let next_eval = match proof.get_next_and_step::<F>() {
                None => {
                    return false;
                },
                Some(x) => x,
            };
            transcript.append_f(next_eval);
            let r = transcript.challenge_fext::<F>();
            claim = update_claim(&claim, &next_eval, &r, &point[i]);
            new_point.push(r);
            proof {
                assert((i + 1) * size == i * size + size) by (nonlinear_arith);
            }
            i += 1;
        }
        let v = MultiLinearPoly::<F>::eval_multilinear_ext(
            self.commit.poly_vals.as_slice(),
            new_point.as_slice(),
        );
        claim.equals(&v)
    }
}

} // verus!
