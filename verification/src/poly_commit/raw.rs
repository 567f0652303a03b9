//! The raw scheme: the prover does not commit at all, but sends the whole
//! polynomial, and the verifier evaluates it.
use crate::field::{pow2, Field, FieldArith, FieldSerde};
use crate::poly::{all_wf, is_pow2_of, mle_eval, MultiLinearPoly};
use crate::poly_commit::{CommitmentSerde, PolyCommitProver, PolyCommitVerifier};
use crate::prover::proof_buffer::Proof;
use crate::transcript::{Transcript, TranscriptState};
use vstd::prelude::*;
use vstd::slice::{slice_subrange, slice_to_vec};

verus! {

/// The opening of a raw commitment: nothing.
pub struct RawOpening {}

/// The values of the polynomial on the hypercube.
#[derive(Clone, Debug)]
pub struct RawCommitment<F: FieldSerde> {
    pub poly_vals: Vec<F>,
}

/// The encodings of the elements of `vals`, one after the other.
pub open spec fn serialize_all<F: FieldSerde>(vals: Seq<F>) -> Seq<u8>
    decreases vals.len(),
{
    if vals.len() == 0 {
        Seq::empty()
    } else {
        serialize_all(vals.drop_last()) + vals.last().spec_serialize()
    }
}

/// The encodings of the elements of `vals`, one after the other.
pub fn as_bytes_vec<F: FieldSerde>(vals: &[F]) -> (r: Vec<u8>)
    requires
        all_wf(vals@),
    ensures
        r@ == serialize_all(vals@),
{
    let mut out: Vec<u8> = Vec::new();
    let mut i: usize = 0;
    proof {
        assert(vals@.subrange(0, 0) =~= Seq::<F>::empty());
        assert(out@ =~= serialize_all(vals@.subrange(0, 0)));
    }
    while i < vals.len()
        invariant
            i <= vals@.len(),
            all_wf(vals@),
            out@ == serialize_all(vals@.subrange(0, i as int)),
        decreases vals@.len() - i,
    {
        proof {
            let prefix = vals@.subrange(0, i + 1);
            assert(prefix.drop_last() =~= vals@.subrange(0, i as int));
            assert(prefix.last() == vals@[i as int]);
        }
        vals[i].serialize_into(&mut out);
        i += 1;
    }
    proof {
        assert(vals@.subrange(0, vals@.len() as int) =~= vals@);
    }
    out
}

/// The head of `buffer` is `count` canonical encodings.
pub open spec fn decodes_all<F: FieldSerde>(buffer: Seq<u8>, count: nat) -> bool
    decreases count,
{
    if count == 0 {
        true
    } else {
        &&& decodes_all::<F>(buffer, (count - 1) as nat)
        &&& buffer.len() >= count * F::spec_size()
        &&& F::spec_is_canonical(
            buffer.subrange((count - 1) * F::spec_size(), buffer.len() as int),
        )
    }
}

/// Where `n` encodings can be read, so can fewer.
pub proof fn lemma_decodes_all_prefix<F: FieldSerde>(buffer: Seq<u8>, k: nat, n: nat)
    requires
        k <= n,
        decodes_all::<F>(buffer, n),
    ensures
        decodes_all::<F>(buffer, k),
    decreases n,
{
    if k < n {
        lemma_decodes_all_prefix::<F>(buffer, k, (n - 1) as nat);
    }
}

/// The encoding of `n` elements is `n` times as wide as one element.
pub proof fn lemma_serialize_all_len<F: FieldSerde>(vals: Seq<F>)
    requires
        all_wf(vals),
    ensures
        serialize_all(vals).len() == vals.len() * F::spec_size(),
    decreases vals.len(),
{
    if vals.len() > 0 {
        lemma_serialize_all_len(vals.drop_last());
        F::lemma_serialize_len(vals.last());
        assert((vals.len() - 1) * F::spec_size() + F::spec_size() == vals.len() * F::spec_size())
            by (nonlinear_arith);
    }
}

impl<F: FieldSerde> CommitmentSerde for RawCommitment<F> {
    open spec fn wf(&self) -> bool {
        &&& all_wf(self.poly_vals@)
        &&& self.poly_vals@.len() * F::spec_size() <= usize::MAX
    }

    open spec fn spec_serialize(&self) -> Seq<u8> {
        serialize_all(self.poly_vals@)
    }

    open spec fn spec_encoded_len(poly_size: nat) -> nat {
        poly_size * F::spec_size()
    }

    open spec fn spec_decodes(buffer: Seq<u8>, poly_size: nat) -> bool {
        decodes_all::<F>(buffer, poly_size)
    }

    fn size(&self) -> (n: usize) {
        proof {
            lemma_serialize_all_len(self.poly_vals@);
        }
        self.poly_vals.len() * F::size()
    }

    fn serialize_into(&self, buffer: &mut Vec<u8>) {
        let mut i: usize = 0;
        proof {
            assert(self.poly_vals@.subrange(0, 0) =~= Seq::<F>::empty());
            assert(buffer@ =~= old(buffer)@ + serialize_all(self.poly_vals@.subrange(0, 0)));
        }
        while i < self.poly_vals.len()
            invariant
                i <= self.poly_vals@.len(),
                all_wf(self.poly_vals@),
                buffer@ == old(buffer)@ + serialize_all(self.poly_vals@.subrange(0, i as int)),
            decreases self.poly_vals@.len() - i,
        {
            proof {
                let prefix = self.poly_vals@.subrange(0, i + 1);
                assert(prefix.drop_last() =~= self.poly_vals@.subrange(0, i as int));
                assert(prefix.last() == self.poly_vals@[i as int]);
                assert(old(buffer)@ + serialize_all(prefix.drop_last()) + prefix.last().spec_serialize()
                    =~= old(buffer)@ + serialize_all(prefix));
            }
            self.poly_vals[i].serialize_into(buffer);
            i += 1;
        }
        proof {
            assert(self.poly_vals@.subrange(0, self.poly_vals@.len() as int) =~= self.poly_vals@);
        }
    }

    fn deserialize_from(buffer: &[u8], poly_size: usize) -> (r: Option<Self>) {
        let size = F::size();
        let len = buffer.len();
        let mut poly_vals: Vec<F> = Vec::new();
        let mut i: usize = 0;
        proof {
            assert(serialize_all(poly_vals@) =~= buffer@.subrange(0, 0));
        }
        while i < poly_size
            invariant
                i <= poly_size,
                size == F::spec_size(),
                0 < size <= 32,
                len == buffer@.len(),
                poly_vals@.len() == i,
                all_wf(poly_vals@),
                i * size <= len,
                decodes_all::<F>(buffer@, i as nat),
                serialize_all(poly_vals@) == buffer@.subrange(0, i * size),
            decreases poly_size - i,
        {
            assert(i * size + size == (i + 1) * size) by (nonlinear_arith);
            if len - i * size < size {
                proof {
                    if decodes_all::<F>(buffer@, poly_size as nat) {
                        lemma_decodes_all_prefix::<F>(buffer@, (i + 1) as nat, poly_size as nat);
                    }
                }
                return None;
            }
            let rest = slice_subrange(buffer, i * size, len);
            match F::decode(rest) {
                None => {
                    proof {
                        if decodes_all::<F>(buffer@, poly_size as nat) {
                            lemma_decodes_all_prefix::<F>(
                                buffer@,
                                (i + 1) as nat,
                                poly_size as nat,
                            );
                        }
                    }
                    return None;
                },
                Some(x) => {
                    proof {
                        // a canonical encoding is the encoding of what it decodes to
                        F::lemma_deserialize_prefix(rest@);
                        lemma_decode_reencodes::<F>(rest@, x);
                        let before = poly_vals@;
                        let after = before.push(x);
                        assert(after.drop_last() =~= before);
                        assert(buffer@.subrange(0, i * size) + rest@.subrange(0, size as int)
                            =~= buffer@.subrange(0, (i + 1) * size));
                    }
                    poly_vals.push(x);
                },
            }
            i += 1;
        }
        proof {
            lemma_serialize_all_len(poly_vals@);
        }
        Some(RawCommitment { poly_vals })
    }
}

/// A canonical encoding is the encoding of the element that it decodes to.
pub proof fn lemma_decode_reencodes<F: FieldSerde>(bytes: Seq<u8>, x: F)
    requires
        bytes.len() >= F::spec_size(),
        F::spec_is_canonical(bytes),
        x == F::spec_deserialize(bytes),
        x.wf(),
    ensures
        x.spec_serialize() == bytes.subrange(0, F::spec_size() as int),
{
    F::lemma_canonical_reencodes(bytes);
}

pub struct RawCommitmentProver<F: Field> {
    pub poly: MultiLinearPoly<F>,
}

impl<F: Field> PolyCommitProver<F> for RawCommitmentProver<F> {
    type Param = ();

    type Commitment = RawCommitment<F>;

    open spec fn param_wf(pp: &(), var_num: nat) -> bool {
        pow2(var_num) * F::spec_size() <= usize::MAX
    }

    open spec fn wf(&self, pp: &()) -> bool {
        &&& self.poly.wf()
        &&& self.poly.evals@.len() * F::spec_size() <= usize::MAX
    }

    open spec fn poly_evals(&self) -> Seq<F> {
        self.poly.evals@
    }

    /// The commitment is the polynomial itself.
    open spec fn spec_commitment(pp: &(), evals: Seq<F>) -> Seq<u8> {
        serialize_all(evals)
    }

    /// Opening appends nothing: the commitment is the polynomial.
    open spec fn spec_open(
        pp: &(),
        evals: Seq<F>,
        point: Seq<F>,
        t: TranscriptState,
    ) -> TranscriptState {
        t
    }

    fn new(pp: &(), poly: &MultiLinearPoly<F>) -> (r: Self) {
        RawCommitmentProver { poly: poly.duplicate() }
    }

    fn commit(&self, pp: &()) -> (c: RawCommitment<F>) {
        RawCommitment { poly_vals: slice_to_vec(self.poly.evals.as_slice()) }
    }

    fn open(&self, pp: &(), point: &[F], transcript: &mut Transcript) {
    }
}

pub struct RawCommitmentVerifier<F: Field> {
    pub commit: RawCommitment<F>,
}

impl<F: Field> PolyCommitVerifier<F> for RawCommitmentVerifier<F> {
    type Param = ();

    type Commitment = RawCommitment<F>;

    /// The claim holds of the polynomial that was sent.
    open spec fn spec_verify(
        pp: &(),
        commitment: Seq<u8>,
        point: Seq<F>,
        eval: F,
        t: TranscriptState,
        proof_bytes: Seq<u8>,
        cursor: nat,
    ) -> bool {
        &&& commitment.len() == pow2(point.len()) * F::spec_size()
        &&& eval == mle_eval(decode_all::<F>(commitment, pow2(point.len())), point)
    }

    /// Nothing is read.
    open spec fn spec_cursor_after(
        pp: &(),
        commitment: Seq<u8>,
        point: Seq<F>,
        eval: F,
        t: TranscriptState,
        proof_bytes: Seq<u8>,
        cursor: nat,
    ) -> nat {
        cursor
    }

    /// Nothing is mirrored.
    open spec fn spec_transcript_after(
        pp: &(),
        commitment: Seq<u8>,
        point: Seq<F>,
        eval: F,
        t: TranscriptState,
        proof_bytes: Seq<u8>,
        cursor: nat,
    ) -> TranscriptState {
        t
    }

    open spec fn param_wf(pp: &()) -> bool {
        true
    }

    open spec fn wf(&self, pp: &()) -> bool {
        self.commit.wf()
    }

    open spec fn spec_commitment(&self) -> Seq<u8> {
        serialize_all(self.commit.poly_vals@)
    }

    fn new(pp: &(), commit: RawCommitment<F>) -> (r: Self) {
        RawCommitmentVerifier { commit }
    }

    fn verify(
        &self,
        pp: &(),
        point: &[F],
        eval: F,
        transcript: &mut Transcript,
        proof: &mut Proof,
    ) -> (r: bool) {
        let size = F::size();
        proof {
            lemma_serialize_all_len(self.commit.poly_vals@);
            lemma_decode_all_round_trip(self.commit.poly_vals@);
            lemma_count_from_width::<F>(self.commit.poly_vals@.len(), pow2(point@.len()));
        }
        if !is_pow2_of(self.commit.poly_vals.len(), point.len()) {
            return false;
        }
        let v = MultiLinearPoly::<F>::eval_multilinear_ext(self.commit.poly_vals.as_slice(), point);
        eval.equals(&v)
    }
}

/// The `count` elements that the head of `bytes` decodes to.
pub open spec fn decode_all<F: FieldSerde>(bytes: Seq<u8>, count: nat) -> Seq<F> {
    Seq::new(
        count,
        |i: int| F::spec_deserialize(bytes.subrange(i * F::spec_size(), bytes.len() as int)),
    )
}

/// Encodings of as many elements are as wide, and only those.
pub proof fn lemma_count_from_width<F: FieldSerde>(a: nat, b: nat)
    requires
        F::spec_size() > 0,
    ensures
        (a == b) == (a * F::spec_size() == b * F::spec_size()),
{
    let w = F::spec_size();
    assert((a == b) == (a * w == b * w)) by (nonlinear_arith)
        requires
            w > 0,
    ;
}

/// The encoding of a sequence, cut after its first `i` elements: what is
/// left starts with the encoding of element `i`.
proof fn lemma_serialize_all_tail<F: FieldSerde>(vals: Seq<F>, i: int)
    requires
        all_wf(vals),
        0 <= i < vals.len(),
    ensures
        i * F::spec_size() + F::spec_size() <= serialize_all(vals).len(),
        serialize_all(vals).subrange(i * F::spec_size(), i * F::spec_size() + F::spec_size())
            == vals[i].spec_serialize(),
    decreases vals.len(),
{
    let w = F::spec_size();
    let n = vals.len();
    lemma_serialize_all_len(vals);
    lemma_serialize_all_len(vals.drop_last());
    F::lemma_serialize_len(vals.last());
    assert(i * w + w <= n * w) by (nonlinear_arith)
        requires
            0 <= i < n,
            w >= 0,
    ;
    assert((n - 1) * w + w == n * w) by (nonlinear_arith);
    let all = serialize_all(vals);
    let head = serialize_all(vals.drop_last());
    if i == n - 1 {
        assert(all.subrange(i * w, i * w + w) =~= vals.last().spec_serialize());
    } else {
        assert(all_wf(vals.drop_last()));
        lemma_serialize_all_tail(vals.drop_last(), i);
        assert(vals.drop_last()[i] == vals[i]);
        assert(all.subrange(i * w, i * w + w) =~= head.subrange(i * w, i * w + w));
    }
}

/// Decoding the encoding of a sequence of canonical elements gives the
/// sequence back.
pub proof fn lemma_decode_all_round_trip<F: FieldSerde>(vals: Seq<F>)
    requires
        all_wf(vals),
    ensures
        decode_all::<F>(serialize_all(vals), vals.len()) == vals,
{
    let w = F::spec_size() as int;
    let all = serialize_all(vals);
    assert forall|i: int| 0 <= i < vals.len() implies decode_all::<F>(all, vals.len())[i]
        == vals[i] by {
        lemma_serialize_all_tail(vals, i);
        let tail = all.subrange(i * w, all.len() as int);
        let rest = all.subrange(i * w + w, all.len() as int);
        assert(tail =~= vals[i].spec_serialize() + rest) by {
            assert(tail.subrange(0, w) =~= all.subrange(i * w, i * w + w));
        }
        F::lemma_serialize_round_trip(vals[i], rest);
    }
    assert(decode_all::<F>(all, vals.len()) =~= vals);
}

/// The verifier accepts the value at `point` of the very polynomial that the
/// prover committed to.
pub proof fn lemma_raw_round_trip<F: Field>(
    evals: Seq<F>,
    point: Seq<F>,
    t: TranscriptState,
    proof_bytes: Seq<u8>,
    cursor: nat,
)
    requires
        all_wf(evals),
        evals.len() == pow2(point.len()),
    ensures
        RawCommitmentVerifier::<F>::spec_verify(
            &(),
            RawCommitmentProver::<F>::spec_commitment(&(), evals),
            point,
            mle_eval(evals, point),
            RawCommitmentProver::<F>::spec_open(&(), evals, point, t),
            proof_bytes,
            cursor,
        ),
{
    lemma_serialize_all_len(evals);
    lemma_decode_all_round_trip(evals);
}

} // verus!
