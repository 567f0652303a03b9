//! Polynomial commitment schemes for multilinear polynomials.
pub mod deepfold;
pub mod raw;
pub mod shuffle;


use crate::field::Field;
use crate::poly::{all_wf, MultiLinearPoly};
use crate::prover::proof_buffer::Proof;
use crate::transcript::{Transcript, TranscriptState};
use vstd::prelude::*;

verus! {

/// A commitment that travels at the head of a proof.
pub trait CommitmentSerde: Sized {
    /// The commitment is one that the scheme can produce.
    spec fn wf(&self) -> bool;

    /// The bytes that stand for the commitment in a proof.
    spec fn spec_serialize(&self) -> Seq<u8>;

    /// The width of the encoding of a commitment to a polynomial with
    /// `poly_size` values.
    spec fn spec_encoded_len(poly_size: nat) -> nat;

    /// Whether the head of `buffer` is the encoding of a commitment to a
    /// polynomial with `poly_size` values.
    spec fn spec_decodes(buffer: Seq<u8>, poly_size: nat) -> bool;

    /// The width of the encoding in bytes.
    fn size(&self) -> (n: usize)
        requires
            self.wf(),
        ensures
            n == self.spec_serialize().len(),
    ;

    /// Appends the encoding to `buffer`.
    fn serialize_into(&self, buffer: &mut Vec<u8>)
        requires
            self.wf(),
        ensures
            final(buffer)@ == old(buffer)@ + self.spec_serialize(),
    ;

    /// Reads a commitment to a polynomial with `poly_size` values from the
    /// head of `buffer`. Fails on a short buffer and on an encoding that no
    /// commitment has; what is read encodes to the bytes it was read from.
    fn deserialize_from(buffer: &[u8], poly_size: usize) -> (r: Option<Self>)
        ensures
            r.is_some() == Self::spec_decodes(buffer@, poly_size as nat),
            r matches Some(c) ==> c.wf() && c.spec_serialize().len() == Self::spec_encoded_len(
                poly_size as nat,
            ) && c.spec_serialize().len() <= buffer@.len() && c.spec_serialize()
                == buffer@.subrange(0, c.spec_serialize().len() as int),
    ;
}

/// The committing side of a scheme.
pub trait PolyCommitProver<F: Field>: Sized {
    type Param;

    type Commitment: CommitmentSerde;

    /// The parameters fit polynomials in `var_num` variables.
    spec fn param_wf(pp: &Self::Param, var_num: nat) -> bool;

    /// The prover's state is consistent with the parameters.
    spec fn wf(&self, pp: &Self::Param) -> bool;

    /// The values of the committed polynomial on the hypercube.
    spec fn poly_evals(&self) -> Seq<F>;

    /// The encoding of the commitment to the polynomial with the values
    /// `evals`.
    spec fn spec_commitment(pp: &Self::Param, evals: Seq<F>) -> Seq<u8>;

    /// The transcript after the opening at `point` of the polynomial with
    /// the values `evals` was appended to `t`.
    spec fn spec_open(
        pp: &Self::Param,
        evals: Seq<F>,
        point: Seq<F>,
        t: TranscriptState,
    ) -> TranscriptState;

    fn new(pp: &Self::Param, poly: &MultiLinearPoly<F>) -> (r: Self)
        requires
            poly.wf(),
            Self::param_wf(pp, poly.var_num as nat),
        ensures
            r.wf(pp),
            r.poly_evals() == poly.evals@,
    ;

    fn commit(&self, pp: &Self::Param) -> (c: Self::Commitment)
        requires
            self.wf(pp),
        ensures
            c.wf(),
            c.spec_serialize() == Self::spec_commitment(pp, self.poly_evals()),
    ;

    /// Appends to the transcript what convinces a verifier of the value of
    /// the committed polynomial at `point`.
    fn open(&self, pp: &Self::Param, point: &[F], transcript: &mut Transcript)
        requires
            self.wf(pp),
            old(transcript).wf(),
            all_wf(point@),
            self.poly_evals().len() == crate::field::pow2(point@.len()),
        ensures
            final(transcript)@ == Self::spec_open(
                pp,
                self.poly_evals(),
                point@,
                old(transcript)@,
            ),
            final(transcript).wf(),
    ;
}

/// The checking side of a scheme.
pub trait PolyCommitVerifier<F: Field>: Sized {
    type Param;

    type Commitment: CommitmentSerde;

    /// The verdict on the claim that the polynomial behind the encoded
    /// commitment `commitment` takes the value `eval` at `point`, given the
    /// transcript so far and the proof bytes from `cursor` on.
    spec fn spec_verify(
        pp: &Self::Param,
        commitment: Seq<u8>,
        point: Seq<F>,
        eval: F,
        t: TranscriptState,
        proof_bytes: Seq<u8>,
        cursor: nat,
    ) -> bool;

    /// The read position of the proof after an opening that was accepted.
    spec fn spec_cursor_after(
        pp: &Self::Param,
        commitment: Seq<u8>,
        point: Seq<F>,
        eval: F,
        t: TranscriptState,
        proof_bytes: Seq<u8>,
        cursor: nat,
    ) -> nat;

    /// The transcript after an opening that was accepted.
    spec fn spec_transcript_after(
        pp: &Self::Param,
        commitment: Seq<u8>,
        point: Seq<F>,
        eval: F,
        t: TranscriptState,
        proof_bytes: Seq<u8>,
        cursor: nat,
    ) -> TranscriptState;

    /// The parameters are usable.
    spec fn param_wf(pp: &Self::Param) -> bool;

    /// The verifier's state is consistent with the parameters.
    spec fn wf(&self, pp: &Self::Param) -> bool;

    /// The encoding of the commitment that the verifier checks against.
    spec fn spec_commitment(&self) -> Seq<u8>;

    fn new(pp: &Self::Param, commit: Self::Commitment) -> (r: Self)
        requires
            commit.wf(),
            Self::param_wf(pp),
        ensures
            r.spec_commitment() == commit.spec_serialize(),
            r.wf(pp),
    ;

    /// Checks the opening that starts at the proof's read position. The
    /// proof's bytes stay as they are; an accepted opening has been read to
    /// its end and mirrored into the transcript.
    fn verify(
        &self,
        pp: &Self::Param,
        point: &[F],
        eval: F,
        transcript: &mut Transcript,
        proof: &mut Proof,
    ) -> (r: bool)
        requires
            Self::param_wf(pp),
            self.wf(pp),
            old(transcript).wf(),
            all_wf(point@),
            eval.wf(),
        ensures
            r == Self::spec_verify(
                pp,
                self.spec_commitment(),
                point@,
                eval,
                old(transcript)@,
                old(proof).bytes@,
                old(proof).cursor(),
            ),
            final(proof).bytes == old(proof).bytes,
            r ==> final(proof).cursor() == Self::spec_cursor_after(
                pp,
                self.spec_commitment(),
                point@,
                eval,
                old(transcript)@,
                old(proof).bytes@,
                old(proof).cursor(),
            ),
            r ==> final(transcript)@ == Self::spec_transcript_after(
                pp,
                self.spec_commitment(),
                point@,
                eval,
                old(transcript)@,
                old(proof).bytes@,
                old(proof).cursor(),
            ),
            final(transcript).wf(),
    ;
}

} // verus!
