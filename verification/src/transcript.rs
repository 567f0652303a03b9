//! The Fiat-Shamir transcript: everything the prover sends is appended to
//! the proof and absorbed; challenges are squeezed by hashing the running
//! digest, the bytes appended since the last squeeze and a counter.
use crate::field::encoding::{
    le_bytes, le_value, lemma_le_value_bound, lemma_pow256_values, push_le, read_le,
};
use crate::field::{Field, FieldArith, FieldSerde};
use crate::hash::sha2_256::{sha256, SHA256hasher, DIGEST_SIZE};
use crate::poly::all_wf;
use crate::poly_commit::raw::serialize_all;
use crate::prover::proof_buffer::Proof;
use vstd::prelude::*;

verus! {

/// What a transcript holds, as mathematical values.
pub struct TranscriptState {
    /// The running digest, 32 bytes.
    pub digest: Seq<u8>,
    /// How many bytes of the proof the digest has absorbed.
    pub absorbed: nat,
    /// How many challenges have been squeezed, modulo `2^64`.
    pub counter: nat,
    /// The proof so far.
    pub bytes: Seq<u8>,
}

impl TranscriptState {
    /// The state of a fresh transcript: an all-zero digest and no bytes.
    pub open spec fn initial() -> TranscriptState {
        TranscriptState { digest: Seq::new(32, |i: int| 0u8), absorbed: 0, counter: 0, bytes: Seq::empty() }
    }

    pub open spec fn wf(self) -> bool {
        &&& self.digest.len() == 32
        &&& self.absorbed <= self.bytes.len()
        &&& self.counter < 0x1_0000_0000_0000_0000
    }

    /// The state after `data` was appended.
    pub open spec fn append(self, data: Seq<u8>) -> TranscriptState {
        TranscriptState { bytes: self.bytes + data, ..self }
    }

    /// The bytes appended since the last squeeze.
    pub open spec fn pending(self) -> Seq<u8> {
        self.bytes.subrange(self.absorbed as int, self.bytes.len() as int)
    }

    /// What the next squeeze hashes: the digest, the pending bytes and the
    /// counter in eight little-endian bytes.
    pub open spec fn squeeze_input(self) -> Seq<u8> {
        self.digest + self.pending() + le_bytes(self.counter as int, 8)
    }

    /// The state after one squeeze.
    pub open spec fn squeeze(self) -> TranscriptState {
        TranscriptState {
            digest: sha256(self.squeeze_input()),
            absorbed: self.bytes.len(),
            counter: ((self.counter + 1) % 0x1_0000_0000_0000_0000) as nat,
            bytes: self.bytes,
        }
    }

    /// The state after `n` squeezes.
    pub open spec fn squeeze_n(self, n: nat) -> TranscriptState
        decreases n,
    {
        if n == 0 {
            self
        } else {
            self.squeeze_n((n - 1) as nat).squeeze()
        }
    }

    /// The base-field challenge that the next squeeze yields.
    pub open spec fn challenge_f<F: Field>(self) -> F::BaseField {
        F::BaseField::spec_from_uniform_bytes(self.squeeze().digest)
    }

    /// The field challenge that the next squeeze yields.
    pub open spec fn challenge_fext<F: Field>(self) -> F {
        F::spec_from_uniform_bytes(self.squeeze().digest)
    }

    /// The index word that the next squeeze yields.
    pub open spec fn challenge_usize(self) -> usize {
        le_value(self.squeeze().digest, 4) as usize
    }
}

/// Squeezing leaves the proof bytes alone.
pub proof fn lemma_squeeze_n_bytes(s: TranscriptState, n: nat)
    ensures
        s.squeeze_n(n).bytes == s.bytes,
    decreases n,
{
    if n > 0 {
        lemma_squeeze_n_bytes(s, (n - 1) as nat);
    }
}

pub struct Transcript {
    pub hasher: SHA256hasher,
    /// The running digest.
    pub digest: [u8; DIGEST_SIZE],
    /// How many bytes of the proof the digest has absorbed.
    pub hash_start_idx: usize,
    /// How many challenges have been squeezed.
    pub counter: u64,
    /// The proof so far.
    pub proof: Proof,
}

impl View for Transcript {
    type V = TranscriptState;

    open spec fn view(&self) -> TranscriptState {
        TranscriptState {
            digest: self.digest@,
            absorbed: self.hash_start_idx as nat,
            counter: self.counter as nat,
            bytes: self.proof.bytes@,
        }
    }
}

impl Transcript {
    /// The digest never runs ahead of the proof.
    pub open spec fn wf(&self) -> bool {
        self@.wf()
    }

    /// A fresh transcript.
    pub fn new() -> (t: Transcript)
        ensures
            t@ == TranscriptState::initial(),
            t.wf(),
    {
        let t = Transcript {
            hasher: SHA256hasher {  },
            digest: [0u8; DIGEST_SIZE],
            hash_start_idx: 0,
            counter: 0,
            proof: Proof::default(),
        };
        proof {
            assert(t.digest@ =~= TranscriptState::initial().digest);
            assert(t.proof.bytes@ =~= Seq::<u8>::empty());
        }
        t
    }

    /// Appends the first `size` bytes of `buffer` to the proof.
    pub fn append_u8_slice(&mut self, buffer: &[u8], size: usize)
        requires
            old(self).wf(),
            size <= buffer@.len(),
        ensures
            final(self)@ == old(self)@.append(buffer@.subrange(0, size as int)),
            final(self).wf(),
    {
        self.proof.append_u8_slice(buffer, size);
    }

    /// Appends the encoding of `f` to the proof.
    pub fn append_f<F: FieldSerde>(&mut self, f: F)
        requires
            old(self).wf(),
            f.wf(),
        ensures
            final(self)@ == old(self)@.append(f.spec_serialize()),
            final(self).wf(),
    {
        f.serialize_into(&mut self.proof.bytes);
    }

    /// Appends the encodings of `values`, in order, to the proof.
    pub fn append_fs<F: FieldSerde>(&mut self, values: &Vec<F>)
        requires
            old(self).wf(),
            all_wf(values@),
        ensures
            final(self)@ == old(self)@.append(serialize_all(values@)),
            final(self).wf(),
    {
        let mut j: usize = 0;
        proof {
            assert(values@.subrange(0, 0) =~= Seq::<F>::empty());
            assert(self.proof.bytes@ =~= old(self).proof.bytes@ + serialize_all(
                values@.subrange(0, 0),
            ));
        }
        while j < values.len()
            invariant
                j <= values@.len(),
                all_wf(values@),
                self.wf(),
                self@ == old(self)@.append(serialize_all(values@.subrange(0, j as int))),
            decreases values@.len() - j,
        {
            proof {
                let prefix = values@.subrange(0, j + 1);
                assert(prefix.drop_last() =~= values@.subrange(0, j as int));
                assert(prefix.last() == values@[j as int]);
                assert(old(self).proof.bytes@ + serialize_all(prefix.drop_last())
                    + prefix.last().spec_serialize() =~= old(self).proof.bytes@ + serialize_all(
                    prefix,
                ));
            }
            self.append_f(values[j]);
            j += 1;
        }
        proof {
            assert(values@.subrange(0, values@.len() as int) =~= values@);
        }
    }

    /// Absorbs what was appended since the last squeeze and advances the
    /// digest.
    pub fn hash_to_digest(&mut self)
        requires
            old(self).wf(),
        ensures
            final(self)@ == old(self)@.squeeze(),
            final(self).wf(),
    {
        let mut input: Vec<u8> = Vec::new();
        let mut i: usize = 0;
        while i < DIGEST_SIZE
            invariant
                i <= DIGEST_SIZE,
                input@ == self.digest@.subrange(0, i as int),
            decreases DIGEST_SIZE - i,
        {
            input.push(self.digest[i]);
            proof {
                assert(input@ =~= self.digest@.subrange(0, i + 1));
            }
            i += 1;
        }
        let end = self.proof.bytes.len();
        let mut j: usize = self.hash_start_idx;
        proof {
            assert(self.digest@.subrange(0, 32) =~= self.digest@);
            assert(input@ =~= self.digest@ + self.proof.bytes@.subrange(
                self.hash_start_idx as int,
                j as int,
            ));
        }
        while j < end
            invariant
                self.hash_start_idx <= j <= end == self.proof.bytes@.len(),
                input@ == self.digest@ + self.proof.bytes@.subrange(
                    self.hash_start_idx as int,
                    j as int,
                ),
            decreases end - j,
        {
            input.push(self.proof.bytes[j]);
            proof {
                assert(input@ =~= self.digest@ + self.proof.bytes@.subrange(
                    self.hash_start_idx as int,
                    j + 1,
                ));
            }
            j += 1;
        }
        push_le(&mut input, self.counter, 8);
        let len = input.len();
        proof {
            assert(input@.subrange(0, len as int) =~= input@);
        }
        self.digest = self.hasher.hash(input.as_slice(), len);
        self.hash_start_idx = end;
        self.counter = if self.counter == u64::MAX {
            0
        } else {
            self.counter + 1
        };
    }

    /// Squeezes one base-field challenge.
    pub fn challenge_f<F: Field>(&mut self) -> (r: F::BaseField)
        requires
            old(self).wf(),
        ensures
            final(self)@ == old(self)@.squeeze(),
            r == old(self)@.challenge_f::<F>(),
            r.wf(),
            final(self).wf(),
    {
        self.hash_to_digest();
        F::BaseField::from_uniform_bytes(&self.digest)
    }

    /// Squeezes one field challenge.
    pub fn challenge_fext<F: Field>(&mut self) -> (r: F)
        requires
            old(self).wf(),
        ensures
            final(self)@ == old(self)@.squeeze(),
            r == old(self)@.challenge_fext::<F>(),
            r.wf(),
            final(self).wf(),
    {
        self.hash_to_digest();
        F::from_uniform_bytes(&self.digest)
    }

    /// Squeezes `n` base-field challenges.
    pub fn challenge_fs<F: Field>(&mut self, n: usize) -> (r: Vec<F::BaseField>)
        requires
            old(self).wf(),
        ensures
            final(self)@ == old(self)@.squeeze_n(n as nat),
            r@.len() == n,
            forall|i: int|
                0 <= i < n ==> #[trigger] r@[i] == old(self)@.squeeze_n(i as nat).challenge_f::<F>(),
            forall|i: int| 0 <= i < n ==> (#[trigger] r@[i]).wf(),
            final(self).wf(),
    {
        let mut res: Vec<F::BaseField> = Vec::new();
        let mut k: usize = 0;
        while k < n
            invariant
                k <= n,
                self.wf(),
                self@ == old(self)@.squeeze_n(k as nat),
                res@.len() == k,
                forall|i: int|
                    0 <= i < k ==> #[trigger] res@[i] == old(self)@.squeeze_n(
                        i as nat,
                    ).challenge_f::<F>(),
                forall|i: int| 0 <= i < k ==> (#[trigger] res@[i]).wf(),
            decreases n - k,
        {
            let c = self.challenge_f::<F>();
            res.push(c);
            k += 1;
        }
        res
    }

    /// Squeezes `n` index words, four digest bytes each.
    pub fn challenge_usizes(&mut self, n: usize) -> (r: Vec<usize>)
        requires
            old(self).wf(),
        ensures
            final(self)@ == old(self)@.squeeze_n(n as nat),
            r@.len() == n,
            forall|i: int|
                0 <= i < n ==> #[trigger] r@[i] == old(self)@.squeeze_n(i as nat).challenge_usize(),
            final(self).wf(),
    {
        let mut res: Vec<usize> = Vec::new();
        let mut k: usize = 0;
        while k < n
            invariant
                k <= n,
                self.wf(),
                self@ == old(self)@.squeeze_n(k as nat),
                res@.len() == k,
                forall|i: int|
                    0 <= i < k ==> #[trigger] res@[i] == old(self)@.squeeze_n(
                        i as nat,
                    ).challenge_usize(),
            decreases n - k,
        {
            self.hash_to_digest();
            let w = read_le(self.digest.as_slice(), 0, 4);
            proof {
                lemma_le_value_bound(self.digest@, 0, 4);
                lemma_pow256_values();
            }
            res.push(w as usize);
            k += 1;
        }
        res
    }
}

} // verus!
