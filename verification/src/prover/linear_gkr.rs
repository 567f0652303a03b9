//! The whole prover: commitment, grinding, the reduction of the output claim
//! to the input, the merging of the claims on the input, and the opening.
use crate::circuit::Circuit;
use crate::config::{Config, FiatShamirHashType, PolynomialCommitmentType};
use crate::field::{lemma_pow2_bound, pow2, Field, FieldArith, FieldSerde};
use crate::hash::sha2_256::sha256_iterated;
use crate::poly::{all_wf, MultiLinearPoly};
use crate::poly_commit::{CommitmentSerde, PolyCommitProver};
use crate::prover::gkr::{gkr_proof, gkr_prove, layers_have_inputs, lemma_single_output_claim};
use crate::prover::proof_buffer::Proof;
use crate::prover::sumcheck::{merge_claims, merge_multilinear_evals, vec_views};
use crate::prover::sumcheck_helper::GkrScratchpad;
use crate::transcript::{Transcript, TranscriptState};
use vstd::prelude::*;
use vstd::slice::slice_to_vec;

verus! {

/// `buf` with `data` written over it from `offset` on, as far as it fits.
pub open spec fn write_at(buf: Seq<u8>, offset: int, data: Seq<u8>) -> Seq<u8> {
    Seq::new(
        buf.len(),
        |p: int|
            if offset <= p < offset + data.len() {
                data[p - offset]
            } else {
                buf[p]
            },
    )
}

/// The seed of the grinding: the encodings of the elements from element `k`
/// on, written into `buf` at multiples of `step`.
pub open spec fn grind_seed_from<B: FieldSerde>(elems: Seq<B>, step: nat, k: nat, buf: Seq<u8>) -> Seq<
    u8,
>
    decreases elems.len() - k,
{
    if k >= elems.len() {
        buf
    } else {
        grind_seed_from(
            elems,
            step,
            k + 1,
            write_at(buf, (k * step) as int, elems[k as int].spec_serialize()),
        )
    }
}

/// The challenges that the next `count` squeezes yield.
pub open spec fn challenges_f<F: Field>(t: TranscriptState, count: nat) -> Seq<F::BaseField> {
    Seq::new(count, |k: int| t.squeeze_n(k as nat).challenge_f::<F>())
}

/// The transcript after grinding: challenges worth 256 bits are drawn and
/// packed into a seed of 32 bytes, the seed is hashed `2^grinding_bits`
/// times, and the result is appended.
pub open spec fn grind_transcript<F: Field>(t: TranscriptState, config: Config) -> TranscriptState {
    let count = (256int / config.field_size as int) as nat;
    let step = ((config.field_size + 7) / 8) as nat;
    let seed = grind_seed_from(challenges_f::<F>(t, count), step, 0, Seq::new(32, |i: int| 0u8));
    t.squeeze_n(count).append(sha256_iterated(seed, pow2(config.grinding_bits as nat)))
}

/// Writes `data` over `buf` from `offset` on, as far as it fits.
pub fn write_bytes_at(buf: &mut [u8; 32], offset: usize, data: &Vec<u8>)
    requires
        offset + data@.len() <= usize::MAX,
    ensures
        final(buf)@ == write_at(old(buf)@, offset as int, data@),
{
    let mut p: usize = 0;
    while p < data.len()
        invariant
            p <= data@.len(),
            offset + data@.len() <= usize::MAX,
            forall|q: int|
                0 <= q < 32 ==> #[trigger] buf@[q] == (if offset <= q < offset + p {
                    data@[q - offset]
                } else {
                    old(buf)@[q]
                }),
        decreases data@.len() - p,
    {
        if offset + p < 32 {
            buf[offset + p] = data[p];
        }
        p += 1;
    }
    proof {
        assert(buf@ =~= write_at(old(buf)@, offset as int, data@));
    }
}

/// Grinds: draws challenges worth 256 bits, hashes them `2^grinding_bits`
/// times over, and appends the result to the proof.
pub fn grind<F: Field>(transcript: &mut Transcript, config: &Config)
    requires
        old(transcript).wf(),
        config.wf(),
    ensures
        final(transcript)@ == grind_transcript::<F>(old(transcript)@, *config),
        final(transcript)@.bytes.len() == old(transcript)@.bytes.len() + 32,
        final(transcript)@.bytes.subrange(0, old(transcript)@.bytes.len() as int) == old(
            transcript,
        )@.bytes,
        final(transcript).wf(),
{
    let count = 256 / config.field_size;
    let step = (config.field_size + 7) / 8;
    let initial_hash = transcript.challenge_fs::<F>(count);
    proof {
        assert(initial_hash@ =~= challenges_f::<F>(old(transcript)@, count as nat));
    }
    let mut hash_bytes = [0u8; 32];
    let ghost zeros = hash_bytes@;
    proof {
        assert(zeros =~= Seq::new(32, |i: int| 0u8));
    }
    let mut offset: usize = 0;
    let mut k: usize = 0;
    while k < count
        invariant
            k <= count == initial_hash@.len(),
            count <= 256,
            step <= 33,
            offset == k * step,
            all_wf(initial_hash@),
            grind_seed_from(initial_hash@, step as nat, k as nat, hash_bytes@) == grind_seed_from(
                initial_hash@,
                step as nat,
                0,
                zeros,
            ),
        decreases count - k,
    {
        let mut encoded: Vec<u8> = Vec::new();
        initial_hash[k].serialize_into(&mut encoded);
        proof {
            F::BaseField::lemma_serialize_len(initial_hash@[k as int]);
            let size = F::BaseField::spec_size();
            assert(encoded@ =~= initial_hash@[k as int].spec_serialize());
            assert(k * step <= 256 * 33) by (nonlinear_arith)
                requires
                    k <= 256,
                    step <= 33,
            ;
            assert((k + 1) * step == k * step + step) by (nonlinear_arith);
        }
        let size = F::BaseField::size();
        write_bytes_at(&mut hash_bytes, offset, &encoded);
        offset += step;
        k += 1;
    }
    let mut rounds: u64 = 1;
    let mut b: usize = 0;
    while b < config.grinding_bits
        invariant
            b <= config.grinding_bits < 64,
            rounds == pow2(b as nat),
        decreases config.grinding_bits - b,
    {
        proof {
            lemma_pow2_bound(b as nat);
            lemma_pow2_bound((b + 1) as nat);
        }
        rounds = rounds * 2;
        b += 1;
    }
    let ghost seed = hash_bytes@;
    let mut done: u64 = 0;
    while done < rounds
        invariant
            done <= rounds,
            hash_bytes@ == sha256_iterated(seed, done as nat),
        decreases rounds - done,
    {
        transcript.hasher.hash_inplace(&mut hash_bytes);
        done += 1;
    }
    proof {
        crate::transcript::lemma_squeeze_n_bytes(old(transcript)@, count as nat);
    }
    transcript.append_u8_slice(hash_bytes.as_slice(), 32);
    proof {
        assert(hash_bytes@.subrange(0, 32) =~= hash_bytes@);
        assert(transcript@.bytes.subrange(0, old(transcript)@.bytes.len() as int) =~= old(
            transcript,
        )@.bytes);
    }
}

/// The maximum of `f` over the layers `0 .. count`.
pub open spec fn max_input_vars<F: Field>(circuit: Circuit<F>, count: nat) -> nat
    decreases count,
{
    if count == 0 {
        0
    } else {
        let rest = max_input_vars(circuit, (count - 1) as nat);
        let here = circuit.layers@[count - 1].input_var_num as nat;
        if here > rest {
            here
        } else {
            rest
        }
    }
}

/// The largest number of output variables among the layers `0 .. count`.
pub open spec fn max_output_vars<F: Field>(circuit: Circuit<F>, count: nat) -> nat
    decreases count,
{
    if count == 0 {
        0
    } else {
        let rest = max_output_vars(circuit, (count - 1) as nat);
        let here = circuit.layers@[count - 1].output_var_num as nat;
        if here > rest {
            here
        } else {
            rest
        }
    }
}

/// The claimed output values and the final transcript of a proof: the
/// commitment to the input is absorbed, the transcript is ground, the claim
/// on the output is reduced to claims on the input, those are merged into
/// one, and the commitment is opened at the merged point.
pub open spec fn proof_transcript<F: Field, PC: PolyCommitProver<F>>(
    pp: &PC::Param,
    circuit: Circuit<F>,
    config: Config,
) -> (Seq<F>, TranscriptState) {
    let input = circuit.layers@[0].input_vals.evals@;
    let committed = TranscriptState::initial().append(PC::spec_commitment(pp, input));
    let ground = grind_transcript::<F>(committed, config);
    let (claimed, rz0, rz1, reduced) = gkr_proof(circuit, config.num_repetitions as nat, ground);
    let (point, merged) = merge_claims(
        input,
        rz0 + rz1,
        circuit.layers@[0].input_var_num as nat,
        reduced,
    );
    (claimed, PC::spec_open(pp, input, point, merged))
}

/// Of a circuit whose last layer has a single output wire, a proof claims
/// the value on that wire, in every repetition.
pub proof fn lemma_proof_claims_single_output<F: Field, PC: PolyCommitProver<F>>(
    pp: &PC::Param,
    circuit: Circuit<F>,
    config: Config,
    j: int,
)
    requires
        circuit.layers@.len() >= 1,
        circuit.layers@.last().output_var_num == 0,
        0 <= j < config.num_repetitions,
    ensures
        proof_transcript::<F, PC>(pp, circuit, config).0.len() == config.num_repetitions,
        proof_transcript::<F, PC>(pp, circuit, config).0[j]
            == circuit.layers@.last().output_vals.evals@[0],
{
    let input = circuit.layers@[0].input_vals.evals@;
    let committed = TranscriptState::initial().append(PC::spec_commitment(pp, input));
    let ground = grind_transcript::<F>(committed, config);
    lemma_single_output_claim(circuit, config.num_repetitions as nat, ground, j);
}

pub struct Prover<F: Field, PC: PolyCommitProver<F>> {
    pub config: Config,
    pub sp: Vec<GkrScratchpad<F>>,
    pub pp: PC::Param,
}

impl<F: Field, PC: PolyCommitProver<F>> Prover<F, PC> {
    /// A prover for `config`, which names SHA-256 as the transcript hash and
    /// the raw scheme as the commitment type, with the parameters `pp` of
    /// the commitment scheme in use.
    pub fn new(config: &Config, pp: PC::Param) -> (r: Self)
        requires
            config.fs_hash == FiatShamirHashType::SHA256,
            config.polynomial_commitment_type == PolynomialCommitmentType::Raw,
        ensures
            r.config == *config,
            r.pp == pp,
            r.sp@.len() == 0,
    {
        Prover { config: *config, sp: Vec::new(), pp }
    }

    /// Sets up one scratchpad for each repetition, each empty and sized for
    /// the widest layer of `c`. What the scratchpads held before is dropped,
    /// so a second call leaves what the first one left.
    pub fn prepare_mem(&mut self, c: &Circuit<F>)
        requires
            c.layers@.len() >= 1,
        ensures
            final(self).config == old(self).config,
            final(self).pp == old(self).pp,
            final(self).sp@.len() == old(self).config.num_repetitions,
            forall|k: int|
                0 <= k < final(self).sp@.len() ==> (#[trigger] final(self).sp@[k]).fresh(
                    max_input_vars(*c, c.layers@.len()),
                    max_output_vars(*c, c.layers@.len()),
                ),
    {
        let mut max_num_input_var: usize = 0;
        let mut max_num_output_var: usize = 0;
        let mut i: usize = 0;
        while i < c.layers.len()
            invariant
                i <= c.layers@.len(),
                max_num_input_var == max_input_vars(*c, i as nat),
                max_num_output_var == max_output_vars(*c, i as nat),
            decreases c.layers@.len() - i,
        {
            if c.layers[i].input_var_num > max_num_input_var {
                max_num_input_var = c.layers[i].input_var_num;
            }
            if c.layers[i].output_var_num > max_num_output_var {
                max_num_output_var = c.layers[i].output_var_num;
            }
            i += 1;
        }
        let reps = self.config.get_num_repetitions();
        let mut sp: Vec<GkrScratchpad<F>> = Vec::new();
        let mut k: usize = 0;
        while k < reps
            invariant
                k <= reps,
                sp@.len() == k,
                forall|m: int|
                    0 <= m < k ==> (#[trigger] sp@[m]).fresh(
                        max_num_input_var as nat,
                        max_num_output_var as nat,
                    ),
            decreases reps - k,
        {
            sp.push(GkrScratchpad::new(max_num_input_var, max_num_output_var));
            k += 1;
        }
        self.sp = sp;
    }

    /// Proves the evaluation of `c`. Yields the claimed output values and
    /// the proof.
    pub fn prove(&mut self, c: &Circuit<F>) -> (r: (Vec<F>, Proof))
        requires
            c.evaluated(),
            layers_have_inputs(*c),
            old(self).config.wf(),
            old(self).sp@.len() == old(self).config.num_repetitions,
            old(self).config.num_repetitions <= usize::MAX / 2,
            PC::param_wf(&old(self).pp, c.layers@[0].input_var_num as nat),
        ensures
            final(self).config == old(self).config,
            final(self).pp == old(self).pp,
            final(self).sp@.len() == old(self).sp@.len(),
            r.0@ == proof_transcript::<F, PC>(&old(self).pp, *c, old(self).config).0,
            r.1.bytes@ == proof_transcript::<F, PC>(&old(self).pp, *c, old(self).config).1.bytes,
            r.1.cursor() == 0,
    {
        proof {
            assert(c.layers@[0].evaluated());
        }
        let first = &c.layers[0];
        let poly = MultiLinearPoly {
            var_num: first.input_var_num,
            evals: slice_to_vec(first.input_vals.evals.as_slice()),
        };
        let pc_prover = PC::new(&self.pp, &poly);
        let commitment = pc_prover.commit(&self.pp);
        let mut buffer: Vec<u8> = Vec::new();
        commitment.serialize_into(&mut buffer);
        let size = commitment.size();
        let mut transcript = Transcript::new();
        transcript.append_u8_slice(buffer.as_slice(), size);
        proof {
            assert(buffer@ =~= commitment.spec_serialize());
            assert(buffer@.subrange(0, size as int) =~= buffer@);
        }
        grind::<F>(&mut transcript, &self.config);
        let (claimed_v, rz0s, rz1s) = gkr_prove(c, &mut self.sp, &mut transcript, &self.config);
        let reps = rz0s.len();
        let mut zs = rz0s;
        let ghost first_points = vec_views(zs@);
        let mut j: usize = 0;
        while j < reps
            invariant
                j <= reps == rz1s@.len(),
                zs@.len() == reps + j,
                vec_views(zs@) == first_points + vec_views(rz1s@).subrange(0, j as int),
            decreases reps - j,
        {
            let ghost before = vec_views(zs@);
            zs.push(slice_to_vec(rz1s[j].as_slice()));
            proof {
                assert(vec_views(zs@) =~= before.push(rz1s@[j as int]@));
                assert(vec_views(rz1s@).subrange(0, j + 1) =~= vec_views(rz1s@).subrange(
                    0,
                    j as int,
                ).push(rz1s@[j as int]@));
                assert(vec_views(zs@) =~= first_points + vec_views(rz1s@).subrange(0, j + 1));
            }
            j += 1;
        }
        proof {
            assert(vec_views(rz1s@).subrange(0, reps as int) =~= vec_views(rz1s@));
            assert forall|k: int| 0 <= k < zs@.len() implies (#[trigger] vec_views(zs@)[k]).len()
                == first.input_var_num && all_wf(vec_views(zs@)[k]) by {
                if k < reps {
                    assert(vec_views(zs@)[k] == first_points[k]);
                } else {
                    assert(vec_views(zs@)[k] == vec_views(rz1s@)[k - reps]);
                }
            }
        }
        let new_point = merge_multilinear_evals(poly, zs, &mut transcript);
        pc_prover.open(&self.pp, new_point.as_slice(), &mut transcript);
        let mut proof = transcript.proof;
        proof.idx = 0;
        (claimed_v, proof)
    }
}

} // verus!
