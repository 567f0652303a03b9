//! DeepFold: a commitment to a multilinear polynomial by the Merkle root of
//! its values on a multiplicative subgroup, opened by folding polynomial and
//! codeword round by round and answering random queries on every codeword.
use crate::field::algebra::field_sub;
use crate::field::{
    lemma_pow2_monotone, lemma_pow2_strict, pow2, Field, FieldArith, FieldSerde, TwoAdicField,
};
use crate::hash::merkle_tree::{
    ascending, dedup, dedup_vec, helper_count, leaf_hashes, lemma_dedup_ascending,
    lemma_dedup_len, log2_floor, merkle_proof, merkle_proof_root, merkle_root, picked,
    MerkleTreeProver, MerkleTreeVerifier, HASH_SIZE,
};
use crate::mul_group::{poly_eval, Radix2Group};
use crate::poly::{
    all_wf, fold_evals, fold_in_place, lemma_fold_evals_wf, lemma_fold_prefix, mle_eval,
    MultiLinearPoly,
};
use crate::poly_commit::raw::serialize_all;
use crate::poly_commit::shuffle::{next_claim, shift_point, shifted_point, update_claim};
use crate::poly_commit::{CommitmentSerde, PolyCommitProver, PolyCommitVerifier};
use crate::prover::proof_buffer::{read_field, read_slice, Proof};
use crate::transcript::{Transcript, TranscriptState};
use std::collections::HashMap;
use std::marker::PhantomData;
use vstd::prelude::*;
use vstd::relations::{sorted_by, total_ordering};
use vstd::slice::slice_to_vec;

verus! {

/// The root of the Merkle tree over a codeword.
#[derive(Clone, Copy, Debug)]
pub struct MerkleRoot(pub [u8; HASH_SIZE]);

impl Default for MerkleRoot {
    fn default() -> (r: MerkleRoot)
        ensures
            r.0@ == Seq::new(32, |i: int| 0u8),
    {
        let r = MerkleRoot([0u8; HASH_SIZE]);
        proof {
            assert(r.0@ =~= Seq::new(32, |i: int| 0u8));
        }
        r
    }
}

impl CommitmentSerde for MerkleRoot {
    open spec fn wf(&self) -> bool {
        true
    }

    open spec fn spec_serialize(&self) -> Seq<u8> {
        self.0@
    }

    open spec fn spec_encoded_len(poly_size: nat) -> nat {
        HASH_SIZE as nat
    }

    open spec fn spec_decodes(buffer: Seq<u8>, poly_size: nat) -> bool {
        buffer.len() >= HASH_SIZE
    }

    fn size(&self) -> (n: usize) {
        HASH_SIZE
    }

    fn serialize_into(&self, buffer: &mut Vec<u8>) {
        let mut i: usize = 0;
        while i < HASH_SIZE
            invariant
                i <= HASH_SIZE,
                buffer@ == old(buffer)@ + self.0@.subrange(0, i as int),
            decreases HASH_SIZE - i,
        {
            buffer.push(self.0[i]);
            proof {
                assert(buffer@ =~= old(buffer)@ + self.0@.subrange(0, i + 1));
            }
            i += 1;
        }
        proof {
            assert(self.0@.subrange(0, 32) =~= self.0@);
        }
    }

    fn deserialize_from(buffer: &[u8], poly_size: usize) -> (r: Option<Self>) {
        if buffer.len() < HASH_SIZE {
            return None;
        }
        let mut root = [0u8; HASH_SIZE];
        let mut i: usize = 0;
        while i < HASH_SIZE
            invariant
                i <= HASH_SIZE <= buffer@.len(),
                forall|j: int| 0 <= j < i ==> root@[j] == buffer@[j],
            decreases HASH_SIZE - i,
        {
            root[i] = buffer[i];
            i += 1;
        }
        proof {
            assert(root@ =~= buffer@.subrange(0, 32));
        }
        Some(MerkleRoot(root))
    }
}

/// Ascending order of indices.
pub open spec fn usize_leq() -> spec_fn(usize, usize) -> bool {
    |a: usize, b: usize| a <= b
}

/// Sorts with `sort` of std: afterwards the elements stand in ascending order
/// and are the elements from before, each as often as before.
#[verifier::external_body]
fn sort_usizes(v: &mut Vec<usize>)
    ensures
        sorted_by(final(v)@, usize_leq()),
        final(v)@.to_multiset() == old(v)@.to_multiset(),
{
    v.sort();
}

/// Each index modulo `half`.
pub open spec fn indices_mod(indices: Seq<usize>, half: nat) -> Seq<usize> {
    Seq::new(indices.len(), |k: int| ((indices[k] as int) % (half as int)) as usize)
}

/// The leaves that a round queries: the indices of the round before modulo
/// `half`, in ascending order and without repetition.
pub open spec fn reduce_indices(indices: Seq<usize>, half: nat) -> Seq<usize> {
    dedup(indices_mod(indices, half).sort_by(usize_leq()))
}

/// What stays after `dedup` was there before.
pub proof fn lemma_dedup_subset(s: Seq<usize>, x: usize)
    requires
        dedup(s).contains(x),
    ensures
        s.contains(x),
    decreases s.len(),
{
    if s.len() > 1 {
        let d = dedup(s.drop_last());
        if s.last() == s[s.len() - 2] {
            lemma_dedup_subset(s.drop_last(), x);
            let k = choose|k: int| 0 <= k < s.drop_last().len() && s.drop_last()[k] == x;
            assert(s[k] == x);
        } else {
            let k = choose|k: int| 0 <= k < dedup(s).len() && dedup(s)[k] == x;
            if k < d.len() {
                assert(d[k] == x);
                lemma_dedup_subset(s.drop_last(), x);
                let m = choose|m: int| 0 <= m < s.drop_last().len() && s.drop_last()[m] == x;
                assert(s[m] == x);
            } else {
                assert(s[s.len() - 1] == x);
            }
        }
    }
}

/// Every queried leaf exists, and no round queries more leaves than the
/// round before.
pub proof fn lemma_reduce_indices(indices: Seq<usize>, half: nat)
    requires
        0 < half <= usize::MAX,
    ensures
        reduce_indices(indices, half).len() <= indices.len(),
        forall|k: int|
            0 <= k < reduce_indices(indices, half).len() ==> (#[trigger] reduce_indices(
                indices,
                half,
            )[k]) < half,
        ascending(reduce_indices(indices, half)),
{
    let mapped = indices_mod(indices, half);
    let sorted = mapped.sort_by(usize_leq());
    assert(total_ordering(usize_leq())) by {
        lemma_usize_leq_total();
    }
    mapped.lemma_sort_by_ensures(usize_leq());
    assert forall|a: int, b: int| 0 <= a < b < sorted.len() implies sorted[a] <= sorted[b] by {
        assert(usize_leq()(sorted[a], sorted[b]));
    }
    lemma_dedup_ascending(sorted);
    mapped.to_multiset_ensures();
    sorted.to_multiset_ensures();
    lemma_dedup_len(sorted);
    assert forall|k: int| 0 <= k < reduce_indices(indices, half).len() implies (
    #[trigger] reduce_indices(indices, half)[k]) < half by {
        let x = reduce_indices(indices, half)[k];
        assert(dedup(sorted).contains(x));
        lemma_dedup_subset(sorted, x);
        assert(mapped.contains(x));
        let m = choose|m: int| 0 <= m < mapped.len() && mapped[m] == x;
        assert(mapped[m] == ((indices[m] as int) % (half as int)) as usize);
        assert((indices[m] as int) % (half as int) < half) by (nonlinear_arith)
            requires
                half > 0,
        ;
    }
}

/// Ascending order is a total order.
pub proof fn lemma_usize_leq_total()
    ensures
        total_ordering(usize_leq()),
{
    let leq = usize_leq();
    assert(vstd::relations::reflexive(leq));
    assert(vstd::relations::antisymmetric(leq));
    assert(vstd::relations::transitive(leq));
    assert(vstd::relations::strongly_connected(leq));
}

/// The leaves that a round queries.
pub fn reduced_indices(indices: &Vec<usize>, half: usize) -> (r: Vec<usize>)
    requires
        half > 0,
    ensures
        r@ == reduce_indices(indices@, half as nat),
        r@.len() <= indices@.len(),
        forall|k: int| 0 <= k < r@.len() ==> (#[trigger] r@[k]) < half,
        ascending(r@),
{
    let mut mapped: Vec<usize> = Vec::new();
    let mut k: usize = 0;
    while k < indices.len()
        invariant
            k <= indices@.len(),
            half > 0,
            mapped@.len() == k,
            forall|j: int| 0 <= j < k ==> #[trigger] mapped@[j] == (indices@[j] % half) as usize,
        decreases indices@.len() - k,
    {
        mapped.push(indices[k] % half);
        k += 1;
    }
    let ghost unsorted = mapped@;
    proof {
        assert(unsorted =~= indices_mod(indices@, half as nat));
    }
    sort_usizes(&mut mapped);
    proof {
        lemma_usize_leq_total();
        unsorted.lemma_sort_by_ensures(usize_leq());
        vstd::seq_lib::lemma_sorted_unique(mapped@, unsorted.sort_by(usize_leq()), usize_leq());
        lemma_reduce_indices(indices@, half as nat);
    }
    dedup_vec(&mapped)
}

/// The leaves of the tree over a codeword: leaf `i` holds the encodings of
/// the values at `i` and at `i` plus half the length, which fold together.
pub open spec fn column_leaves<F: FieldSerde>(value: Seq<F>) -> Seq<Seq<u8>> {
    Seq::new(
        (value.len() / 2) as nat,
        |i: int| value[i].spec_serialize() + value[i + value.len() / 2].spec_serialize(),
    )
}

/// The values that answer the queries at `indices`: first the values at the
/// indices, then the values half the length further.
pub open spec fn query_values<F>(value: Seq<F>, indices: Seq<usize>) -> Seq<F> {
    Seq::new(
        2 * indices.len(),
        |k: int|
            if k < indices.len() {
                value[indices[k] as int]
            } else {
                value[indices[k - indices.len()] + value.len() / 2]
            },
    )
}

/// The leaves that the answers to `count` queries stand for: leaf `p` holds
/// the encodings of answer `p` and of answer `p + count`.
pub open spec fn query_leaves<F: FieldSerde>(values: Seq<F>, count: nat) -> Seq<Seq<u8>> {
    Seq::new(count, |p: int| values[p].spec_serialize() + values[p + count].spec_serialize())
}

/// The encodings of two elements, one after the other.
pub fn pair_bytes<F: FieldSerde>(a: &F, b: &F) -> (r: Vec<u8>)
    requires
        a.wf(),
        b.wf(),
    ensures
        r@ == a.spec_serialize() + b.spec_serialize(),
{
    let mut out: Vec<u8> = Vec::new();
    a.serialize_into(&mut out);
    b.serialize_into(&mut out);
    proof {
        assert(out@ =~= a.spec_serialize() + b.spec_serialize());
    }
    out
}

/// The parameters of the scheme: the chain of subgroups, each the squares of
/// the one before, one for each variable, and the number of queries.
#[derive(Clone, Debug)]
pub struct DeepFoldParam<F: TwoAdicField> {
    pub mult_subgroups: Vec<Radix2Group<F>>,
    pub variable_num: usize,
    pub query_num: usize,
}

impl<F: TwoAdicField> DeepFoldParam<F> {
    /// There is a subgroup for each of the variables, at least one; each has
    /// half the order of the one before, and the last has more than one
    /// element.
    pub open spec fn wf(&self) -> bool {
        &&& self.variable_num >= 1
        &&& self.mult_subgroups@.len() == self.variable_num
        &&& self.query_num * 2048 <= usize::MAX
        &&& forall|i: int|
            0 <= i < self.variable_num ==> (#[trigger] self.mult_subgroups@[i]).wf()
        &&& forall|i: int|
            0 <= i < self.variable_num ==> (#[trigger] self.mult_subgroups@[i]).log_order + i
                == self.mult_subgroups@[0].log_order
        &&& self.mult_subgroups@[0].log_order >= self.variable_num
    }

    /// The parameters for polynomials in `variable_num` variables, with
    /// codewords `2^log_blowup` times as long as the polynomial and
    /// `query_num` queries. There are none without a variable, where the
    /// field has no subgroup of order `2^(variable_num + log_blowup)`, and
    /// where the queries are too many to count in a machine word.
    pub fn setup(variable_num: usize, log_blowup: usize, query_num: usize) -> (r: Option<Self>)
        ensures
            r.is_some() == (variable_num >= 1 && variable_num + log_blowup < 32 && variable_num
                + log_blowup <= F::spec_two_adicity() && query_num * 2048 <= usize::MAX),
            r matches Some(pp) ==> pp.wf() && pp.variable_num == variable_num && pp.query_num
                == query_num && pp.mult_subgroups@[0].log_order == variable_num + log_blowup,
    {
        let limit = F::two_adicity();
        if variable_num < 1 || log_blowup >= 32 || variable_num >= 32 || variable_num + log_blowup
            >= 32 || variable_num + log_blowup > limit || query_num > usize::MAX / 2048 {
            return None;
        }
        let top = variable_num + log_blowup;
        let mut mult_subgroups: Vec<Radix2Group<F>> = Vec::new();
        mult_subgroups.push(Radix2Group::<F>::new(top as u32));
        let mut i: usize = 1;
        while i < variable_num
            invariant
                1 <= i <= variable_num,
                top == variable_num + log_blowup,
                top < 32,
                mult_subgroups@.len() == i,
                forall|k: int| 0 <= k < i ==> (#[trigger] mult_subgroups@[k]).wf(),
                forall|k: int| 0 <= k < i ==> (#[trigger] mult_subgroups@[k]).log_order + k == top,
            decreases variable_num - i,
        {
            proof {
                assert(mult_subgroups@[i - 1].wf());
                assert(mult_subgroups@[i - 1].log_order + (i - 1) == top);
            }
            let next = mult_subgroups[i - 1].exp(2);
            mult_subgroups.push(next);
            i += 1;
        }
        proof {
            assert(mult_subgroups@[0].log_order + 0 == top);
        }
        Some(DeepFoldParam { mult_subgroups, variable_num, query_num })
    }

    /// Half the order of the subgroup of round `i`: the number of leaves of
    /// that round's tree.
    pub open spec fn half(&self, i: int) -> nat {
        (self.mult_subgroups@[i].order() / 2) as nat
    }

    /// Half the order of the subgroup of round `i`.
    pub fn half_size(&self, i: usize) -> (h: usize)
        requires
            self.wf(),
            i < self.variable_num,
        ensures
            h == self.half(i as int),
            0 < h,
            2 * h <= usize::MAX,
            2 * h == self.mult_subgroups@[i as int].order(),
            i + 1 < self.variable_num ==> h == self.mult_subgroups@[i + 1].order(),
    {
        let n = self.mult_subgroups[i].size();
        proof {
            let g = self.mult_subgroups@[i as int];
            assert(g.wf());
            assert(g.log_order + i == self.mult_subgroups@[0].log_order);
            lemma_halved_order(g.log_order as nat);
            if i + 1 < self.variable_num {
                let next = self.mult_subgroups@[i + 1];
                assert(next.wf());
                assert(next.log_order + (i + 1) == self.mult_subgroups@[0].log_order);
                assert(next.log_order == g.log_order - 1);
            }
        }
        n / 2
    }
}

/// A power of two above one is twice the power below it.
pub proof fn lemma_halved_order(k: nat)
    requires
        k >= 1,
    ensures
        pow2(k) == 2 * pow2((k - 1) as nat),
        pow2(k) / 2 == pow2((k - 1) as nat),
        pow2((k - 1) as nat) > 0,
{
    lemma_pow2_monotone(0, (k - 1) as nat);
}

/// Where `x` stands in the codeword of `2 * half` entries whose leaf `j`
/// pairs the entries `j` and `j + half`.
pub proof fn lemma_entry_of_leaf(x: usize, j: usize, half: usize)
    requires
        j < half,
    ensures
        (x < 2 * half && (x as int) % (half as int) == j) <==> (x == j || x == j + half),
{
    if x < half {
        vstd::arithmetic::div_mod::lemma_small_mod(x as nat, half as nat);
    } else if x < 2 * half {
        vstd::arithmetic::div_mod::lemma_small_mod((x - half) as nat, half as nat);
        vstd::arithmetic::div_mod::lemma_mod_multiples_vanish(1, x - half, half as int);
    }
}

/// A prefix that is one longer holds one element more.
pub proof fn lemma_prefix_contains(s: Seq<usize>, k: int, y: usize)
    requires
        0 <= k < s.len(),
    ensures
        s.subrange(0, k + 1).contains(y) <==> (s.subrange(0, k).contains(y) || s[k] == y),
{
    let short = s.subrange(0, k);
    let long = s.subrange(0, k + 1);
    if long.contains(y) {
        let m = choose|m: int| 0 <= m < long.len() && long[m] == y;
        if m < k {
            assert(short[m] == y);
        }
    }
    if short.contains(y) {
        let m = choose|m: int| 0 <= m < short.len() && short[m] == y;
        assert(long[m] == y);
    }
    if s[k] == y {
        assert(long[k] == y);
    }
}

/// The value that `values` holds at `key`.
fn value_at<F: Copy>(values: &HashMap<usize, F>, key: usize) -> (r: F)
    requires
        values@.contains_key(key),
    ensures
        r == values@[key],
{
    match values.get(&key) {
        Some(v) => *v,
        None => vstd::pervasive::unreached(),
    }
}

/// The answers to the queries of one round.
#[derive(Clone)]
pub struct QueryResult<F: TwoAdicField> {
    /// The serialized Merkle multi-proof.
    pub proof_bytes: Vec<u8>,
    /// The value at each queried index of the codeword, and at the index
    /// half the codeword further.
    pub proof_values: HashMap<usize, F>,
}

impl<F: TwoAdicField> QueryResult<F> {
    /// The answers hold a value at each of `indices` and half the codeword
    /// further, `half` being the number of leaves.
    pub open spec fn covers(&self, indices: Seq<usize>, half: nat) -> bool {
        forall|k: int|
            0 <= k < indices.len() ==> self.proof_values@.contains_key(#[trigger] indices[k])
                && self.proof_values@.contains_key((indices[k] + half) as usize)
    }

    /// The answers hold values for the leaves at `indices` of a tree of
    /// `half` leaves, and for no other.
    #[verifier::opaque]
    pub open spec fn holds(&self, indices: Seq<usize>, half: nat) -> bool {
        forall|x: usize| #[trigger]
            self.proof_values@.contains_key(x) <==> (x < 2 * half && indices.contains(
                ((x as int) % (half as int)) as usize,
            ))
    }

    /// The values in the order in which they travel: for each of `indices`
    /// the value at it, then for each the value half the codeword further.
    pub open spec fn values_at(&self, indices: Seq<usize>, half: nat) -> Seq<F> {
        Seq::new(
            2 * indices.len(),
            |k: int|
                if k < indices.len() {
                    self.proof_values@[indices[k]]
                } else {
                    self.proof_values@[(indices[k - indices.len()] + half) as usize]
                },
        )
    }

    /// What holds values for the leaves at `indices` holds one at each index
    /// and half the codeword further.
    pub proof fn lemma_holds_covers(&self, indices: Seq<usize>, half: nat)
        requires
            self.holds(indices, half),
            2 * half <= usize::MAX,
            forall|k: int| 0 <= k < indices.len() ==> (#[trigger] indices[k]) < half,
        ensures
            self.covers(indices, half),
    {
        reveal(QueryResult::holds);
        assert forall|k: int| 0 <= k < indices.len() implies self.proof_values@.contains_key(
            #[trigger] indices[k],
        ) && self.proof_values@.contains_key((indices[k] + half) as usize) by {
            let j = indices[k];
            lemma_entry_of_leaf(j, j, half as usize);
            lemma_entry_of_leaf((j + half) as usize, j, half as usize);
            assert(indices.contains(j));
        }
    }

    /// The answers to the queries at `leaf_indices` on a tree of `half`
    /// leaves, from the values as they travel.
    pub fn from_answers(
        proof_bytes: Vec<u8>,
        leaf_indices: &Vec<usize>,
        values: &Vec<F>,
        half: usize,
    ) -> (r: Self)
        requires
            values@.len() == 2 * leaf_indices@.len(),
            ascending(leaf_indices@),
            forall|k: int| 0 <= k < leaf_indices@.len() ==> (#[trigger] leaf_indices@[k]) < half,
            2 * half <= usize::MAX,
        ensures
            r.proof_bytes == proof_bytes,
            r.holds(leaf_indices@, half as nat),
            r.values_at(leaf_indices@, half as nat) == values@,
    {
        let count = leaf_indices.len();
        let total = values.len();
        let mut held: HashMap<usize, F> = HashMap::new();
        let mut k: usize = 0;
        proof {
            assert(leaf_indices@.subrange(0, 0) =~= Seq::<usize>::empty());
        }
        while k < count
            invariant
                k <= count == leaf_indices@.len(),
                total == values@.len() == 2 * count,
                ascending(leaf_indices@),
                forall|m: int|
                    0 <= m < leaf_indices@.len() ==> (#[trigger] leaf_indices@[m]) < half,
                2 * half <= usize::MAX,
                forall|x: usize| #[trigger]
                    held@.contains_key(x) <==> (x < 2 * half && leaf_indices@.subrange(
                        0,
                        k as int,
                    ).contains(((x as int) % (half as int)) as usize)),
                forall|m: int|
                    0 <= m < k ==> held@[#[trigger] leaf_indices@[m]] == values@[m] && held@[(
                    leaf_indices@[m] + half) as usize] == values@[m + count],
            decreases count - k,
        {
            let j = leaf_indices[k];
            let ghost before = held@;
            held.insert(j, values[k]);
            held.insert(j + half, values[k + count]);
            proof {
                assert forall|x: usize| #[trigger]
                    held@.contains_key(x) <==> (x < 2 * half && leaf_indices@.subrange(
                        0,
                        k + 1,
                    ).contains(((x as int) % (half as int)) as usize)) by {
                    let y = ((x as int) % (half as int)) as usize;
                    lemma_prefix_contains(leaf_indices@, k as int, y);
                    lemma_entry_of_leaf(x, j, half);
                    assert(before.contains_key(x) <==> (x < 2 * half && leaf_indices@.subrange(
                        0,
                        k as int,
                    ).contains(y)));
                }
                assert forall|m: int| 0 <= m < k + 1 implies held@[#[trigger] leaf_indices@[m]]
                    == values@[m] && held@[(leaf_indices@[m] + half) as usize] == values@[m
                    + count] by {
                    if m < k {
                        assert(leaf_indices@[m] < leaf_indices@[k as int]);
                        assert(before[leaf_indices@[m]] == values@[m]);
                    }
                }
            }
            k += 1;
        }
        let r = QueryResult { proof_bytes, proof_values: held };
        proof {
            reveal(QueryResult::holds);
            assert(leaf_indices@.subrange(0, count as int) =~= leaf_indices@);
            assert(r.values_at(leaf_indices@, half as nat) =~= values@);
        }
        r
    }

    /// Whether the multi-proof opens the answers, paired into leaves of size
    /// `leaf_size`, which is 2, at `leaf_indices` under the verifier's root.
    pub fn verify_merkle_tree(
        &self,
        leaf_indices: &Vec<usize>,
        leaf_size: usize,
        merkle_verifier: &MerkleTreeVerifier,
    ) -> (r: bool)
        requires
            leaf_size == 2,
            self.covers(leaf_indices@, merkle_verifier.leave_number as nat),
            forall|k: int|
                0 <= k < leaf_indices@.len() ==> (#[trigger] leaf_indices@[k])
                    + merkle_verifier.leave_number <= usize::MAX,
            all_wf(self.values_at(leaf_indices@, merkle_verifier.leave_number as nat)),
        ensures
            r == (merkle_proof_root(
                self.proof_bytes@,
                leaf_indices@,
                leaf_hashes(
                    query_leaves(
                        self.values_at(leaf_indices@, merkle_verifier.leave_number as nat),
                        leaf_indices@.len(),
                    ),
                ),
                merkle_verifier.leave_number,
            ) == Some(merkle_verifier.merkle_root@)),
    {
        let count = leaf_indices.len();
        let len = merkle_verifier.leave_number;
        let ghost values = self.values_at(leaf_indices@, len as nat);
        let mut leaves: Vec<Vec<u8>> = Vec::new();
        let mut p: usize = 0;
        while p < count
            invariant
                p <= count == leaf_indices@.len(),
                len == merkle_verifier.leave_number,
                self.covers(leaf_indices@, len as nat),
                forall|k: int|
                    0 <= k < leaf_indices@.len() ==> (#[trigger] leaf_indices@[k]) + len
                        <= usize::MAX,
                values == self.values_at(leaf_indices@, len as nat),
                all_wf(values),
                leaves@.len() == p,
                forall|q: int|
                    0 <= q < p ==> (#[trigger] leaves@[q])@ == values[q].spec_serialize() + values[q
                        + count].spec_serialize(),
            decreases count - p,
        {
            let j = leaf_indices[p];
            proof {
                assert(self.proof_values@.contains_key(leaf_indices@[p as int]));
                assert(values[p as int].wf() && values[p + count].wf());
            }
            let x = value_at(&self.proof_values, j);
            let nx = value_at(&self.proof_values, j + len);
            leaves.push(pair_bytes(&x, &nx));
            p += 1;
        }
        proof {
            assert forall|q: int| 0 <= q < count implies leaves.deep_view()[q] == query_leaves(
                values,
                count as nat,
            )[q] by {
                assert(leaves@[q].deep_view() =~= leaves@[q]@);
            }
            assert(leaves.deep_view() =~= query_leaves(values, count as nat));
        }
        merkle_verifier.verify(slice_to_vec(self.proof_bytes.as_slice()), leaf_indices, &leaves)
    }
}

/// A codeword together with the Merkle tree over its columns.
pub struct InterpolateValue<F: TwoAdicField> {
    pub value: Vec<F>,
    pub leaf_size: usize,
    pub merkle_tree: MerkleTreeProver,
}

impl<F: TwoAdicField> InterpolateValue<F> {
    /// The tree is the tree over the columns of the codeword.
    pub open spec fn wf(&self) -> bool {
        &&& self.leaf_size == 2
        &&& self.value@.len() >= 2
        &&& all_wf(self.value@)
        &&& self.merkle_tree.wf()
        &&& self.merkle_tree.leave_num == self.value@.len() / 2
        &&& self.merkle_tree.leaves() == leaf_hashes(column_leaves(self.value@))
    }

    /// Commits to `value` in leaves of size `leaf_size`, which is 2.
    pub fn new(value: Vec<F>, leaf_size: usize) -> (r: Self)
        requires
            leaf_size == 2,
            value@.len() >= 2,
            all_wf(value@),
        ensures
            r.value@ == value@,
            r.wf(),
    {
        let total = value.len();
        let len = total / leaf_size;
        let mut leaves: Vec<Vec<u8>> = Vec::new();
        let mut i: usize = 0;
        while i < len
            invariant
                i <= len == total / 2,
                total == value@.len(),
                all_wf(value@),
                leaves@.len() == i,
                forall|q: int|
                    0 <= q < i ==> (#[trigger] leaves@[q])@ == value@[q].spec_serialize() + value@[q
                        + len].spec_serialize(),
            decreases len - i,
        {
            leaves.push(pair_bytes(&value[i], &value[i + len]));
            i += 1;
        }
        proof {
            assert forall|q: int| 0 <= q < len implies leaves.deep_view()[q] == column_leaves(
                value@,
            )[q] by {
                assert(leaves@[q].deep_view() =~= leaves@[q]@);
            }
            assert(leaves.deep_view() =~= column_leaves(value@));
        }
        let merkle_tree = MerkleTreeProver::new(leaves);
        Self { value, leaf_size, merkle_tree }
    }

    pub fn leave_num(&self) -> (n: usize)
        ensures
            n == self.merkle_tree.leave_num,
    {
        self.merkle_tree.leave_num()
    }

    /// The root of the tree.
    pub fn commit(&self) -> (root: [u8; HASH_SIZE])
        requires
            self.wf(),
        ensures
            merkle_root(leaf_hashes(column_leaves(self.value@))) == Some(root@),
    {
        self.merkle_tree.commit()
    }

    /// The multi-proof for the leaves at `leaf_indices`, and the values in
    /// those leaves. Where the indices ascend and there is at least one, the
    /// multi-proof leads from the leaves that the values stand for to the
    /// root that `commit` yields.
    pub fn query(&self, leaf_indices: &Vec<usize>) -> (r: (Vec<u8>, Vec<F>))
        requires
            self.wf(),
            forall|k: int|
                0 <= k < leaf_indices@.len() ==> (#[trigger] leaf_indices@[k]) < self.value@.len()
                    / 2,
        ensures
            r.0@ == merkle_proof(leaf_hashes(column_leaves(self.value@)), leaf_indices@),
            r.1@ == query_values(self.value@, leaf_indices@),
            all_wf(r.1@),
            leaf_indices@.len() > 0 && ascending(leaf_indices@) ==> merkle_proof_root(
                r.0@,
                leaf_indices@,
                leaf_hashes(query_leaves(r.1@, leaf_indices@.len())),
                self.merkle_tree.leave_num,
            ) == merkle_root(leaf_hashes(column_leaves(self.value@))),
    {
        let total = self.value.len();
        let len = self.merkle_tree.leave_num();
        let count = leaf_indices.len();
        let mut proof_values: Vec<F> = Vec::new();
        let mut j: usize = 0;
        while j < count
            invariant
                j <= count == leaf_indices@.len(),
                self.wf(),
                total == self.value@.len(),
                len == total / 2,
                forall|k: int| 0 <= k < count ==> (#[trigger] leaf_indices@[k]) < len,
                proof_values@.len() == j,
                all_wf(proof_values@),
                forall|k: int|
                    0 <= k < j ==> #[trigger] proof_values@[k] == self.value@[leaf_indices@[k] as int],
            decreases count - j,
        {
            assert(leaf_indices@[j as int] < len);
            let v = self.value[leaf_indices[j]];
            proof {
                assert(v.wf());
            }
            proof_values.push(v);
            j += 1;
        }
        let mut j: usize = 0;
        while j < count
            invariant
                j <= count == leaf_indices@.len(),
                self.wf(),
                total == self.value@.len(),
                len == total / 2,
                forall|k: int| 0 <= k < count ==> (#[trigger] leaf_indices@[k]) < len,
                proof_values@.len() == count + j,
                all_wf(proof_values@),
                forall|k: int|
                    0 <= k < count ==> #[trigger] proof_values@[k] == self.value@[leaf_indices@[k] as int],
                forall|k: int|
                    0 <= k < j ==> #[trigger] proof_values@[count + k] == self.value@[leaf_indices@[k]
                        + len],
            decreases count - j,
        {
            assert(leaf_indices@[j as int] < len);
            let v = self.value[leaf_indices[j] + len];
            proof {
                assert(v.wf());
            }
            proof_values.push(v);
            j += 1;
        }
        proof {
            let expected = query_values(self.value@, leaf_indices@);
            assert forall|k: int| 0 <= k < expected.len() implies proof_values@[k] == expected[k] by {
                if k >= count {
                    assert(proof_values@[count + (k - count)] == self.value@[leaf_indices@[k
                        - count] + len]);
                }
            }
            assert(proof_values@ =~= expected);
            assert(picked(leaf_hashes(column_leaves(self.value@)), leaf_indices@) =~= leaf_hashes(
                query_leaves(expected, count as nat),
            ));
        }
        let proof_bytes = self.merkle_tree.open(leaf_indices);
        (proof_bytes, proof_values)
    }
}

/// A pair of codeword values folded by `challenge`, twice the entry of the
/// next codeword: with `sum = x + nx`, it is
/// `sum + challenge * ((x - nx) * inv - sum)`, where `inv` is the inverse of
/// the subgroup element that `x` is the value at.
pub open spec fn fold_pair<F: FieldArith>(x: F, nx: F, challenge: F, inv: F) -> F {
    let sum = x.spec_add(nx);
    sum.spec_add(challenge.spec_mul(field_sub(field_sub(x, nx).spec_mul(inv), sum)))
}

/// `v` times the inverse of two.
pub open spec fn half_of<F: Field>(v: F) -> F {
    v.spec_mul(F::spec_from_base(F::BaseField::spec_inv_2()))
}

/// The codeword of the next round: entry `i` is half the fold of the entries
/// `i` and `i` plus half the order.
pub open spec fn next_domain<F: TwoAdicField>(
    value: Seq<F>,
    group: Radix2Group<F>,
    challenge: F,
) -> Seq<F> {
    Seq::new(
        (group.order() / 2) as nat,
        |i: int|
            half_of(
                fold_pair(
                    value[i],
                    value[i + group.order() / 2],
                    challenge,
                    group.omega_inv().spec_exp(i as nat),
                ),
            ),
    )
}

/// The values on `group` of the polynomial with the coefficients `coeff`.
pub open spec fn codeword_of<F: TwoAdicField>(group: Radix2Group<F>, coeff: Seq<F>) -> Seq<F> {
    Seq::new(group.order(), |i: int| poly_eval(coeff, group.omega.spec_exp(i as nat)))
}

/// The index words that `n` squeezes yield.
pub open spec fn challenge_indices(t: TranscriptState, n: nat) -> Seq<usize> {
    Seq::new(n, |k: int| t.squeeze_n(k as nat).challenge_usize())
}

/// The transcript and the codewords after the folding rounds `i ..`: each
/// round sends the value at the shifted point, draws a challenge, folds the
/// polynomial and the codeword, and sends the root of the tree over the new
/// codeword or, in the last round, the constant that is left.
pub open spec fn commit_phase_from<F: TwoAdicField>(
    pp: DeepFoldParam<F>,
    evals: Seq<F>,
    codeword: Seq<F>,
    point: Seq<F>,
    i: nat,
    t: TranscriptState,
    codewords: Seq<Seq<F>>,
) -> (TranscriptState, Seq<Seq<F>>)
    decreases pp.variable_num - i,
{
    if i >= pp.variable_num {
        (t, codewords)
    } else {
        let next_eval = mle_eval(evals, shifted_point(point, i as int));
        let sent = t.append(next_eval.spec_serialize());
        let r = sent.challenge_fext::<F>();
        let next = next_domain(codeword, pp.mult_subgroups@[i as int], r);
        if i + 1 < pp.variable_num {
            let root = merkle_root(leaf_hashes(column_leaves(next))).unwrap();
            commit_phase_from(
                pp,
                fold_evals(evals, r),
                next,
                point,
                i + 1,
                sent.squeeze().append(root),
                codewords.push(next),
            )
        } else {
            commit_phase_from(
                pp,
                fold_evals(evals, r),
                next,
                point,
                i + 1,
                sent.squeeze().append(next[0].spec_serialize()),
                codewords,
            )
        }
    }
}

/// The transcript after the query rounds `i ..`: each round reduces the
/// indices to its own tree, and sends the multi-proof for them and the
/// values in the leaves they name.
pub open spec fn query_phase_from<F: TwoAdicField>(
    pp: DeepFoldParam<F>,
    codewords: Seq<Seq<F>>,
    indices: Seq<usize>,
    i: nat,
    t: TranscriptState,
) -> TranscriptState
    decreases pp.variable_num - i,
{
    if i >= pp.variable_num {
        t
    } else {
        let idx = reduce_indices(indices, pp.half(i as int));
        let proof_bytes = merkle_proof(leaf_hashes(column_leaves(codewords[i as int])), idx);
        let values = query_values(codewords[i as int], idx);
        query_phase_from(
            pp,
            codewords,
            idx,
            i + 1,
            t.append(proof_bytes).append(serialize_all(values)),
        )
    }
}

/// The transcript after a whole opening.
pub open spec fn deepfold_open<F: TwoAdicField>(
    pp: DeepFoldParam<F>,
    evals: Seq<F>,
    codeword: Seq<F>,
    point: Seq<F>,
    t: TranscriptState,
) -> TranscriptState {
    let (folded, codewords) = commit_phase_from(pp, evals, codeword, point, 0, t, seq![codeword]);
    query_phase_from(
        pp,
        codewords,
        challenge_indices(folded, pp.query_num as nat),
        0,
        folded.squeeze_n(pp.query_num as nat),
    )
}

/// A pair of codeword values folded by `challenge`.
pub fn fold_values<F: FieldArith>(x: &F, nx: &F, challenge: &F, inv: &F) -> (r: F)
    requires
        x.wf(),
        nx.wf(),
        challenge.wf(),
        inv.wf(),
    ensures
        r == fold_pair(*x, *nx, *challenge, *inv),
        r.wf(),
{
    let sum = x.add(nx);
    sum.add(&challenge.mul(&x.sub(nx).mul(inv).sub(&sum)))
}

/// `v` times the inverse of two.
pub fn halve<F: Field>(v: &F) -> (r: F)
    requires
        v.wf(),
    ensures
        r == half_of(*v),
        r.wf(),
{
    v.mul_base_elem(&F::BaseField::inv_2())
}

pub struct DeepFoldProver<F: TwoAdicField> {
    pub interpolation: InterpolateValue<F>,
    pub poly: MultiLinearPoly<F>,
}

impl<F: TwoAdicField> DeepFoldProver<F> {
    /// The codeword of round `round + 1`, folded from the codeword of
    /// `round` by `challenge`.
    pub fn evaluate_next_domain(
        last_interpolation: &InterpolateValue<F>,
        pp: &DeepFoldParam<F>,
        round: usize,
        challenge: F,
    ) -> (res: Vec<F>)
        requires
            pp.wf(),
            round < pp.variable_num,
            last_interpolation.value@.len() == pp.mult_subgroups@[round as int].order(),
            all_wf(last_interpolation.value@),
            challenge.wf(),
        ensures
            res@ == next_domain(
                last_interpolation.value@,
                pp.mult_subgroups@[round as int],
                challenge,
            ),
            res@.len() == pp.half(round as int),
            all_wf(res@),
    {
        let mut res: Vec<F> = Vec::new();
        let half = pp.half_size(round);
        let subgroup = &pp.mult_subgroups[round];
        let total = last_interpolation.value.len();
        let mut i: usize = 0;
        while i < half
            invariant
                i <= half,
                2 * half == total == last_interpolation.value@.len(),
                2 * half == subgroup.order(),
                subgroup.wf(),
                *subgroup == pp.mult_subgroups@[round as int],
                all_wf(last_interpolation.value@),
                challenge.wf(),
                res@.len() == i,
                all_wf(res@),
                forall|k: int|
                    0 <= k < i ==> #[trigger] res@[k] == next_domain(
                        last_interpolation.value@,
                        *subgroup,
                        challenge,
                    )[k],
            decreases half - i,
        {
            let x = last_interpolation.value[i];
            let nx = last_interpolation.value[i + half];
            proof {
                assert(x.wf() && nx.wf());
            }
            let inv = subgroup.element_inv_at(i);
            let new_v = fold_values(&x, &nx, &challenge, &inv);
            res.push(halve(&new_v));
            i += 1;
        }
        proof {
            assert(res@ =~= next_domain(last_interpolation.value@, *subgroup, challenge));
        }
        res
    }
}

impl<F: TwoAdicField> PolyCommitProver<F> for DeepFoldProver<F> {
    type Param = DeepFoldParam<F>;

    type Commitment = MerkleRoot;

    open spec fn param_wf(pp: &DeepFoldParam<F>, var_num: nat) -> bool {
        &&& pp.wf()
        &&& pp.variable_num == var_num
        &&& pow2(var_num) <= pp.mult_subgroups@[0].order()
    }

    open spec fn wf(&self, pp: &DeepFoldParam<F>) -> bool {
        &&& pp.wf()
        &&& self.poly.wf()
        &&& self.poly.var_num == pp.variable_num
        &&& self.interpolation.wf()
        &&& self.interpolation.value@ == codeword_of(pp.mult_subgroups@[0], self.poly.evals@)
    }

    open spec fn poly_evals(&self) -> Seq<F> {
        self.poly.evals@
    }

    /// The root of the tree over the codeword of the polynomial.
    open spec fn spec_commitment(pp: &DeepFoldParam<F>, evals: Seq<F>) -> Seq<u8> {
        merkle_root(
            leaf_hashes(column_leaves(codeword_of(pp.mult_subgroups@[0], evals))),
        ).unwrap()
    }

    open spec fn spec_open(
        pp: &DeepFoldParam<F>,
        evals: Seq<F>,
        point: Seq<F>,
        t: TranscriptState,
    ) -> TranscriptState {
        deepfold_open(*pp, evals, codeword_of(pp.mult_subgroups@[0], evals), point, t)
    }

    fn new(pp: &DeepFoldParam<F>, poly: &MultiLinearPoly<F>) -> (r: Self) {
        let group = &pp.mult_subgroups[0];
        proof {
            assert(group.wf());
            assert(group.log_order >= 1);
            assert(pow2(group.log_order as nat) == 2 * pow2((group.log_order - 1) as nat));
            lemma_pow2_monotone(0, (group.log_order - 1) as nat);
        }
        let codeword = group.fft(slice_to_vec(poly.evals.as_slice()));
        proof {
            assert(codeword@ =~= codeword_of(*group, poly.evals@));
        }
        DeepFoldProver { interpolation: InterpolateValue::new(codeword, 2), poly: poly.duplicate() }
    }

    fn commit(&self, pp: &DeepFoldParam<F>) -> (c: MerkleRoot) {
        MerkleRoot(self.interpolation.commit())
    }

    fn open(&self, pp: &DeepFoldParam<F>, point: &[F], transcript: &mut Transcript) {
        let n = pp.variable_num;
        let mut poly_evals = slice_to_vec(self.poly.evals.as_slice());
        let mut interpolations: Vec<InterpolateValue<F>> = Vec::new();
        let ghost first = self.interpolation.value@;
        let ghost mut codewords: Seq<Seq<F>> = seq![first];
        let ghost mut current: Seq<F> = first;
        let ghost total = commit_phase_from(
            *pp,
            self.poly.evals@,
            first,
            point@,
            0,
            old(transcript)@,
            seq![first],
        );
        proof {
            assert(pp.mult_subgroups@[0].wf());
            if point@.len() < n {
                lemma_pow2_strict(point@.len(), n as nat);
            }
            if point@.len() > n {
                lemma_pow2_strict(n as nat, point@.len());
            }
        }
        let mut i: usize = 0;
        while i < n
            invariant
                i <= n == pp.variable_num == point@.len(),
                pp.wf(),
                self.wf(pp),
                first == self.interpolation.value@,
                all_wf(point@),
                all_wf(poly_evals@),
                poly_evals@.len() == pow2((n - i) as nat),
                transcript.wf(),
                interpolations@.len() == (if i < n {
                    i as int
                } else {
                    n - 1
                }),
                codewords.len() == interpolations@.len() + 1,
                codewords[0] == first,
                forall|k: int|
                    0 <= k < interpolations@.len() ==> (#[trigger] interpolations@[k]).wf()
                        && interpolations@[k].value@ == codewords[k + 1],
                forall|k: int|
                    0 <= k < codewords.len() ==> (#[trigger] codewords[k]).len()
                        == pp.mult_subgroups@[k].order(),
                i < n ==> current == codewords[i as int],
                all_wf(current),
                commit_phase_from(*pp, poly_evals@, current, point@, i as nat, transcript@, codewords)
                    == total,
            decreases n - i,
        {
            let new_point = shift_point(point, i);
            let next_eval = MultiLinearPoly::<F>::eval_multilinear_ext(
                poly_evals.as_slice(),
                new_point.as_slice(),
            );
            transcript.append_f(next_eval);
            let challenge = transcript.challenge_fext::<F>();
            let new_len = poly_evals.len() / 2;
            let ghost before = poly_evals@;
            fold_in_place(&mut poly_evals, new_len, &challenge);
            proof {
                lemma_fold_prefix(before, poly_evals@, before.len(), challenge);
                assert(before.subrange(0, before.len() as int) =~= before);
                lemma_fold_evals_wf(before, challenge);
                lemma_pow2_monotone(0, (n - i - 1) as nat);
            }
            poly_evals.truncate(new_len);
            let half = pp.half_size(i);
            let next_evaluation = if i == 0 {
                Self::evaluate_next_domain(&self.interpolation, pp, i, challenge)
            } else {
                proof {
                    assert(interpolations@[i - 1].wf());
                }
                Self::evaluate_next_domain(&interpolations[i - 1], pp, i, challenge)
            };
            if i < n - 1 {
                proof {
                    assert(pp.mult_subgroups@[i + 1].wf());
                    assert(pp.mult_subgroups@[i + 1].log_order >= 1);
                    let g = pp.mult_subgroups@[i + 1];
                    assert(pow2(g.log_order as nat) == 2 * pow2((g.log_order - 1) as nat));
                    lemma_pow2_monotone(0, (g.log_order - 1) as nat);
                    codewords = codewords.push(next_evaluation@);
                    current = next_evaluation@;
                }
                let new_interpolation = InterpolateValue::new(next_evaluation, 2);
                let root = new_interpolation.commit();
                transcript.append_u8_slice(root.as_slice(), HASH_SIZE);
                proof {
                    assert(root@.subrange(0, 32) =~= root@);
                }
                interpolations.push(new_interpolation);
            } else {
                proof {
                    current = next_evaluation@;
                }
                transcript.append_f(next_evaluation[0]);
            }
            i += 1;
        }
        let ghost folded = transcript@;
        let mut leaf_indices = transcript.challenge_usizes(pp.query_num);
        proof {
            assert(leaf_indices@ =~= challenge_indices(folded, pp.query_num as nat));
        }
        let ghost opened = query_phase_from(*pp, codewords, leaf_indices@, 0, transcript@);
        let mut i: usize = 0;
        while i < n
            invariant
                i <= n == pp.variable_num,
                pp.wf(),
                self.wf(pp),
                transcript.wf(),
                interpolations@.len() == n - 1,
                codewords.len() == n,
                codewords[0] == self.interpolation.value@,
                forall|k: int|
                    0 <= k < interpolations@.len() ==> (#[trigger] interpolations@[k]).wf()
                        && interpolations@[k].value@ == codewords[k + 1],
                forall|k: int|
                    0 <= k < codewords.len() ==> (#[trigger] codewords[k]).len()
                        == pp.mult_subgroups@[k].order(),
                query_phase_from(*pp, codewords, leaf_indices@, i as nat, transcript@) == opened,
            decreases n - i,
        {
            let half = pp.half_size(i);
            leaf_indices = reduced_indices(&leaf_indices, half);
            let query = if i == 0 {
                self.interpolation.query(&leaf_indices)
            } else {
                proof {
                    assert(interpolations@[i - 1].wf());
                }
                interpolations[i - 1].query(&leaf_indices)
            };
            let len = query.0.len();
            transcript.append_u8_slice(query.0.as_slice(), len);
            proof {
                assert(query.0@.subrange(0, len as int) =~= query.0@);
            }
            transcript.append_fs(&query.1);
            i += 1;
        }
    }
}

/// What the folding rounds of a verification yield.
pub struct CommitView<F> {
    /// The challenge of each round.
    pub challenges: Seq<F>,
    /// The root sent in each round but the last.
    pub roots: Seq<Seq<u8>>,
    /// The claim after the last round.
    pub claim: F,
    /// Where the proof is read next.
    pub cursor: nat,
    /// The transcript after the last round.
    pub t: TranscriptState,
}

/// The answers to the queries of one round, as read from a proof.
pub struct QueryView<F> {
    pub indices: Seq<usize>,
    pub proof_bytes: Seq<u8>,
    pub values: Seq<F>,
}

/// The `count` field elements encoded from `cursor` on, if that many
/// canonical ones stand there.
pub open spec fn read_fields<F: FieldSerde>(bytes: Seq<u8>, cursor: nat, count: nat) -> Option<
    Seq<F>,
>
    decreases count,
{
    if count == 0 {
        Some(Seq::empty())
    } else {
        match read_fields::<F>(bytes, cursor, (count - 1) as nat) {
            None => None,
            Some(head) => match read_field::<F>(
                bytes,
                (cursor + (count - 1) * F::spec_size()) as nat,
            ) {
                None => None,
                Some(v) => Some(head.push(v)),
            },
        }
    }
}

/// Where more elements can be read, fewer can.
pub proof fn lemma_read_fields_prefix<F: FieldSerde>(bytes: Seq<u8>, cursor: nat, k: nat, n: nat)
    requires
        k <= n,
        read_fields::<F>(bytes, cursor, n).is_some(),
    ensures
        read_fields::<F>(bytes, cursor, k).is_some(),
    decreases n,
{
    if k < n {
        lemma_read_fields_prefix::<F>(bytes, cursor, k, (n - 1) as nat);
    }
}

/// The verdict and the yield of the folding rounds `i ..` of a verification:
/// each round reads the value at the shifted point, draws the challenge and
/// moves the claim; it then reads the root of the next codeword or, in the
/// last round, the constant, which must be the claim.
pub open spec fn verify_commit_phase_from<F: TwoAdicField>(
    pp: DeepFoldParam<F>,
    point: Seq<F>,
    i: nat,
    claim: F,
    challenges: Seq<F>,
    roots: Seq<Seq<u8>>,
    t: TranscriptState,
    bytes: Seq<u8>,
    cursor: nat,
) -> Option<CommitView<F>>
    decreases pp.variable_num - i,
{
    if i >= pp.variable_num {
        Some(CommitView { challenges, roots, claim, cursor, t })
    } else {
        match read_field::<F>(bytes, cursor) {
            None => None,
            Some(next_eval) => {
                let sent = t.append(next_eval.spec_serialize());
                let r = sent.challenge_fext::<F>();
                let moved = next_claim(claim, next_eval, r, point[i as int]);
                let after = (cursor + F::spec_size()) as nat;
                if i + 1 < pp.variable_num {
                    match read_slice(bytes, after, HASH_SIZE as nat) {
                        None => None,
                        Some(root) => verify_commit_phase_from(
                            pp,
                            point,
                            i + 1,
                            moved,
                            challenges.push(r),
                            roots.push(root),
                            sent.squeeze().append(root),
                            bytes,
                            (after + HASH_SIZE) as nat,
                        ),
                    }
                } else {
                    match read_field::<F>(bytes, after) {
                        None => None,
                        Some(constant) => if constant == moved {
                            verify_commit_phase_from(
                                pp,
                                point,
                                i + 1,
                                moved,
                                challenges.push(r),
                                roots,
                                sent.squeeze().append(constant.spec_serialize()),
                                bytes,
                                (after + F::spec_size()) as nat,
                            )
                        } else {
                            None
                        },
                    }
                }
            },
        }
    }
}

/// What the query rounds of a verification yield.
pub struct QueriesView<F> {
    /// The answers of each round.
    pub answers: Seq<QueryView<F>>,
    /// Where the proof is read next.
    pub cursor: nat,
    /// The transcript after the last round.
    pub t: TranscriptState,
}

/// The yield of the query rounds `i ..`: each round reduces the indices to
/// its own tree, reads a multi-proof of the length that those indices call
/// for, and two values for each index, and mirrors both into the transcript.
pub open spec fn read_queries_from<F: TwoAdicField>(
    pp: DeepFoldParam<F>,
    indices: Seq<usize>,
    i: nat,
    bytes: Seq<u8>,
    cursor: nat,
    answers: Seq<QueryView<F>>,
    t: TranscriptState,
) -> Option<QueriesView<F>>
    decreases pp.variable_num - i,
{
    if i >= pp.variable_num {
        Some(QueriesView { answers, cursor, t })
    } else {
        let idx = reduce_indices(indices, pp.half(i as int));
        let proof_len = (HASH_SIZE * helper_count(idx, log2_floor(pp.half(i as int)))) as nat;
        match read_slice(bytes, cursor, proof_len) {
            None => None,
            Some(proof_bytes) => match read_fields::<F>(bytes, cursor + proof_len, 2 * idx.len()) {
                None => None,
                Some(values) => read_queries_from(
                    pp,
                    idx,
                    i + 1,
                    bytes,
                    (cursor + proof_len + 2 * idx.len() * F::spec_size()) as nat,
                    answers.push(QueryView { indices: idx, proof_bytes, values }),
                    t.append(proof_bytes).append(serialize_all(values)),
                ),
            },
        }
    }
}

/// The first position of `x` in `s`.
pub open spec fn first_position(s: Seq<usize>, x: usize) -> Option<nat>
    decreases s.len(),
{
    if s.len() == 0 {
        None
    } else if s[0] == x {
        Some(0nat)
    } else {
        match first_position(s.skip(1), x) {
            None => None,
            Some(p) => Some(p + 1),
        }
    }
}

/// The value at index `j` of a codeword of `2 * half` entries, among the
/// answers to the queries on it.
pub open spec fn lookup_value<F>(q: QueryView<F>, half: nat, j: usize) -> Option<F> {
    match first_position(q.indices, ((j as int) % (half as int)) as usize) {
        None => None,
        Some(p) => Some(
            if j < half {
                q.values[p as int]
            } else {
                q.values[(p + q.indices.len()) as int]
            },
        ),
    }
}

/// Whether the answers at position `p` of round `i` fold to what the next
/// round answers at the same index or, in the last round, to the claim.
pub open spec fn check_entry<F: TwoAdicField>(
    pp: DeepFoldParam<F>,
    answers: Seq<QueryView<F>>,
    challenges: Seq<F>,
    claim: F,
    i: int,
    p: int,
) -> bool {
    let q = answers[i];
    let j = q.indices[p];
    let folded = fold_pair(
        q.values[p],
        q.values[p + q.indices.len()],
        challenges[i],
        pp.mult_subgroups@[i].omega_inv().spec_exp(j as nat),
    );
    if i + 1 < pp.variable_num {
        match lookup_value(answers[i + 1], pp.half(i + 1), j) {
            None => false,
            Some(v) => folded == v.spec_add(v),
        }
    } else {
        half_of(folded) == claim
    }
}

/// Whether round `i` stands: its multi-proof opens its answers under its
/// root, and each answer folds as `check_entry` asks.
pub open spec fn check_round<F: TwoAdicField>(
    pp: DeepFoldParam<F>,
    answers: Seq<QueryView<F>>,
    roots: Seq<Seq<u8>>,
    challenges: Seq<F>,
    claim: F,
    i: int,
) -> bool {
    let q = answers[i];
    &&& merkle_proof_root(
        q.proof_bytes,
        q.indices,
        leaf_hashes(query_leaves(q.values, q.indices.len())),
        pp.half(i) as usize,
    ) == Some(roots[i])
    &&& forall|p: int|
        0 <= p < q.indices.len() ==> #[trigger] check_entry(pp, answers, challenges, claim, i, p)
}

/// Whether every round stands.
pub open spec fn check_rounds<F: TwoAdicField>(
    pp: DeepFoldParam<F>,
    answers: Seq<QueryView<F>>,
    roots: Seq<Seq<u8>>,
    challenges: Seq<F>,
    claim: F,
) -> bool {
    forall|i: int|
        0 <= i < pp.variable_num ==> #[trigger] check_round(
            pp,
            answers,
            roots,
            challenges,
            claim,
            i,
        )
}

/// The yield of all the reading of a verification: the folding rounds, the
/// draw of the query indices, and the query rounds.
pub open spec fn deepfold_read<F: TwoAdicField>(
    pp: DeepFoldParam<F>,
    point: Seq<F>,
    eval: F,
    t: TranscriptState,
    bytes: Seq<u8>,
    cursor: nat,
) -> Option<(CommitView<F>, QueriesView<F>)> {
    match verify_commit_phase_from(
        pp,
        point,
        0,
        eval,
        Seq::empty(),
        Seq::empty(),
        t,
        bytes,
        cursor,
    ) {
        None => None,
        Some(cv) => match read_queries_from(
            pp,
            challenge_indices(cv.t, pp.query_num as nat),
            0,
            bytes,
            cv.cursor,
            Seq::empty(),
            cv.t.squeeze_n(pp.query_num as nat),
        ) {
            None => None,
            Some(qv) => Some((cv, qv)),
        },
    }
}

/// The number of bytes that the query rounds `i ..` take in a proof: for each
/// round its multi-proof and two values for each of its indices.
pub open spec fn queries_len_from<F: TwoAdicField>(
    pp: DeepFoldParam<F>,
    indices: Seq<usize>,
    i: nat,
) -> nat
    decreases pp.variable_num - i,
{
    if i >= pp.variable_num {
        0
    } else {
        let idx = reduce_indices(indices, pp.half(i as int));
        let proof_len = (HASH_SIZE * helper_count(idx, log2_floor(pp.half(i as int)))) as nat;
        proof_len + 2 * idx.len() * F::spec_size() + queries_len_from(pp, idx, i + 1)
    }
}

/// The folding rounds `i ..` read, for each round, the value at the shifted
/// point and then a root or, in the last round, the constant.
pub proof fn lemma_commit_phase_cursor<F: TwoAdicField>(
    pp: DeepFoldParam<F>,
    point: Seq<F>,
    i: nat,
    claim: F,
    challenges: Seq<F>,
    roots: Seq<Seq<u8>>,
    t: TranscriptState,
    bytes: Seq<u8>,
    cursor: nat,
)
    requires
        i < pp.variable_num,
        verify_commit_phase_from(pp, point, i, claim, challenges, roots, t, bytes, cursor).is_some(),
    ensures
        verify_commit_phase_from(
            pp,
            point,
            i,
            claim,
            challenges,
            roots,
            t,
            bytes,
            cursor,
        ).unwrap().cursor == cursor + (pp.variable_num - i + 1) * F::spec_size() + (pp.variable_num
            - i - 1) * HASH_SIZE,
    decreases pp.variable_num - i,
{
    let n = pp.variable_num as nat;
    let size = F::spec_size();
    let next_eval = read_field::<F>(bytes, cursor).unwrap();
    let sent = t.append(next_eval.spec_serialize());
    let r = sent.challenge_fext::<F>();
    let moved = next_claim(claim, next_eval, r, point[i as int]);
    let after = (cursor + size) as nat;
    let whole = verify_commit_phase_from(pp, point, i, claim, challenges, roots, t, bytes, cursor);
    if i + 1 < n {
        let root = read_slice(bytes, after, HASH_SIZE as nat).unwrap();
        let rest = verify_commit_phase_from(
            pp,
            point,
            i + 1,
            moved,
            challenges.push(r),
            roots.push(root),
            sent.squeeze().append(root),
            bytes,
            (after + HASH_SIZE) as nat,
        );
        assert(whole == rest);
        lemma_commit_phase_cursor(
            pp,
            point,
            i + 1,
            moved,
            challenges.push(r),
            roots.push(root),
            sent.squeeze().append(root),
            bytes,
            (after + HASH_SIZE) as nat,
        );
        assert((n - i + 1) * size == size + (n - (i + 1) + 1) * size) by (nonlinear_arith);
        assert((n - i - 1) * HASH_SIZE == HASH_SIZE + (n - (i + 1) - 1) * HASH_SIZE)
            by (nonlinear_arith);
    } else {
        let constant = read_field::<F>(bytes, after).unwrap();
        let rest = verify_commit_phase_from(
            pp,
            point,
            i + 1,
            moved,
            challenges.push(r),
            roots,
            sent.squeeze().append(constant.spec_serialize()),
            bytes,
            (after + size) as nat,
        );
        assert(whole == rest);
        assert(rest.unwrap().cursor == after + size);
        assert((n - i + 1) * size == size + size) by (nonlinear_arith)
            requires
                n - i == 1,
        ;
        assert((n - i - 1) * HASH_SIZE == 0) by (nonlinear_arith)
            requires
                n - i == 1,
        ;
    }
}

/// The query rounds `i ..` read `queries_len_from` bytes.
pub proof fn lemma_queries_cursor<F: TwoAdicField>(
    pp: DeepFoldParam<F>,
    indices: Seq<usize>,
    i: nat,
    bytes: Seq<u8>,
    cursor: nat,
    answers: Seq<QueryView<F>>,
    t: TranscriptState,
)
    requires
        read_queries_from(pp, indices, i, bytes, cursor, answers, t).is_some(),
    ensures
        read_queries_from(pp, indices, i, bytes, cursor, answers, t).unwrap().cursor == cursor
            + queries_len_from(pp, indices, i),
    decreases pp.variable_num - i,
{
    if i < pp.variable_num {
        let idx = reduce_indices(indices, pp.half(i as int));
        let proof_len = (HASH_SIZE * helper_count(idx, log2_floor(pp.half(i as int)))) as nat;
        let proof_bytes = read_slice(bytes, cursor, proof_len).unwrap();
        let values = read_fields::<F>(bytes, cursor + proof_len, 2 * idx.len()).unwrap();
        lemma_queries_cursor(
            pp,
            idx,
            i + 1,
            bytes,
            (cursor + proof_len + 2 * idx.len() * F::spec_size()) as nat,
            answers.push(QueryView { indices: idx, proof_bytes, values }),
            t.append(proof_bytes).append(serialize_all(values)),
        );
    }
}

/// A verification that reads to the end has read, from where it started, the
/// values and roots of the folding rounds and then the answers to the
/// queries: `n + 1` elements and `n - 1` roots for `n` variables, and
/// `queries_len_from` bytes for the query rounds.
pub proof fn lemma_deepfold_cursor<F: TwoAdicField>(
    pp: DeepFoldParam<F>,
    point: Seq<F>,
    eval: F,
    t: TranscriptState,
    bytes: Seq<u8>,
    cursor: nat,
)
    requires
        pp.variable_num >= 1,
        deepfold_read(pp, point, eval, t, bytes, cursor).is_some(),
    ensures
        ({
            let (cv, qv) = deepfold_read(pp, point, eval, t, bytes, cursor).unwrap();
            qv.cursor == cursor + (pp.variable_num + 1) * F::spec_size() + (pp.variable_num - 1)
                * HASH_SIZE + queries_len_from(
                pp,
                challenge_indices(cv.t, pp.query_num as nat),
                0,
            )
        }),
{
    let cv = verify_commit_phase_from(
        pp,
        point,
        0,
        eval,
        Seq::empty(),
        Seq::empty(),
        t,
        bytes,
        cursor,
    ).unwrap();
    lemma_commit_phase_cursor(pp, point, 0, eval, Seq::empty(), Seq::empty(), t, bytes, cursor);
    lemma_queries_cursor(
        pp,
        challenge_indices(cv.t, pp.query_num as nat),
        0,
        bytes,
        cv.cursor,
        Seq::empty(),
        cv.t.squeeze_n(pp.query_num as nat),
    );
}

/// The verdict of a whole verification against the commitment `root`.
pub open spec fn deepfold_verify<F: TwoAdicField>(
    pp: DeepFoldParam<F>,
    root: Seq<u8>,
    point: Seq<F>,
    eval: F,
    t: TranscriptState,
    bytes: Seq<u8>,
    cursor: nat,
) -> bool {
    &&& point.len() == pp.variable_num
    &&& match deepfold_read(pp, point, eval, t, bytes, cursor) {
        None => false,
        Some((cv, qv)) => check_rounds(
            pp,
            qv.answers,
            seq![root] + cv.roots,
            cv.challenges,
            cv.claim,
        ),
    }
}

/// The root of each verifier.
pub open spec fn roots_view(commits: Seq<MerkleTreeVerifier>) -> Seq<Seq<u8>> {
    Seq::new(commits.len(), |k: int| commits[k].merkle_root@)
}

/// The answers of each round as read.
pub open spec fn answers_view<F: TwoAdicField>(
    pp: DeepFoldParam<F>,
    indices: Seq<Vec<usize>>,
    queries: Seq<QueryResult<F>>,
) -> Seq<QueryView<F>> {
    Seq::new(
        queries.len(),
        |k: int|
            QueryView {
                indices: indices[k]@,
                proof_bytes: queries[k].proof_bytes@,
                values: queries[k].values_at(indices[k]@, pp.half(k)),
            },
    )
}

/// The answers of each round are held for the leaves that the round
/// queries, and for no other.
pub open spec fn answers_held<F: TwoAdicField>(
    pp: DeepFoldParam<F>,
    indices: Seq<Vec<usize>>,
    queries: Seq<QueryResult<F>>,
) -> bool {
    forall|k: int|
        0 <= k < queries.len() ==> (#[trigger] queries[k]).holds(indices[k]@, pp.half(k))
}

/// The first position of `x` in `s` holds `x`, and there is none only where
/// `x` is not in `s`.
pub proof fn lemma_first_position(s: Seq<usize>, x: usize)
    ensures
        match first_position(s, x) {
            Some(p) => p < s.len() && s[p as int] == x,
            None => !s.contains(x),
        },
    decreases s.len(),
{
    if s.len() > 0 && s[0] != x {
        lemma_first_position(s.skip(1), x);
        if first_position(s.skip(1), x).is_none() && s.contains(x) {
            let m = choose|m: int| 0 <= m < s.len() && s[m] == x;
            assert(s.skip(1)[m - 1] == x);
        }
    }
}

/// Looking a codeword index up among the answers as they travel gives what
/// the table of answers holds at it.
pub proof fn lemma_lookup_in_table<F: TwoAdicField>(
    q: QueryResult<F>,
    view: QueryView<F>,
    half: nat,
    j: usize,
)
    requires
        0 < half,
        2 * half <= usize::MAX,
        j < 2 * half,
        q.holds(view.indices, half),
        view.values == q.values_at(view.indices, half),
        forall|k: int| 0 <= k < view.indices.len() ==> (#[trigger] view.indices[k]) < half,
    ensures
        lookup_value(view, half, j) == (if q.proof_values@.contains_key(j) {
            Some(q.proof_values@[j])
        } else {
            None
        }),
{
    reveal(QueryResult::holds);
    let m = ((j as int) % (half as int)) as usize;
    assert(0 <= (j as int) % (half as int) < half) by (nonlinear_arith)
        requires
            half > 0,
            j >= 0,
    ;
    lemma_first_position(view.indices, m);
    match first_position(view.indices, m) {
        Some(p) => {
            assert(view.indices.contains(m));
            lemma_entry_of_leaf(j, m, half as usize);
        },
        None => {},
    }
}

/// The answers of round `i` have two canonical values for each index, and
/// every index names a leaf of the round's tree.
pub open spec fn answers_wf<F: TwoAdicField>(pp: DeepFoldParam<F>, q: QueryView<F>, i: int) -> bool {
    &&& q.values.len() == 2 * q.indices.len()
    &&& q.indices.len() <= pp.query_num
    &&& all_wf(q.values)
    &&& forall|p: int| 0 <= p < q.indices.len() ==> (#[trigger] q.indices[p]) < pp.half(i)
}

/// Reads `count` field elements. Fails, wherever it stopped reading, when
/// fewer canonical ones are left.
pub fn read_elements<F: FieldSerde>(proof: &mut Proof, count: usize) -> (r: Option<Vec<F>>)
    ensures
        final(proof).bytes == old(proof).bytes,
        r.is_some() == read_fields::<F>(old(proof).bytes@, old(proof).cursor(), count as nat).is_some(),
        r matches Some(v) ==> read_fields::<F>(old(proof).bytes@, old(proof).cursor(), count as nat)
            == Some(v@) && all_wf(v@) && v@.len() == count && final(proof).cursor() == old(
            proof,
        ).cursor() + count * F::spec_size(),
{
    let mut out: Vec<F> = Vec::new();
    let mut k: usize = 0;
    proof {
        assert(0 * F::spec_size() == 0) by (nonlinear_arith);
    }
    while k < count
        invariant
            k <= count,
            proof.bytes == old(proof).bytes,
            proof.cursor() == old(proof).cursor() + k * F::spec_size(),
            read_fields::<F>(old(proof).bytes@, old(proof).cursor(), k as nat) == Some(out@),
            all_wf(out@),
            out@.len() == k,
        decreases count - k,
    {
        proof {
            assert((k + 1) * F::spec_size() == k * F::spec_size() + F::spec_size())
                by (nonlinear_arith);
        }
        match proof.get_next_and_step::<F>() {
            None => {
                proof {
                    if read_fields::<F>(
                        old(proof).bytes@,
                        old(proof).cursor(),
                        count as nat,
                    ).is_some() {
                        lemma_read_fields_prefix::<F>(
                            old(proof).bytes@,
                            old(proof).cursor(),
                            (k + 1) as nat,
                            count as nat,
                        );
                    }
                }
                return None;
            },
            Some(v) => {
                out.push(v);
            },
        }
        k += 1;
    }
    Some(out)
}

pub struct DeepFoldVerifier<F: TwoAdicField> {
    pub commit: MerkleTreeVerifier,
    pub _data: PhantomData<F>,
}

impl<F: TwoAdicField> DeepFoldVerifier<F> {
    /// Runs the folding rounds: reads what each round sent, mirrors it into
    /// the transcript and draws the round's challenge. Yields the
    /// challenges, a verifier for each root that was sent, and the final
    /// claim.
    pub fn read_commit_phase(
        pp: &DeepFoldParam<F>,
        point: &[F],
        eval: F,
        transcript: &mut Transcript,
        proof: &mut Proof,
    ) -> (r: Option<(Vec<F>, Vec<MerkleTreeVerifier>, F)>)
        requires
            pp.wf(),
            point@.len() == pp.variable_num,
            old(transcript).wf(),
            all_wf(point@),
            eval.wf(),
        ensures
            final(proof).bytes == old(proof).bytes,
            final(transcript).wf(),
            r.is_some() == verify_commit_phase_from(
                *pp,
                point@,
                0,
                eval,
                Seq::empty(),
                Seq::empty(),
                old(transcript)@,
                old(proof).bytes@,
                old(proof).cursor(),
            ).is_some(),
            r matches Some(got) ==> verify_commit_phase_from(
                *pp,
                point@,
                0,
                eval,
                Seq::empty(),
                Seq::empty(),
                old(transcript)@,
                old(proof).bytes@,
                old(proof).cursor(),
            ) == Some(
                CommitView {
                    challenges: got.0@,
                    roots: roots_view(got.1@),
                    claim: got.2,
                    cursor: final(proof).cursor(),
                    t: final(transcript)@,
                },
            ) && got.0@.len() == pp.variable_num && all_wf(got.0@) && got.2.wf() && got.1@.len()
                == pp.variable_num - 1 && forall|k: int|
                0 <= k < got.1@.len() ==> (#[trigger] got.1@[k]).leave_number == pp.half(k + 1),
    {
        let ghost total = verify_commit_phase_from(
            *pp,
            point@,
            0,
            eval,
            Seq::empty(),
            Seq::empty(),
            old(transcript)@,
            old(proof).bytes@,
            old(proof).cursor(),
        );
        let n = pp.variable_num;
        let mut claim = eval;
        let mut challenges: Vec<F> = Vec::new();
        let mut commits: Vec<MerkleTreeVerifier> = Vec::new();
        let mut i: usize = 0;
        proof {
            assert(roots_view(commits@) =~= Seq::<Seq<u8>>::empty());
        }
        while i < n
            invariant
                i <= n == pp.variable_num == point@.len(),
                pp.wf(),
                all_wf(point@),
                claim.wf(),
                transcript.wf(),
                proof.bytes == old(proof).bytes,
                challenges@.len() == i,
                all_wf(challenges@),
                commits@.len() == (if i < n {
                    i as int
                } else {
                    n - 1
                }),
                forall|k: int|
                    0 <= k < commits@.len() ==> (#[trigger] commits@[k]).leave_number == pp.half(
                        k + 1,
                    ),
                total == verify_commit_phase_from(
                    *pp,
                    point@,
                    0,
                    eval,
                    Seq::empty(),
                    Seq::empty(),
                    old(transcript)@,
                    old(proof).bytes@,
                    old(proof).cursor(),
                ),
                verify_commit_phase_from(
                    *pp,
                    point@,
                    i as nat,
                    claim,
                    challenges@,
                    roots_view(commits@),
                    transcript@,
                    proof.bytes@,
                    proof.cursor(),
                ) == total,
            decreases n - i,
        {
            let next_eval = match proof.get_next_and_step::<F>() {
                None => {
                    return None;
                },
                Some(x) => x,
            };
            transcript.append_f(next_eval);
            let challenge = transcript.challenge_fext::<F>();
            claim = update_claim(&claim, &next_eval, &challenge, &point[i]);
            challenges.push(challenge);
            if i < n - 1 {
                let merkle_root = match proof.get_next_hash() {
                    None => {
                        return None;
                    },
                    Some(h) => h,
                };
                transcript.append_u8_slice(merkle_root.as_slice(), HASH_SIZE);
                let leaves = pp.half_size(i + 1);
                let ghost before = commits@;
                commits.push(MerkleTreeVerifier::new(leaves, &merkle_root));
                proof {
                    assert(merkle_root@.subrange(0, 32) =~= merkle_root@);
                    assert(roots_view(commits@) =~= roots_view(before).push(merkle_root@));
                }
            } else {
                let final_value = match proof.get_next_and_step::<F>() {
                    None => {
                        return None;
                    },
                    Some(x) => x,
                };
                transcript.append_f(final_value);
                if !final_value.equals(&claim) {
                    return None;
                }
            }
            i += 1;
        }
        Some((challenges, commits, claim))
    }

    /// Reads the answers to the queries of every round, mirroring them into
    /// the transcript.
    pub fn read_queries(
        pp: &DeepFoldParam<F>,
        first_indices: Vec<usize>,
        transcript: &mut Transcript,
        proof: &mut Proof,
    ) -> (r: Option<(Vec<Vec<usize>>, Vec<QueryResult<F>>)>)
        requires
            pp.wf(),
            first_indices@.len() <= pp.query_num,
            old(transcript).wf(),
        ensures
            final(proof).bytes == old(proof).bytes,
            final(transcript).wf(),
            r.is_some() == read_queries_from::<F>(
                *pp,
                first_indices@,
                0,
                old(proof).bytes@,
                old(proof).cursor(),
                Seq::empty(),
                old(transcript)@,
            ).is_some(),
            r matches Some(got) ==> read_queries_from::<F>(
                *pp,
                first_indices@,
                0,
                old(proof).bytes@,
                old(proof).cursor(),
                Seq::empty(),
                old(transcript)@,
            ) == Some(
                QueriesView {
                    answers: answers_view(*pp, got.0@, got.1@),
                    cursor: final(proof).cursor(),
                    t: final(transcript)@,
                },
            ) && got.0@.len() == pp.variable_num
                && got.1@.len() == pp.variable_num && answers_held(*pp, got.0@, got.1@)
                && forall|k: int|
                0 <= k < pp.variable_num ==> answers_wf(
                    *pp,
                    #[trigger] answers_view(*pp, got.0@, got.1@)[k],
                    k,
                ),
    {
        let ghost total = read_queries_from::<F>(
            *pp,
            first_indices@,
            0,
            old(proof).bytes@,
            old(proof).cursor(),
            Seq::empty(),
            old(transcript)@,
        );
        let n = pp.variable_num;
        let size = F::size();
        let mut leaf_indices = first_indices;
        let mut all_indices: Vec<Vec<usize>> = Vec::new();
        let mut query_results: Vec<QueryResult<F>> = Vec::new();
        let mut i: usize = 0;
        proof {
            assert(answers_view(*pp, all_indices@, query_results@) =~= Seq::<QueryView<F>>::empty());
        }
        while i < n
            invariant
                i <= n == pp.variable_num,
                pp.wf(),
                size == F::spec_size(),
                transcript.wf(),
                proof.bytes == old(proof).bytes,
                leaf_indices@.len() <= pp.query_num,
                all_indices@.len() == i,
                query_results@.len() == i,
                answers_held(*pp, all_indices@, query_results@),
                forall|k: int|
                    0 <= k < i ==> answers_wf(
                        *pp,
                        #[trigger] answers_view(*pp, all_indices@, query_results@)[k],
                        k,
                    ),
                total == read_queries_from::<F>(
                    *pp,
                    first_indices@,
                    0,
                    old(proof).bytes@,
                    old(proof).cursor(),
                    Seq::empty(),
                    old(transcript)@,
                ),
                read_queries_from::<F>(
                    *pp,
                    leaf_indices@,
                    i as nat,
                    proof.bytes@,
                    proof.cursor(),
                    answers_view(*pp, all_indices@, query_results@),
                    transcript@,
                ) == total,
            decreases n - i,
        {
            let half = pp.half_size(i);
            leaf_indices = reduced_indices(&leaf_indices, half);
            let counter = MerkleTreeVerifier { merkle_root: [0u8; HASH_SIZE], leave_number: half };
            proof {
                assert(leaf_indices@.len() * 2048 <= usize::MAX) by (nonlinear_arith)
                    requires
                        leaf_indices@.len() <= pp.query_num,
                        pp.query_num * 2048 <= usize::MAX,
                ;
            }
            let proof_len = counter.proof_length(&leaf_indices);
            let ghost start = proof.cursor();
            let proof_bytes = match proof.get_next_slice(proof_len) {
                None => {
                    return None;
                },
                Some(b) => b,
            };
            let proof_values = match read_elements::<F>(proof, 2 * leaf_indices.len()) {
                None => {
                    return None;
                },
                Some(v) => v,
            };
            let len = proof_bytes.len();
            proof {
                assert(proof_bytes@.subrange(0, len as int) =~= proof_bytes@);
            }
            transcript.append_u8_slice(proof_bytes.as_slice(), len);
            transcript.append_fs(&proof_values);
            let ghost before = answers_view(*pp, all_indices@, query_results@);
            let ghost view = QueryView {
                indices: leaf_indices@,
                proof_bytes: proof_bytes@,
                values: proof_values@,
            };
            let ghost held_before = query_results@;
            let ghost indices_before = all_indices@;
            all_indices.push(slice_to_vec(leaf_indices.as_slice()));
            query_results.push(
                QueryResult::from_answers(proof_bytes, &leaf_indices, &proof_values, half),
            );
            proof {
                assert forall|k: int| 0 <= k < query_results@.len() implies (
                #[trigger] query_results@[k]).holds(all_indices@[k]@, pp.half(k)) by {
                    if k < i {
                        assert(held_before[k].holds(indices_before[k]@, pp.half(k)));
                    }
                }
                assert(answers_view(*pp, all_indices@, query_results@) =~= before.push(view));
                assert(answers_wf(*pp, view, i as int));
                assert forall|k: int| 0 <= k < i + 1 implies answers_wf(
                    *pp,
                    #[trigger] answers_view(*pp, all_indices@, query_results@)[k],
                    k,
                ) by {
                    if k < i {
                        assert(answers_view(*pp, all_indices@, query_results@)[k] == before[k]);
                    }
                }
            }
            i += 1;
        }
        Some((all_indices, query_results))
    }

    /// Checks every round: the multi-proof against the round's root, and
    /// each answer against the next round or, in the last round, against
    /// the claim.
    pub fn check_queries(
        pp: &DeepFoldParam<F>,
        verifiers: &Vec<MerkleTreeVerifier>,
        challenges: &Vec<F>,
        claim: &F,
        indices: &Vec<Vec<usize>>,
        queries: &Vec<QueryResult<F>>,
    ) -> (r: bool)
        requires
            pp.wf(),
            verifiers@.len() == pp.variable_num,
            challenges@.len() == pp.variable_num,
            indices@.len() == pp.variable_num,
            queries@.len() == pp.variable_num,
            all_wf(challenges@),
            claim.wf(),
            forall|k: int|
                0 <= k < pp.variable_num ==> (#[trigger] verifiers@[k]).leave_number == pp.half(k),
            answers_held(*pp, indices@, queries@),
            forall|k: int|
                0 <= k < pp.variable_num ==> answers_wf(
                    *pp,
                    #[trigger] answers_view(*pp, indices@, queries@)[k],
                    k,
                ),
        ensures
            r == check_rounds(
                *pp,
                answers_view(*pp, indices@, queries@),
                roots_view(verifiers@),
                challenges@,
                *claim,
            ),
    {
        let n = pp.variable_num;
        let ghost answers = answers_view(*pp, indices@, queries@);
        let ghost roots = roots_view(verifiers@);
        let mut i: usize = 0;
        while i < n
            invariant
                i <= n == pp.variable_num,
                pp.wf(),
                verifiers@.len() == n,
                challenges@.len() == n,
                indices@.len() == n,
                queries@.len() == n,
                all_wf(challenges@),
                claim.wf(),
                answers == answers_view(*pp, indices@, queries@),
                answers_held(*pp, indices@, queries@),
                roots == roots_view(verifiers@),
                forall|k: int|
                    0 <= k < n ==> (#[trigger] verifiers@[k]).leave_number == pp.half(k),
                forall|k: int| 0 <= k < n ==> answers_wf(*pp, #[trigger] answers[k], k),
                forall|k: int|
                    0 <= k < i ==> #[trigger] check_round(
                        *pp,
                        answers,
                        roots,
                        challenges@,
                        *claim,
                        k,
                    ),
            decreases n - i,
        {
            let half = pp.half_size(i);
            let idx = &indices[i];
            let query = &queries[i];
            proof {
                assert(answers_wf(*pp, answers[i as int], i as int));
                assert(answers[i as int].indices == idx@);
                assert(answers[i as int].values == query.values_at(idx@, half as nat));
                assert(queries@[i as int].holds(idx@, half as nat));
                query.lemma_holds_covers(idx@, half as nat);
            }
            if !query.verify_merkle_tree(idx, 2, &verifiers[i]) {
                proof {
                    assert(!check_round(*pp, answers, roots, challenges@, *claim, i as int));
                }
                return false;
            }
            let count = idx.len();
            let mut p: usize = 0;
            while p < count
                invariant
                    p <= count == idx@.len(),
                    i < n == pp.variable_num,
                    pp.wf(),
                    half == pp.half(i as int),
                    2 * half <= usize::MAX,
                    2 * half == pp.mult_subgroups@[i as int].order(),
                    challenges@.len() == n,
                    indices@.len() == n,
                    queries@.len() == n,
                    all_wf(challenges@),
                    claim.wf(),
                    answers == answers_view(*pp, indices@, queries@),
                    answers_held(*pp, indices@, queries@),
                    roots == roots_view(verifiers@),
                    *idx == indices@[i as int],
                    *query == queries@[i as int],
                    query.covers(idx@, half as nat),
                    forall|k: int| 0 <= k < n ==> answers_wf(*pp, #[trigger] answers[k], k),
                    forall|q: int|
                        0 <= q < p ==> #[trigger] check_entry(
                            *pp,
                            answers,
                            challenges@,
                            *claim,
                            i as int,
                            q,
                        ),
                decreases count - p,
            {
                proof {
                    assert(answers_wf(*pp, answers[i as int], i as int));
                    assert(answers[i as int].indices[p as int] < pp.half(i as int));
                    assert(pp.mult_subgroups@[i as int].wf());
                }
                let j = idx[p];
                proof {
                    assert(query.proof_values@.contains_key(idx@[p as int]));
                }
                let x = value_at(&query.proof_values, j);
                let nx = value_at(&query.proof_values, j + half);
                proof {
                    assert(x == answers[i as int].values[p as int]);
                    assert(nx == answers[i as int].values[p + count]);
                    assert(x.wf() && nx.wf());
                    assert(challenges@[i as int].wf());
                }
                let inv = pp.mult_subgroups[i].element_inv_at(j);
                let new_v = fold_values(&x, &nx, &challenges[i], &inv);
                let ok = if i < n - 1 {
                    let next_half = pp.half_size(i + 1);
                    proof {
                        assert(answers_wf(*pp, answers[i + 1], i + 1));
                        assert(queries@[i + 1].holds(indices@[i + 1]@, next_half as nat));
                        lemma_lookup_in_table(queries@[i + 1], answers[i + 1], next_half as nat, j);
                        if let Some(p_next) = first_position(
                            answers[i + 1].indices,
                            ((j as int) % (next_half as int)) as usize,
                        ) {
                            lemma_first_position(
                                answers[i + 1].indices,
                                ((j as int) % (next_half as int)) as usize,
                            );
                            assert(answers[i + 1].values[p_next as int].wf());
                            assert(answers[i + 1].values[(p_next + answers[i
                                + 1].indices.len()) as int].wf());
                        }
                    }
                    match queries[i + 1].proof_values.get(&j) {
                        None => false,
                        Some(v) => new_v.equals(&v.double()),
                    }
                } else {
                    halve(&new_v).equals(claim)
                };
                if !ok {
                    proof {
                        assert(!check_entry(*pp, answers, challenges@, *claim, i as int, p as int));
                        assert(!check_round(*pp, answers, roots, challenges@, *claim, i as int));
                    }
                    return false;
                }
                p += 1;
            }
            proof {
                assert(roots[i as int] == verifiers@[i as int].merkle_root@);
                assert(check_round(*pp, answers, roots, challenges@, *claim, i as int));
            }
            i += 1;
        }
        true
    }
}

impl<F: TwoAdicField> PolyCommitVerifier<F> for DeepFoldVerifier<F> {
    type Param = DeepFoldParam<F>;

    type Commitment = MerkleRoot;

    open spec fn spec_verify(
        pp: &DeepFoldParam<F>,
        commitment: Seq<u8>,
        point: Seq<F>,
        eval: F,
        t: TranscriptState,
        proof_bytes: Seq<u8>,
        cursor: nat,
    ) -> bool {
        deepfold_verify(*pp, commitment, point, eval, t, proof_bytes, cursor)
    }

    /// The end of the last query round.
    open spec fn spec_cursor_after(
        pp: &DeepFoldParam<F>,
        commitment: Seq<u8>,
        point: Seq<F>,
        eval: F,
        t: TranscriptState,
        proof_bytes: Seq<u8>,
        cursor: nat,
    ) -> nat {
        match deepfold_read(*pp, point, eval, t, proof_bytes, cursor) {
            None => cursor,
            Some((cv, qv)) => qv.cursor,
        }
    }

    /// The transcript that has mirrored every round.
    open spec fn spec_transcript_after(
        pp: &DeepFoldParam<F>,
        commitment: Seq<u8>,
        point: Seq<F>,
        eval: F,
        t: TranscriptState,
        proof_bytes: Seq<u8>,
        cursor: nat,
    ) -> TranscriptState {
        match deepfold_read(*pp, point, eval, t, proof_bytes, cursor) {
            None => t,
            Some((cv, qv)) => qv.t,
        }
    }

    open spec fn param_wf(pp: &DeepFoldParam<F>) -> bool {
        pp.wf()
    }

    open spec fn wf(&self, pp: &DeepFoldParam<F>) -> bool {
        self.commit.leave_number == pp.half(0)
    }

    open spec fn spec_commitment(&self) -> Seq<u8> {
        self.commit.merkle_root@
    }

    fn new(pp: &DeepFoldParam<F>, commit: MerkleRoot) -> (r: Self) {
        let leaves = pp.half_size(0);
        DeepFoldVerifier { commit: MerkleTreeVerifier::new(leaves, &commit.0), _data: PhantomData }
    }

    fn verify(
        &self,
        pp: &DeepFoldParam<F>,
        point: &[F],
        eval: F,
        transcript: &mut Transcript,
        proof: &mut Proof,
    ) -> (r: bool) {
        if point.len() != pp.variable_num {
            return false;
        }
        let (challenges, commits, claim) = match Self::read_commit_phase(
            pp,
            point,
            eval,
            transcript,
            proof,
        ) {
            None => {
                return false;
            },
            Some(got) => got,
        };
        let ghost folded = transcript@;
        let ghost cv = CommitView {
            challenges: challenges@,
            roots: roots_view(commits@),
            claim,
            cursor: proof.cursor(),
            t: folded,
        };
        let leaf_indices = transcript.challenge_usizes(pp.query_num);
        proof {
            assert(leaf_indices@ =~= challenge_indices(folded, pp.query_num as nat));
        }
        let ghost first = leaf_indices@;
        let (indices, queries) = match Self::read_queries(pp, leaf_indices, transcript, proof) {
            None => {
                return false;
            },
            Some(got) => got,
        };
        let ghost qv = QueriesView {
            answers: answers_view(*pp, indices@, queries@),
            cursor: proof.cursor(),
            t: transcript@,
        };
        let mut verifiers: Vec<MerkleTreeVerifier> = Vec::new();
        verifiers.push(self.commit);
        let mut k: usize = 0;
        while k < commits.len()
            invariant
                k <= commits@.len(),
                verifiers@.len() == k + 1,
                verifiers@[0] == self.commit,
                forall|m: int| 0 <= m < k ==> #[trigger] verifiers@[m + 1] == commits@[m],
            decreases commits@.len() - k,
        {
            verifiers.push(commits[k]);
            k += 1;
        }
        proof {
            assert(roots_view(verifiers@) =~= seq![self.commit.merkle_root@] + roots_view(
                commits@,
            ));
            assert forall|m: int| 0 <= m < pp.variable_num implies (
            #[trigger] verifiers@[m]).leave_number == pp.half(m) by {
                if m > 0 {
                    assert(verifiers@[(m - 1) + 1] == commits@[m - 1]);
                }
            }
        }
        proof {
            assert(verify_commit_phase_from(
                *pp,
                point@,
                0,
                eval,
                Seq::empty(),
                Seq::empty(),
                old(transcript)@,
                old(proof).bytes@,
                old(proof).cursor(),
            ) == Some(cv));
            assert(read_queries_from::<F>(
                *pp,
                challenge_indices(cv.t, pp.query_num as nat),
                0,
                old(proof).bytes@,
                cv.cursor,
                Seq::empty(),
                cv.t.squeeze_n(pp.query_num as nat),
            ) == Some(qv));
            assert(deepfold_read(
                *pp,
                point@,
                eval,
                old(transcript)@,
                old(proof).bytes@,
                old(proof).cursor(),
            ) == Some((cv, qv)));
        }
        proof {
            assert(seq![self.commit.merkle_root@] + cv.roots == roots_view(verifiers@));
        }
        Self::check_queries(pp, &verifiers, &challenges, &claim, &indices, &queries)
    }
}

} // verus!
