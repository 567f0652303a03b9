//! Merkle commitments to byte strings, over BLAKE3.
//!
//! The trees and their multi-proofs are built and checked by rs_merkle; the
//! length of a multi-proof is computed here.
use rs_merkle::{Hasher, MerkleProof, MerkleTree};
use vstd::prelude::*;

verus! {

/// Width of a hash in bytes.
pub const HASH_SIZE: usize = 32;

/// The BLAKE3 hash of `data`: 32 bytes that depend on `data` alone.
pub uninterp spec fn blake3(data: Seq<u8>) -> Seq<u8>;

/// The hash of `data`, computed by `blake3::hash`.
#[verifier::external_body]
pub(crate) fn blake3_hash(data: &[u8]) -> (r: [u8; HASH_SIZE])
    ensures
        r@ == blake3(data@),
{
    blake3::hash(data).into()
}

#[derive(Clone, Copy, Debug)]
pub struct Blake3Algorithm {}

impl Hasher for Blake3Algorithm {
    type Hash = [u8; HASH_SIZE];

    fn hash(data: &[u8]) -> (r: [u8; HASH_SIZE])
        ensures
            r@ == blake3(data@),
    {
        blake3_hash(data)
    }
}

/// A Merkle tree of rs_merkle over BLAKE3.
#[verifier::external_body]
pub struct Blake3Tree {
    tree: MerkleTree<Blake3Algorithm>,
}

/// The leaf hashes that a tree was built from, in order.
pub uninterp spec fn tree_leaves(tree: Blake3Tree) -> Seq<Seq<u8>>;

/// The root of the tree over the leaf hashes `leaves`; `None` without leaves.
pub uninterp spec fn merkle_root(leaves: Seq<Seq<u8>>) -> Option<Seq<u8>>;

/// The serialized multi-proof that opens the leaves at `indices` in the tree
/// over the leaf hashes `leaves`.
pub uninterp spec fn merkle_proof(leaves: Seq<Seq<u8>>, indices: Seq<usize>) -> Seq<u8>;

/// The root that a serialized multi-proof yields for the leaf hashes
/// `leaf_hashes` at `indices` in a tree of `total` leaves; `None` where the
/// proof cannot be read or does not fit.
pub uninterp spec fn merkle_proof_root(
    proof_bytes: Seq<u8>,
    indices: Seq<usize>,
    leaf_hashes: Seq<Seq<u8>>,
    total: usize,
) -> Option<Seq<u8>>;

/// The hashes as byte sequences.
pub open spec fn hashes_view(hashes: Seq<[u8; HASH_SIZE]>) -> Seq<Seq<u8>> {
    Seq::new(hashes.len(), |i: int| hashes[i]@)
}

/// Builds the tree with `MerkleTree::from_leaves` of rs_merkle, which keeps
/// the leaf hashes it is given.
#[verifier::external_body]
fn tree_from_leaves(leaves: &Vec<[u8; HASH_SIZE]>) -> (tree: Blake3Tree)
    ensures
        tree_leaves(tree) == hashes_view(leaves@),
{
    Blake3Tree { tree: MerkleTree::<Blake3Algorithm>::from_leaves(leaves) }
}

/// The root, by `MerkleTree::root` of rs_merkle: a function of the leaf
/// hashes, present as soon as there is a leaf.
#[verifier::external_body]
fn tree_root(tree: &Blake3Tree) -> (r: Option<[u8; HASH_SIZE]>)
    ensures
        r.is_some() == merkle_root(tree_leaves(*tree)).is_some(),
        r matches Some(h) ==> merkle_root(tree_leaves(*tree)) == Some(h@),
        tree_leaves(*tree).len() > 0 ==> r.is_some(),
{
    tree.tree.root()
}

/// The elements of `leaves` at `indices`.
pub open spec fn picked(leaves: Seq<Seq<u8>>, indices: Seq<usize>) -> Seq<Seq<u8>> {
    Seq::new(indices.len(), |k: int| leaves[indices[k] as int])
}

/// The elements ascend strictly.
pub open spec fn ascending(s: Seq<usize>) -> bool {
    forall|a: int, b: int| 0 <= a < b < s.len() ==> s[a] < s[b]
}

/// `indices` name leaves of a tree of `count` leaves: at least one, each
/// once, in ascending order.
pub open spec fn names_leaves(indices: Seq<usize>, count: nat) -> bool {
    &&& indices.len() > 0
    &&& ascending(indices)
    &&& forall|k: int| 0 <= k < indices.len() ==> (#[trigger] indices[k]) < count
}

/// The multi-proof for `indices`, by `MerkleTree::proof` of rs_merkle,
/// serialized by `MerkleProof::to_bytes`: a function of the leaf hashes and
/// the indices. Where the indices name leaves of the tree, the proof is one
/// for them: read back by `MerkleProof::try_from` and given the hashes of
/// those leaves, `MerkleProof::root` takes it to the root of the tree.
#[verifier::external_body]
fn tree_proof_bytes(tree: &Blake3Tree, indices: &Vec<usize>) -> (r: Vec<u8>)
    ensures
        r@ == merkle_proof(tree_leaves(*tree), indices@),
        names_leaves(indices@, tree_leaves(*tree).len()) ==> merkle_proof_root(
            r@,
            indices@,
            picked(tree_leaves(*tree), indices@),
            tree_leaves(*tree).len() as usize,
        ) == merkle_root(tree_leaves(*tree)),
{
    tree.tree.proof(indices).to_bytes()
}

/// The root that a serialized multi-proof yields, by `MerkleProof::root` of
/// rs_merkle on the proof read by `MerkleProof::try_from`; `None` where
/// either fails.
#[verifier::external_body]
fn proof_root(
    proof_bytes: &[u8],
    indices: &Vec<usize>,
    leaf_hashes: &Vec<[u8; HASH_SIZE]>,
    total: usize,
) -> (r: Option<[u8; HASH_SIZE]>)
    ensures
        r.is_some() == merkle_proof_root(
            proof_bytes@,
            indices@,
            hashes_view(leaf_hashes@),
            total,
        ).is_some(),
        r matches Some(h) ==> merkle_proof_root(
            proof_bytes@,
            indices@,
            hashes_view(leaf_hashes@),
            total,
        ) == Some(h@),
{
    let proof = MerkleProof::<Blake3Algorithm>::try_from(proof_bytes).ok()?;
    proof.root(indices, leaf_hashes, total).ok()
}

/// The hash of each leaf.
pub open spec fn leaf_hashes(leaves: Seq<Seq<u8>>) -> Seq<Seq<u8>> {
    Seq::new(leaves.len(), |i: int| blake3(leaves[i]))
}

/// Hashes each leaf.
pub fn hash_leaves(leaves: &Vec<Vec<u8>>) -> (r: Vec<[u8; HASH_SIZE]>)
    ensures
        hashes_view(r@) == leaf_hashes(leaves.deep_view()),
        r@.len() == leaves@.len(),
{
    let mut out: Vec<[u8; HASH_SIZE]> = Vec::new();
    let mut i: usize = 0;
    while i < leaves.len()
        invariant
            i <= leaves@.len(),
            out@.len() == i,
            forall|j: int| 0 <= j < i ==> (#[trigger] out@[j])@ == blake3(leaves@[j]@),
        decreases leaves@.len() - i,
    {
        out.push(blake3_hash(leaves[i].as_slice()));
        i += 1;
    }
    proof {
        assert forall|j: int| 0 <= j < leaves@.len() implies leaves.deep_view()[j] == leaves@[j]@ by {
            assert(leaves@[j].deep_view() =~= leaves@[j]@);
        }
        assert(hashes_view(out@) =~= leaf_hashes(leaves.deep_view()));
    }
    out
}

/// Two hashes are the same bytes.
pub fn hash_eq(a: &[u8; HASH_SIZE], b: &[u8; HASH_SIZE]) -> (r: bool)
    ensures
        r == (a@ == b@),
{
    let mut i: usize = 0;
    while i < HASH_SIZE
        invariant
            i <= HASH_SIZE,
            forall|j: int| 0 <= j < i ==> a@[j] == b@[j],
        decreases HASH_SIZE - i,
    {
        if a[i] != b[i] {
            return false;
        }
        i += 1;
    }
    proof {
        assert(a@ =~= b@);
    }
    true
}

/// The prover's side of a commitment: the tree over the hashed leaves.
pub struct MerkleTreeProver {
    pub merkle_tree: Blake3Tree,
    pub leave_num: usize,
}

/// The verifier's side of a commitment: the root and the number of leaves.
#[derive(Clone, Copy, Debug)]
pub struct MerkleTreeVerifier {
    pub merkle_root: [u8; HASH_SIZE],
    pub leave_number: usize,
}

impl MerkleTreeProver {
    /// The tree holds the hashes of `leave_num` leaves, at least one.
    pub open spec fn wf(&self) -> bool {
        &&& self.leave_num > 0
        &&& tree_leaves(self.merkle_tree).len() == self.leave_num
    }

    /// The leaf hashes that the tree was built from.
    pub open spec fn leaves(&self) -> Seq<Seq<u8>> {
        tree_leaves(self.merkle_tree)
    }

    /// The tree over the hashes of `leaf_values`. The number of leaves should
    /// be a power of two.
    pub fn new(leaf_values: Vec<Vec<u8>>) -> (r: Self)
        requires
            leaf_values@.len() > 0,
        ensures
            r.leaves() == leaf_hashes(leaf_values.deep_view()),
            r.leave_num == leaf_values@.len(),
            r.wf(),
    {
        let hashes = hash_leaves(&leaf_values);
        let merkle_tree = tree_from_leaves(&hashes);
        Self { merkle_tree, leave_num: leaf_values.len() }
    }

    pub fn leave_num(&self) -> (n: usize)
        ensures
            n == self.leave_num,
    {
        self.leave_num
    }

    /// The root of the tree.
    pub fn commit(&self) -> (root: [u8; HASH_SIZE])
        requires
            self.wf(),
        ensures
            merkle_root(self.leaves()) == Some(root@),
    {
        match tree_root(&self.merkle_tree) {
            Some(root) => root,
            None => [0u8; HASH_SIZE],
        }
    }

    /// The serialized multi-proof for the leaves at `leaf_indices`. Where
    /// these name leaves of the tree, the proof leads from their hashes to
    /// the root that `commit` yields, which is what a verifier for that root
    /// accepts.
    pub fn open(&self, leaf_indices: &Vec<usize>) -> (proof_bytes: Vec<u8>)
        ensures
            proof_bytes@ == merkle_proof(self.leaves(), leaf_indices@),
            self.wf() && names_leaves(leaf_indices@, self.leave_num as nat) ==> merkle_proof_root(
                proof_bytes@,
                leaf_indices@,
                picked(self.leaves(), leaf_indices@),
                self.leave_num,
            ) == merkle_root(self.leaves()),
    {
        tree_proof_bytes(&self.merkle_tree, leaf_indices)
    }
}

/// The index of the other child of the same parent.
pub open spec fn sibling(i: usize) -> usize {
    if i % 2 == 0 {
        (i + 1) as usize
    } else {
        (i - 1) as usize
    }
}

/// The sibling of each index.
pub open spec fn siblings(s: Seq<usize>) -> Seq<usize> {
    Seq::new(s.len(), |i: int| sibling(s[i]))
}

/// The elements of `a` that do not occur in `b`, in order.
pub open spec fn keep_missing(a: Seq<usize>, b: Seq<usize>) -> Seq<usize>
    decreases a.len(),
{
    if a.len() == 0 {
        a
    } else if b.contains(a.last()) {
        keep_missing(a.drop_last(), b)
    } else {
        keep_missing(a.drop_last(), b).push(a.last())
    }
}

/// `s` without the elements that repeat their predecessor.
pub open spec fn dedup(s: Seq<usize>) -> Seq<usize>
    decreases s.len(),
{
    if s.len() <= 1 {
        s
    } else if s.last() == s[s.len() - 2] {
        dedup(s.drop_last())
    } else {
        dedup(s.drop_last()).push(s.last())
    }
}

/// The parent of each index, without consecutive repetitions.
pub open spec fn parents(s: Seq<usize>) -> Seq<usize> {
    dedup(Seq::new(s.len(), |i: int| s[i] / 2))
}

/// The number of sibling hashes that a multi-proof for `indices` carries
/// over `depth` levels: at each level the siblings that are not themselves
/// among the indices.
pub open spec fn helper_count(indices: Seq<usize>, depth: nat) -> nat
    decreases depth,
{
    if depth == 0 {
        0
    } else {
        keep_missing(siblings(indices), indices).len() + helper_count(
            parents(indices),
            (depth - 1) as nat,
        )
    }
}

/// The number of times `n` can be halved before it reaches 1.
pub open spec fn log2_floor(n: nat) -> nat
    decreases n,
{
    if n <= 1 {
        0
    } else {
        1 + log2_floor(n / 2)
    }
}

pub proof fn lemma_keep_missing_len(a: Seq<usize>, b: Seq<usize>)
    ensures
        keep_missing(a, b).len() <= a.len(),
    decreases a.len(),
{
    if a.len() > 0 {
        lemma_keep_missing_len(a.drop_last(), b);
    }
}

/// Without its repetitions, a sequence in order ascends strictly, and it
/// still ends on the same element.
pub proof fn lemma_dedup_ascending(s: Seq<usize>)
    requires
        forall|a: int, b: int| 0 <= a < b < s.len() ==> s[a] <= s[b],
    ensures
        ascending(dedup(s)),
        s.len() > 0 ==> dedup(s).len() > 0 && dedup(s).last() == s.last(),
    decreases s.len(),
{
    if s.len() > 1 {
        let head = s.drop_last();
        lemma_dedup_ascending(head);
        let d = dedup(head);
        assert(head.last() == s[s.len() - 2]);
        if s.last() != s[s.len() - 2] {
            let e = d.push(s.last());
            assert(dedup(s) == e);
            assert forall|a: int, b: int| 0 <= a < b < e.len() implies e[a] < e[b] by {
                if b == d.len() {
                    assert(d[a] <= d.last());
                    assert(s[s.len() - 2] <= s[s.len() - 1]);
                }
            }
        }
    }
}

pub proof fn lemma_dedup_len(s: Seq<usize>)
    ensures
        dedup(s).len() <= s.len(),
    decreases s.len(),
{
    if s.len() > 1 {
        lemma_dedup_len(s.drop_last());
    }
}

/// A multi-proof carries at most one hash per index and level.
pub proof fn lemma_helper_count_bound(indices: Seq<usize>, depth: nat)
    ensures
        helper_count(indices, depth) <= depth * indices.len(),
    decreases depth,
{
    if depth > 0 {
        lemma_keep_missing_len(siblings(indices), indices);
        lemma_dedup_len(Seq::new(indices.len(), |i: int| indices[i] / 2));
        lemma_helper_count_bound(parents(indices), (depth - 1) as nat);
        assert(helper_count(indices, depth) <= depth * indices.len()) by (nonlinear_arith)
            requires
                helper_count(indices, depth) <= indices.len() + helper_count(
                    parents(indices),
                    (depth - 1) as nat,
                ),
                helper_count(parents(indices), (depth - 1) as nat) <= (depth - 1) * parents(
                    indices,
                ).len(),
                parents(indices).len() <= indices.len(),
                depth > 0,
        ;
    }
}

/// `x` occurs in `b`.
fn contains(b: &[usize], x: usize) -> (r: bool)
    ensures
        r == b@.contains(x),
{
    let mut i: usize = 0;
    while i < b.len()
        invariant
            i <= b@.len(),
            forall|j: int| 0 <= j < i ==> b@[j] != x,
        decreases b@.len() - i,
    {
        if b[i] == x {
            return true;
        }
        i += 1;
    }
    false
}

/// `s` without the elements that repeat their predecessor.
pub fn dedup_vec(s: &Vec<usize>) -> (r: Vec<usize>)
    ensures
        r@ == dedup(s@),
{
    let mut out: Vec<usize> = Vec::new();
    let mut i: usize = 0;
    proof {
        assert(s@.subrange(0, 0) =~= out@);
    }
    while i < s.len()
        invariant
            i <= s@.len(),
            out@ == dedup(s@.subrange(0, i as int)),
        decreases s@.len() - i,
    {
        let ghost prefix = s@.subrange(0, i + 1);
        proof {
            assert(prefix.drop_last() =~= s@.subrange(0, i as int));
            assert(prefix.last() == s@[i as int]);
            if i > 0 {
                assert(prefix[prefix.len() - 2] == s@[i - 1]);
            }
        }
        if i == 0 || s[i] != s[i - 1] {
            out.push(s[i]);
            proof {
                if i == 0 {
                    assert(out@ =~= prefix);
                }
            }
        }
        i += 1;
    }
    proof {
        assert(s@.subrange(0, s@.len() as int) =~= s@);
    }
    out
}

impl MerkleTreeVerifier {
    pub fn new(leave_number: usize, merkle_root: &[u8; HASH_SIZE]) -> (r: Self)
        ensures
            r.leave_number == leave_number,
            r.merkle_root == *merkle_root,
    {
        Self { leave_number, merkle_root: *merkle_root }
    }

    /// The elements of `a` that do not occur in `b`, in order.
    pub fn difference(a: &[usize], b: &[usize]) -> (r: Vec<usize>)
        ensures
            r@ == keep_missing(a@, b@),
    {
        let mut out: Vec<usize> = Vec::new();
        let mut i: usize = 0;
        proof {
            assert(a@.subrange(0, 0) =~= out@);
        }
        while i < a.len()
            invariant
                i <= a@.len(),
                out@ == keep_missing(a@.subrange(0, i as int), b@),
            decreases a@.len() - i,
        {
            proof {
                let prefix = a@.subrange(0, i + 1);
                assert(prefix.drop_last() =~= a@.subrange(0, i as int));
                assert(prefix.last() == a@[i as int]);
            }
            if !contains(b, a[i]) {
                out.push(a[i]);
            }
            i += 1;
        }
        proof {
            assert(a@.subrange(0, a@.len() as int) =~= a@);
        }
        out
    }

    /// The length in bytes of the multi-proof for `indices`, which are
    /// sorted and without repetition: one hash for each sibling, at each
    /// level, that is not itself on a path from an index to the root.
    pub fn proof_length(&self, indices: &Vec<usize>) -> (len: usize)
        requires
            self.leave_number > 0,
            indices@.len() * 2048 <= usize::MAX,
        ensures
            len == HASH_SIZE * helper_count(indices@, log2_floor(self.leave_number as nat)),
    {
        let mut current: Vec<usize> = Vec::new();
        let mut i: usize = 0;
        while i < indices.len()
            invariant
                i <= indices@.len(),
                current@ == indices@.subrange(0, i as int),
            decreases indices@.len() - i,
        {
            current.push(indices[i]);
            proof {
                assert(current@ =~= indices@.subrange(0, i + 1));
            }
            i += 1;
        }
        proof {
            assert(indices@.subrange(0, indices@.len() as int) =~= indices@);
        }
        let mut res: usize = 0;
        let mut n: usize = self.leave_number;
        let mut levels: usize = 0;
        let ghost total = log2_floor(self.leave_number as nat);
        proof {
            lemma_log2_floor_bound(self.leave_number as nat);
        }
        while n > 1
            invariant
                n >= 1,
                levels <= total <= 64,
                log2_floor(n as nat) == total - levels,
                current@.len() <= indices@.len(),
                indices@.len() * 2048 <= usize::MAX,
                res <= levels * indices@.len(),
                res + helper_count(current@, log2_floor(n as nat)) == helper_count(
                    indices@,
                    total,
                ),
            decreases n,
        {
            let mut sibs: Vec<usize> = Vec::new();
            let mut halves: Vec<usize> = Vec::new();
            let mut k: usize = 0;
            while k < current.len()
                invariant
                    k <= current@.len(),
                    sibs@.len() == k,
                    halves@.len() == k,
                    forall|j: int| 0 <= j < k ==> #[trigger] sibs@[j] == sibling(current@[j]),
                    forall|j: int| 0 <= j < k ==> #[trigger] halves@[j] == current@[j] / 2,
                decreases current@.len() - k,
            {
                let x = current[k];
                if x % 2 == 0 {
                    assert(x < usize::MAX) by {
                        assert(usize::MAX % 2 == 1);
                    }
                    sibs.push(x + 1);
                } else {
                    sibs.push(x - 1);
                }
                halves.push(x / 2);
                k += 1;
            }
            proof {
                assert(sibs@ =~= siblings(current@));
                assert(halves@ =~= Seq::new(current@.len(), |i: int| current@[i] / 2));
                lemma_keep_missing_len(siblings(current@), current@);
                lemma_dedup_len(halves@);
            }
            let help_indices = Self::difference(sibs.as_slice(), current.as_slice());
            proof {
                assert((levels + 1) * indices@.len() <= 64 * indices@.len()) by (nonlinear_arith)
                    requires
                        levels + 1 <= 64,
                ;
                assert(res + help_indices@.len() <= (levels + 1) * indices@.len())
                    by (nonlinear_arith)
                    requires
                        res <= levels * indices@.len(),
                        help_indices@.len() <= indices@.len(),
                ;
            }
            res += help_indices.len();
            current = dedup_vec(&halves);
            n = n / 2;
            levels += 1;
        }
        proof {
            assert(res <= 64 * indices@.len()) by (nonlinear_arith)
                requires
                    res <= levels * indices@.len(),
                    levels <= 64,
            ;
        }
        res * HASH_SIZE
    }

    /// Whether `proof_bytes` opens `leaves` at `indices` under the root held.
    /// A proof that cannot be read, that does not fit, or that leads to
    /// another root gives `false`.
    pub fn verify(&self, proof_bytes: Vec<u8>, indices: &Vec<usize>, leaves: &Vec<Vec<u8>>) -> (r:
        bool)
        ensures
            r == (merkle_proof_root(
                proof_bytes@,
                indices@,
                leaf_hashes(leaves.deep_view()),
                self.leave_number,
            ) == Some(self.merkle_root@)),
    {
        let leaves_to_prove = hash_leaves(leaves);
        let extracted = proof_root(
            proof_bytes.as_slice(),
            indices,
            &leaves_to_prove,
            self.leave_number,
        );
        Self::root_matches(&extracted, &self.merkle_root)
    }

    /// Whether the root extracted from a proof, if any, is `root`.
    pub fn root_matches(extracted: &Option<[u8; HASH_SIZE]>, root: &[u8; HASH_SIZE]) -> (r: bool)
        ensures
            r == (extracted matches Some(h) && h@ == root@),
    {
        match extracted {
            Some(h) => hash_eq(h, root),
            None => false,
        }
    }
}

/// An opening leads to one root: under any other root it is rejected.
pub proof fn lemma_opening_fits_one_root(
    proof_bytes: Seq<u8>,
    indices: Seq<usize>,
    leaf_hashes: Seq<Seq<u8>>,
    total: usize,
    root: Seq<u8>,
    other: Seq<u8>,
)
    requires
        merkle_proof_root(proof_bytes, indices, leaf_hashes, total) == Some(root),
        other != root,
    ensures
        merkle_proof_root(proof_bytes, indices, leaf_hashes, total) != Some(other),
{
}

/// A machine word can be halved at most 64 times.
pub proof fn lemma_log2_floor_bound(n: nat)
    requires
        n <= usize::MAX,
    ensures
        log2_floor(n) <= 64,
{
    crate::field::lemma_pow2_64();
    lemma_log2_floor_le(n, 64);
}

proof fn lemma_log2_floor_le(n: nat, k: nat)
    requires
        n < crate::field::pow2(k),
    ensures
        log2_floor(n) <= k,
    decreases k,
{
    if n > 1 {
        if k > 0 {
            lemma_log2_floor_le(n / 2, (k - 1) as nat);
        }
    }
}

/// The root that a proof for one leaf leads to.
pub struct MerkleRoot;

impl MerkleRoot {
    /// The root that `proof_bytes` yields for `leaf` at `index` in a tree of
    /// `total_leaves_count` leaves, if the proof can be read and fits.
    pub fn get_root(proof_bytes: Vec<u8>, index: usize, leaf: Vec<u8>, total_leaves_count: usize)
        -> (r: Option<[u8; HASH_SIZE]>)
        ensures
            r.is_some() == merkle_proof_root(
                proof_bytes@,
                seq![index],
                seq![blake3(leaf@)],
                total_leaves_count,
            ).is_some(),
            r matches Some(h) ==> merkle_proof_root(
                proof_bytes@,
                seq![index],
                seq![blake3(leaf@)],
                total_leaves_count,
            ) == Some(h@),
    {
        let mut leaf_hashes: Vec<[u8; HASH_SIZE]> = Vec::new();
        leaf_hashes.push(blake3_hash(leaf.as_slice()));
        let mut indices: Vec<usize> = Vec::new();
        indices.push(index);
        proof {
            assert(indices@ =~= seq![index]);
            assert(hashes_view(leaf_hashes@) =~= seq![blake3(leaf@)]);
        }
        proof_root(proof_bytes.as_slice(), &indices, &leaf_hashes, total_leaves_count)
    }
}

} // verus!
