//! The Merkle mountain range over the digests of the headers.

use ckb_merkle_mountain_range::util::MemStore;
use ckb_merkle_mountain_range::{Merge, MerkleProof, MMR};
use vstd::prelude::*;

use crate::types::records::{Header, HeaderDigest};
use crate::utilities::hash::{hash32_concat, hash_fixed, sha256};
use crate::utilities::ssz::Hash256;

verus! {

/// The error type of the mountain-range crate.
#[verifier::external_type_specification]
#[verifier::external_body]
pub struct ExMountainRangeError(ckb_merkle_mountain_range::Error);

/// Number of set bits of `n`.
pub open spec fn count_ones(n: nat) -> nat
    decreases n,
{
    if n == 0 {
        0
    } else {
        n % 2 + count_ones(n / 2)
    }
}

/// Number of zero bits below the lowest set bit of a positive `n`.
pub open spec fn trailing_zeros(n: nat) -> nat
    decreases n,
{
    if n == 0 || n % 2 == 1 {
        0
    } else {
        1 + trailing_zeros(n / 2)
    }
}

/// Number of nodes of a mountain range whose last leaf has the given
/// index: twice the leaves less the peaks.
pub open spec fn spec_leaf_index_to_mmr_size(index: u64) -> nat {
    (2 * (index + 1) - count_ones((index + 1) as nat)) as nat
}

/// Position of the leaf with the given index among the nodes.
pub open spec fn spec_leaf_index_to_pos(index: u64) -> int {
    spec_leaf_index_to_mmr_size(index) - trailing_zeros((index + 1) as nat) - 1
}

/// Above this leaf index the sizes of a mountain range no longer fit the
/// arithmetic of its proofs.
pub const MAX_LEAF_INDEX: u64 = 0x3FFF_FFFF_FFFF_FFFE;

/// A number has no more set bits than its value.
pub proof fn lemma_count_ones_bound(n: nat)
    ensures
        count_ones(n) <= n,
    decreases n,
{
    if n > 0 {
        lemma_count_ones_bound(n / 2);
    }
}

/// What the inclusion check of a mountain range of `mmr_size` nodes says
/// of proof items, a root, and a leaf at a position: `None` where the
/// proof is malformed, else whether the root computed from leaf and proof
/// is the given root. Nodes are merged as [`MergeHeaderDigest`] merges.
pub uninterp spec fn mmr_inclusion_outcome(
    mmr_size: u64,
    proof: Seq<Seq<u8>>,
    root: Seq<u8>,
    position: u64,
    leaf: Seq<u8>,
) -> Option<bool>;

/// What the incremental check of a mountain range of `mmr_size` nodes
/// says of proof items, the new root, the old root and the appended
/// leaves: `None` where the proof is malformed, else whether the old root
/// and the new root are those of the range before and after the leaves
/// were appended.
pub uninterp spec fn mmr_incremental_outcome(
    mmr_size: u64,
    proof: Seq<Seq<u8>>,
    root: Seq<u8>,
    prev_root: Seq<u8>,
    incremental: Seq<Seq<u8>>,
) -> Option<bool>;

/// The bytes of each digest.
pub open spec fn digests_view(digests: Seq<HeaderDigest>) -> Seq<Seq<u8>> {
    Seq::new(digests.len(), |i: int| digests[i].children_hash@)
}

/// A positive number has no more set bits and trailing zeros together
/// than its value.
pub proof fn lemma_bits_bound(n: nat)
    requires
        n > 0,
    ensures
        count_ones(n) + trailing_zeros(n) <= n,
    decreases n,
{
    lemma_count_ones_bound(n);
    if n % 2 == 0 {
        lemma_bits_bound(n / 2);
    }
}

/// Number of set bits of `n`.
fn set_bits(n: u64) -> (ones: u64)
    ensures
        ones == count_ones(n as nat),
{
    let mut rest: u64 = n;
    let mut ones: u64 = 0;
    proof {
        lemma_count_ones_bound(n as nat);
    }
    while rest > 0
        invariant
            count_ones(n as nat) == ones + count_ones(rest as nat),
            count_ones(n as nat) <= n,
        decreases rest,
    {
        ones = ones + rest % 2;
        rest = rest / 2;
    }
    ones
}

/// Number of zero bits below the lowest set bit of a positive `n`.
fn zero_bits_below(n: u64) -> (zeros: u64)
    requires
        n > 0,
    ensures
        zeros == trailing_zeros(n as nat),
{
    let mut rest: u64 = n;
    let mut zeros: u64 = 0;
    proof {
        lemma_bits_bound(n as nat);
    }
    while rest % 2 == 0
        invariant
            rest > 0,
            trailing_zeros(n as nat) == zeros + trailing_zeros(rest as nat),
            trailing_zeros(n as nat) <= n,
        decreases rest,
    {
        zeros = zeros + 1;
        rest = rest / 2;
    }
    zeros
}

/// Number of nodes of a mountain range whose last leaf has the given
/// index.
pub fn leaf_index_to_mmr_size(index: u64) -> (size: u64)
    requires
        index <= MAX_LEAF_INDEX,
    ensures
        size == spec_leaf_index_to_mmr_size(index),
{
    let leaves_count = index + 1;
    proof {
        lemma_count_ones_bound(leaves_count as nat);
    }
    let peak_count = set_bits(leaves_count);
    2 * leaves_count - peak_count
}

/// Position of the leaf with the given index among the nodes of a
/// mountain range.
pub fn leaf_index_to_pos(index: u64) -> (position: u64)
    requires
        index <= MAX_LEAF_INDEX,
    ensures
        position == spec_leaf_index_to_pos(index),
{
    let leaves_count = index + 1;
    proof {
        lemma_bits_bound(leaves_count as nat);
    }
    leaf_index_to_mmr_size(index) - zero_bits_below(leaves_count) - 1
}

/// Builds a `MerkleProof` of the mountain-range crate and calls its
/// `verify` with one leaf; an error of the crate becomes `None`. The
/// outcome is taken as a function of the arguments; the walk through the
/// range is not verified here.
#[verifier::external_body]
pub(crate) fn mmr_verify(
    mmr_size: u64,
    proof: &Vec<HeaderDigest>,
    root: HeaderDigest,
    position: u64,
    leaf: HeaderDigest,
) -> (outcome: Option<bool>)
    requires
        mmr_size < 0x8000_0000_0000_0000,
    ensures
        outcome == mmr_inclusion_outcome(
            mmr_size,
            digests_view(proof@),
            root.children_hash@,
            position,
            leaf.children_hash@,
        ),
{
    MerkleProof::<HeaderDigest, MergeHeaderDigest>::new(mmr_size, proof.clone()).verify(
        root,
        vec![(position, leaf)],
    ).ok()
}

/// Builds a `MerkleProof` of the mountain-range crate and calls its
/// `verify_incremental`; an error of the crate becomes `None`. The
/// outcome is taken as a function of the arguments.
#[verifier::external_body]
pub(crate) fn mmr_verify_incremental(
    mmr_size: u64,
    proof: &Vec<HeaderDigest>,
    root: HeaderDigest,
    prev_root: HeaderDigest,
    incremental: Vec<HeaderDigest>,
) -> (outcome: Option<bool>)
    requires
        mmr_size < 0x8000_0000_0000_0000,
    ensures
        outcome == mmr_incremental_outcome(
            mmr_size,
            digests_view(proof@),
            root.children_hash@,
            prev_root.children_hash@,
            digests_view(incremental@),
        ),
{
    MerkleProof::<HeaderDigest, MergeHeaderDigest>::new(mmr_size, proof.clone()).verify_incremental(
        root,
        prev_root,
        incremental,
    ).ok()
}

impl HeaderDigest {
    /// The hash of the node as the mountain range sees it: SHA-256 of the
    /// packed digest, which is its `children_hash`.
    pub open spec fn spec_calc_mmr_hash(self) -> Seq<u8> {
        sha256(self.children_hash@)
    }

    /// The hash of the node as the mountain range sees it.
    pub fn calc_mmr_hash(&self) -> (hash: Hash256)
        ensures
            hash@ == self.spec_calc_mmr_hash(),
    {
        hash_fixed(self.children_hash.as_slice())
    }
}

/// How two nodes of the mountain range of headers merge.
pub struct MergeHeaderDigest;

impl MergeHeaderDigest {
    /// The parent of `lhs` and `rhs`: the hash of their two hashes.
    pub open spec fn spec_merge(lhs: HeaderDigest, rhs: HeaderDigest) -> Seq<u8> {
        sha256(lhs.spec_calc_mmr_hash() + rhs.spec_calc_mmr_hash())
    }

    /// The parent of `lhs` and `rhs`.
    pub fn merge_digests(lhs: &HeaderDigest, rhs: &HeaderDigest) -> (parent: HeaderDigest)
        ensures
            parent.children_hash@ == Self::spec_merge(*lhs, *rhs),
    {
        let left = lhs.calc_mmr_hash();
        let right = rhs.calc_mmr_hash();
        HeaderDigest { children_hash: hash32_concat(&left, &right) }
    }

    /// The bag of two peaks: they merge in the opposite order.
    pub fn merge_peak_digests(lhs: &HeaderDigest, rhs: &HeaderDigest) -> (bag: HeaderDigest)
        ensures
            bag.children_hash@ == Self::spec_merge(*rhs, *lhs),
    {
        Self::merge_digests(rhs, lhs)
    }
}

impl Merge for MergeHeaderDigest {
    type Item = HeaderDigest;

    /// The parent of `lhs` and `rhs`: the hash of the hash of `lhs` and
    /// the hash of `rhs`. Merging never fails.
    fn merge(lhs: &HeaderDigest, rhs: &HeaderDigest) -> (parent: Result<
        HeaderDigest,
        ckb_merkle_mountain_range::Error,
    >)
        ensures
            parent is Ok,
            parent->Ok_0.children_hash@ == MergeHeaderDigest::spec_merge(*lhs, *rhs),
    {
        Ok(MergeHeaderDigest::merge_digests(lhs, rhs))
    }

    /// The bag of the peaks `lhs` and `rhs`: they merge in the opposite
    /// order, `rhs` first. Merging never fails.
    fn merge_peaks(lhs: &HeaderDigest, rhs: &HeaderDigest) -> (bag: Result<
        HeaderDigest,
        ckb_merkle_mountain_range::Error,
    >)
        ensures
            bag is Ok,
            bag->Ok_0.children_hash@ == MergeHeaderDigest::spec_merge(*rhs, *lhs),
    {
        Ok(MergeHeaderDigest::merge_peak_digests(lhs, rhs))
    }
}

/// A header together with its root.
#[derive(Clone, Copy, Debug, PartialEq, Eq)]
pub struct HeaderWithCache {
    pub inner: Header,
    pub root: Hash256,
}

impl Header {
    /// Computes the root of the header and keeps it beside the header.
    pub fn calc_cache(self) -> (cached: HeaderWithCache)
        ensures
            cached.inner == self,
            cached.root@ == self.spec_tree_hash_root(),
    {
        let root = self.tree_hash_root();
        HeaderWithCache { inner: self, root }
    }
}

impl HeaderWithCache {
    /// The root was computed from the header.
    pub open spec fn wf(self) -> bool {
        self.root@ == self.inner.spec_tree_hash_root()
    }

    /// The leaf of the mountain range that stands for the header.
    pub fn digest(&self) -> (digest: HeaderDigest)
        ensures
            digest.children_hash == self.root,
    {
        HeaderDigest { children_hash: self.root }
    }

    /// The leaf in packed form: the 32 bytes of the root.
    pub fn packed_digest(&self) -> (packed: Vec<u8>)
        ensures
            packed@ == self.root@,
    {
        let mut packed: Vec<u8> = Vec::new();
        let mut i: usize = 0;
        while i < 32
            invariant
                i <= 32,
                packed@ == self.root@.take(i as int),
            decreases 32 - i,
        {
            packed.push(self.root[i]);
            proof {
                assert(packed@ =~= self.root@.take(i + 1));
            }
            i = i + 1;
        }
        proof {
            assert(self.root@.take(32) =~= self.root@);
        }
        packed
    }

    /// Whether the header stands for a skipped slot.
    pub fn is_empty(&self) -> (empty: bool)
        ensures
            empty == self.inner.spec_is_empty(),
    {
        self.inner.is_empty()
    }
}

/// The in-memory store of the mountain-range crate.
#[verifier::external_type_specification]
#[verifier::external_body]
#[verifier::reject_recursive_types(T)]
pub struct ExMemStore<T>(MemStore<T>);

/// The nodes that a store holds, by position.
pub uninterp spec fn mmr_store_nodes(store: MemStore<HeaderDigest>) -> Map<u64, Seq<u8>>;

/// What pushing a leaf onto the mountain range of `mmr_size` nodes over
/// the given nodes gives: the nodes and the size afterwards, or `None`
/// where the nodes do not hold a peak that the push needs.
pub uninterp spec fn mmr_pushed(nodes: Map<u64, Seq<u8>>, mmr_size: u64, leaf: Seq<u8>) -> Option<
    (Map<u64, Seq<u8>>, u64),
>;

/// The root of the mountain range of `mmr_size` nodes over the given
/// nodes: its peaks bagged from the right. `None` for the empty range
/// and where a peak is missing.
pub uninterp spec fn mmr_root_of(nodes: Map<u64, Seq<u8>>, mmr_size: u64) -> Option<Seq<u8>>;

/// The items of the proof for the leaves at the given positions in the
/// mountain range of `mmr_size` nodes over the given nodes. `None` where
/// a position is no leaf of the range or a node is missing.
pub uninterp spec fn mmr_proof_of(nodes: Map<u64, Seq<u8>>, mmr_size: u64, positions: Seq<u64>) -> Option<
    Seq<Seq<u8>>,
>;

/// The nodes of an empty store.
pub open spec fn empty_store_nodes() -> Map<u64, Seq<u8>> {
    Map::empty()
}

/// Makes a `MemStore` of the mountain-range crate with its `Default`: a
/// store that holds no node.
#[verifier::external_body]
pub(crate) fn mem_store_new() -> (store: MemStore<HeaderDigest>)
    ensures
        mmr_store_nodes(store) == empty_store_nodes(),
{
    MemStore::default()
}

/// Opens an `MMR` of the crate over the store, calls its `push` and, if
/// that succeeds, its `commit`, which writes the new nodes into the
/// store. A push that fails leaves the store as it was. The new nodes
/// and the new size are taken as a function of the nodes, the size and
/// the leaf.
#[verifier::external_body]
pub(crate) fn mmr_push(store: &mut MemStore<HeaderDigest>, mmr_size: u64, leaf: HeaderDigest) -> (new_size:
    Option<u64>)
    requires
        mmr_size < 0x8000_0000_0000_0000,
    ensures
        new_size is Some ==> mmr_pushed(mmr_store_nodes(*old(store)), mmr_size, leaf.children_hash@) == Some(
            (mmr_store_nodes(*final(store)), new_size.unwrap()),
        ),
        new_size is None ==> mmr_pushed(mmr_store_nodes(*old(store)), mmr_size, leaf.children_hash@) is None
            && mmr_store_nodes(*final(store)) == mmr_store_nodes(*old(store)),
{
    let mut mmr = MMR::<HeaderDigest, MergeHeaderDigest, &MemStore<HeaderDigest>>::new(mmr_size, &*store);
    mmr.push(leaf).ok()?;
    let size = mmr.mmr_size();
    mmr.commit().ok()?;
    Some(size)
}

/// Opens an `MMR` of the crate over the store and calls its `get_root`.
/// The root is taken as a function of the nodes and the size.
#[verifier::external_body]
pub(crate) fn mmr_get_root(store: &MemStore<HeaderDigest>, mmr_size: u64) -> (root: Option<HeaderDigest>)
    requires
        mmr_size < 0x8000_0000_0000_0000,
    ensures
        root is Some <==> mmr_root_of(mmr_store_nodes(*store), mmr_size) is Some,
        root is Some ==> mmr_root_of(mmr_store_nodes(*store), mmr_size) == Some(root.unwrap().children_hash@),
{
    MMR::<HeaderDigest, MergeHeaderDigest, &MemStore<HeaderDigest>>::new(mmr_size, store).get_root().ok()
}

/// Opens an `MMR` of the crate over the store, calls its `gen_proof`
/// and hands out the items of the proof, which are taken as a function
/// of the nodes, the size and the positions.
#[verifier::external_body]
pub(crate) fn mmr_gen_proof(store: &MemStore<HeaderDigest>, mmr_size: u64, positions: Vec<u64>) -> (items:
    Option<Vec<HeaderDigest>>)
    requires
        mmr_size < 0x8000_0000_0000_0000,
    ensures
        items is Some <==> mmr_proof_of(mmr_store_nodes(*store), mmr_size, positions@) is Some,
        items is Some ==> mmr_proof_of(mmr_store_nodes(*store), mmr_size, positions@) == Some(
            digests_view(items.unwrap()@),
        ),
{
    let mmr = MMR::<HeaderDigest, MergeHeaderDigest, &MemStore<HeaderDigest>>::new(mmr_size, store);
    mmr.gen_proof(positions).ok().map(|proof| proof.proof_items().to_vec())
}

} // verus!
