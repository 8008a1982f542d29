//! Binary Merkle trees over 32-byte leaves, padded on the right with
//! trees of zero leaves, and the branches that prove a leaf.

use vstd::arithmetic::div_mod::lemma_div_denominator;
use vstd::arithmetic::power2::{lemma2_to64, lemma_pow2_pos, lemma_pow2_unfold, pow2};
use vstd::prelude::*;

use crate::utilities::hash::{hash32_concat, sha256};
use crate::utilities::ssz::{branch_root, Hash256};

verus! {

/// The bytes of each node of a list.
pub open spec fn nodes_view(nodes: Seq<Hash256>) -> Seq<Seq<u8>> {
    Seq::new(nodes.len(), |i: int| nodes[i]@)
}

/// Root of a tree of `2^height` zero leaves.
pub open spec fn zero_hash(height: nat) -> Seq<u8>
    decreases height,
{
    if height == 0 {
        Seq::new(32, |i: int| 0u8)
    } else {
        sha256(zero_hash((height - 1) as nat) + zero_hash((height - 1) as nat))
    }
}

/// Node `i` of a level at `height`; past the end of the level stand roots
/// of zero trees.
pub open spec fn node_at(level: Seq<Seq<u8>>, height: nat, i: int) -> Seq<u8> {
    if 0 <= i < level.len() {
        level[i]
    } else {
        zero_hash(height)
    }
}

/// The level above `level`: each node hashes its two children.
pub open spec fn next_level(level: Seq<Seq<u8>>, height: nat) -> Seq<Seq<u8>> {
    Seq::new(
        ((level.len() + 1) / 2) as nat,
        |i: int| sha256(node_at(level, height, 2 * i) + node_at(level, height, 2 * i + 1)),
    )
}

/// The nodes at `height` above the leaves.
pub open spec fn level_at(leaves: Seq<Seq<u8>>, height: nat) -> Seq<Seq<u8>>
    decreases height,
{
    if height == 0 {
        leaves
    } else {
        next_level(level_at(leaves, (height - 1) as nat), (height - 1) as nat)
    }
}

/// Root of the tree of the given depth over `leaves`.
pub open spec fn tree_root(leaves: Seq<Seq<u8>>, depth: nat) -> Seq<u8> {
    node_at(level_at(leaves, depth), depth, 0)
}

/// Index of the other child of the same parent.
pub open spec fn sibling_index(i: int) -> int {
    if i % 2 == 0 {
        i + 1
    } else {
        i - 1
    }
}

/// The siblings on the way from leaf `index` to the root, lowest first.
pub open spec fn tree_branch(leaves: Seq<Seq<u8>>, depth: nat, index: nat) -> Seq<Seq<u8>> {
    Seq::new(
        depth,
        |k: int| node_at(level_at(leaves, k as nat), k as nat, sibling_index(index as int / pow2(k as nat) as int)),
    )
}

/// A parent, inside the level or in the padding, hashes its two children.
pub proof fn lemma_parent_node(level: Seq<Seq<u8>>, height: nat, i: int)
    requires
        0 <= i,
    ensures
        node_at(next_level(level, height), height + 1, i) == sha256(
            node_at(level, height, 2 * i) + node_at(level, height, 2 * i + 1),
        ),
{
}

/// Folding a leaf through the first `k` siblings of its branch reaches
/// the node of level `k` that lies above the leaf.
pub proof fn lemma_branch_reaches_ancestor(
    leaves: Seq<Seq<u8>>,
    depth: nat,
    index: nat,
    branch: Seq<Hash256>,
    k: nat,
)
    requires
        k <= depth <= branch.len(),
        forall|j: int| 0 <= j < depth ==> (#[trigger] branch[j])@ == tree_branch(leaves, depth, index)[j],
    ensures
        branch_root(node_at(leaves, 0, index as int), branch, k, index) == node_at(
            level_at(leaves, k),
            k,
            index as int / pow2(k) as int,
        ),
    decreases k,
{
    lemma2_to64();
    if k > 0 {
        let h = (k - 1) as nat;
        lemma_branch_reaches_ancestor(leaves, depth, index, branch, h);
        lemma_pow2_pos(h);
        lemma_pow2_unfold(k);
        lemma_div_denominator(index as int, pow2(h) as int, 2);
        assert(pow2(h) * 2 == pow2(k)) by (nonlinear_arith)
            requires
                pow2(k) == 2 * pow2(h),
        ;
        let j = index as int / pow2(h) as int;
        let parent = index as int / pow2(k) as int;
        assert(parent == j / 2);
        let level = level_at(leaves, h);
        let leaf = node_at(leaves, 0, index as int);
        let below = branch_root(leaf, branch, h, index);
        assert(below == node_at(level, h, j));
        assert(branch[h as int]@ == tree_branch(leaves, depth, index)[h as int]);
        assert(branch[h as int]@ == node_at(level, h, sibling_index(j)));
        lemma_parent_node(level, h, parent);
        assert(level_at(leaves, k) == next_level(level, h));
        assert((index / pow2(h)) as int == j);
        if j % 2 == 1 {
            assert(j == 2 * parent + 1);
            assert(branch_root(leaf, branch, k, index) == sha256(branch[h as int]@ + below));
        } else {
            assert(j == 2 * parent);
            assert(branch_root(leaf, branch, k, index) == sha256(below + branch[h as int]@));
        }
        assert(node_at(next_level(level, h), k, parent) == sha256(
            node_at(level, h, 2 * parent) + node_at(level, h, 2 * parent + 1),
        ));
        assert(branch_root(leaf, branch, k, index) == node_at(level_at(leaves, k), k, parent));
    } else {
        assert(pow2(0) == 1);
        assert(level_at(leaves, 0) == leaves);
        assert(index as int / pow2(0) as int == index as int);
    }
}

/// A branch of the tree proves its leaf: folding the leaf through the
/// branch gives the root.
pub proof fn lemma_branch_proves_leaf(leaves: Seq<Seq<u8>>, depth: nat, index: nat, branch: Seq<Hash256>)
    requires
        index < pow2(depth),
        depth <= branch.len(),
        forall|j: int| 0 <= j < depth ==> (#[trigger] branch[j])@ == tree_branch(leaves, depth, index)[j],
    ensures
        branch_root(node_at(leaves, 0, index as int), branch, depth, index) == tree_root(leaves, depth),
{
    lemma_branch_reaches_ancestor(leaves, depth, index, branch, depth);
    lemma_pow2_pos(depth);
    vstd::arithmetic::div_mod::lemma_basic_div(index as int, pow2(depth) as int);
}

/// Hashes the nodes of a level pairwise into the level above.
fn hash_level(level: &Vec<Hash256>, zero: &Hash256, Ghost(height): Ghost<nat>) -> (above: Vec<Hash256>)
    requires
        zero@ == zero_hash(height),
    ensures
        nodes_view(above@) == next_level(nodes_view(level@), height),
{
    let count = level.len();
    let parents = count / 2 + count % 2;
    let mut above: Vec<Hash256> = Vec::new();
    let mut i: usize = 0;
    while i < parents
        invariant
            i <= parents,
            count == level.len(),
            parents == (count + 1) / 2,
            zero@ == zero_hash(height),
            above.len() == i,
            forall|j: int| 0 <= j < i ==> (#[trigger] above[j])@ == next_level(nodes_view(level@), height)[j],
        decreases parents - i,
    {
        let left = &level[2 * i];
        let node = if 2 * i + 1 < count {
            hash32_concat(left, &level[2 * i + 1])
        } else {
            hash32_concat(left, zero)
        };
        above.push(node);
        i = i + 1;
    }
    proof {
        assert(nodes_view(above@) =~= next_level(nodes_view(level@), height));
    }
    above
}

/// Copies a slice of nodes into a vector.
fn copy_nodes(nodes: &[Hash256]) -> (copy: Vec<Hash256>)
    ensures
        copy@ == nodes@,
{
    let mut copy: Vec<Hash256> = Vec::new();
    let mut i: usize = 0;
    while i < nodes.len()
        invariant
            i <= nodes.len(),
            copy@ == nodes@.take(i as int),
        decreases nodes.len() - i,
    {
        copy.push(nodes[i]);
        proof {
            assert(copy@ =~= nodes@.take(i + 1));
        }
        i = i + 1;
    }
    proof {
        assert(nodes@.take(nodes@.len() as int) =~= nodes@);
    }
    copy
}

/// A hash of 32 zero bytes.
pub fn zero_leaf() -> (zero: Hash256)
    ensures
        zero@ == zero_hash(0),
{
    let zero: Hash256 = [0u8; 32];
    proof {
        assert(zero@ =~= zero_hash(0));
    }
    zero
}

/// Root of the Merkle tree of depth `depth` whose leaves are `leaves`,
/// padded on the right with zero leaves.
pub fn merkle_tree_root(leaves: &[Hash256], depth: usize) -> (root: Hash256)
    ensures
        root@ == tree_root(nodes_view(leaves@), depth as nat),
{
    let mut level = copy_nodes(leaves);
    let mut zero = zero_leaf();
    let mut height: usize = 0;
    while height < depth
        invariant
            height <= depth,
            zero@ == zero_hash(height as nat),
            nodes_view(level@) == level_at(nodes_view(leaves@), height as nat),
        decreases depth - height,
    {
        level = hash_level(&level, &zero, Ghost(height as nat));
        zero = hash32_concat(&zero, &zero);
        height = height + 1;
    }
    if level.len() > 0 {
        proof {
            assert(nodes_view(level@)[0] == level@[0]@);
        }
        level[0]
    } else {
        zero
    }
}

/// The branch that proves leaf `index` in the tree of depth `depth` over
/// `leaves`: one sibling per level, lowest first.
pub fn merkle_tree_branch(leaves: &[Hash256], depth: usize, index: usize) -> (branch: Vec<Hash256>)
    ensures
        nodes_view(branch@) == tree_branch(nodes_view(leaves@), depth as nat, index as nat),
{
    let mut level = copy_nodes(leaves);
    let mut zero = zero_leaf();
    let mut branch: Vec<Hash256> = Vec::new();
    let mut position: usize = index;
    let mut height: usize = 0;
    proof {
        lemma2_to64();
    }
    while height < depth
        invariant
            height <= depth,
            zero@ == zero_hash(height as nat),
            nodes_view(level@) == level_at(nodes_view(leaves@), height as nat),
            position == index as nat / pow2(height as nat),
            branch.len() == height,
            forall|k: int| 0 <= k < height ==> (#[trigger] branch[k])@ == tree_branch(
                nodes_view(leaves@),
                depth as nat,
                index as nat,
            )[k],
        decreases depth - height,
    {
        let sibling = if position % 2 == 0 {
            if position < usize::MAX && position + 1 < level.len() {
                level[position + 1]
            } else {
                zero
            }
        } else {
            if position - 1 < level.len() {
                level[position - 1]
            } else {
                zero
            }
        };
        proof {
            let h = height as nat;
            assert(sibling@ == node_at(nodes_view(level@), h, sibling_index(position as int)));
            lemma_pow2_pos(h);
            lemma_pow2_unfold(h + 1);
            lemma_div_denominator(index as int, pow2(h) as int, 2);
            assert(pow2(h) * 2 == pow2(h + 1)) by (nonlinear_arith)
                requires
                    pow2(h + 1) == 2 * pow2(h),
            ;
        }
        branch.push(sibling);
        level = hash_level(&level, &zero, Ghost(height as nat));
        zero = hash32_concat(&zero, &zero);
        position = position / 2;
        height = height + 1;
    }
    proof {
        assert(nodes_view(branch@) =~= tree_branch(nodes_view(leaves@), depth as nat, index as nat));
    }
    branch
}

} // verus!
