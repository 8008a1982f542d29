//! Depth arithmetic and Merkle branch checks of Simple Serialize.

use vstd::arithmetic::div_mod::{lemma_div_denominator, lemma_mod_breakdown};
use vstd::arithmetic::power2::{
    lemma2_to64,
    lemma_pow2_adds,
    lemma_pow2_pos,
    lemma_pow2_strictly_increases,
    lemma_pow2_unfold,
    pow2,
};
use vstd::prelude::*;

use crate::utilities::endian::{
    le_bytes,
    lemma_le_bytes_high_zero,
    lemma_pow256_bound,
    lemma_pow256_pos,
    lemma_pow256_values,
    pow256,
};
use crate::utilities::hash::{hash32_concat, hash_eq, sha256};

verus! {

/// A 32-byte Merkle node.
pub type Hash256 = [u8; 32];

/// Largest `d` with `2^d <= n`, and 0 for `n == 0`.
pub open spec fn spec_floor_depth(n: nat) -> nat
    decreases n,
{
    if n <= 1 {
        0
    } else {
        1 + spec_floor_depth(n / 2)
    }
}

/// Smallest `d` with `2^d >= n`.
pub open spec fn spec_ceil_depth(n: nat) -> nat {
    if n <= 1 {
        0
    } else {
        1 + spec_floor_depth((n - 1) as nat)
    }
}

/// `2^floor_depth(n) <= n < 2^(floor_depth(n) + 1)` for positive `n`.
pub proof fn lemma_floor_depth_bounds(n: nat)
    requires
        n > 0,
    ensures
        pow2(spec_floor_depth(n)) <= n < pow2(spec_floor_depth(n) + 1),
    decreases n,
{
    lemma2_to64();
    if n > 1 {
        lemma_floor_depth_bounds(n / 2);
        lemma_pow2_unfold(spec_floor_depth(n / 2) + 1);
        lemma_pow2_unfold(spec_floor_depth(n / 2) + 2);
    }
}

/// `n <= 2^ceil_depth(n)`, and no smaller power of two reaches `n`.
pub proof fn lemma_ceil_depth_bounds(n: nat)
    ensures
        n <= pow2(spec_ceil_depth(n)),
        spec_ceil_depth(n) > 0 ==> pow2((spec_ceil_depth(n) - 1) as nat) < n,
{
    lemma2_to64();
    if n > 1 {
        lemma_floor_depth_bounds((n - 1) as nat);
    }
}

/// The two depths bracket every number: the ceiling is never below the
/// floor, and a positive `n` lies between the two powers of two.
pub proof fn lemma_depths_bracket(n: nat)
    ensures
        spec_ceil_depth(n) >= spec_floor_depth(n),
        n > 0 ==> pow2(spec_floor_depth(n)) <= n <= pow2(spec_ceil_depth(n)),
{
    lemma_ceil_depth_bounds(n);
    if n > 0 {
        lemma_floor_depth_bounds(n);
        if spec_ceil_depth(n) < spec_floor_depth(n) {
            lemma_pow2_strictly_increases(spec_ceil_depth(n), spec_floor_depth(n));
        }
    }
}

/// The floor depth is the only exponent whose power of two brackets `n`.
pub proof fn lemma_floor_depth_unique(n: nat, d: nat)
    requires
        pow2(d) <= n < pow2(d + 1),
    ensures
        spec_floor_depth(n) == d,
{
    lemma_pow2_pos(d);
    lemma_floor_depth_bounds(n);
    let f = spec_floor_depth(n);
    if f < d {
        if f + 1 < d {
            lemma_pow2_strictly_increases(f + 1, d);
        }
    } else if d < f {
        if d + 1 < f {
            lemma_pow2_strictly_increases(d + 1, f);
        }
    }
}

/// Largest `d` with `2^d <= num`; 0 for `num == 0`.
pub fn floor_depth(num: usize) -> (depth: u32)
    ensures
        depth == spec_floor_depth(num as nat),
        depth < 64,
{
    let mut rest: usize = num;
    let mut depth: u32 = 0;
    proof {
        lemma2_to64();
    }
    while rest > 1
        invariant
            spec_floor_depth(num as nat) == depth + spec_floor_depth(rest as nat),
            rest * pow2(depth as nat) <= num,
            depth < 64,
        decreases rest,
    {
        proof {
            let d = depth as nat;
            lemma_pow2_unfold(d + 1);
            lemma_pow2_pos(d);
            assert((rest / 2) * pow2(d + 1) <= rest * pow2(d)) by (nonlinear_arith)
                requires
                    pow2(d + 1) == 2 * pow2(d),
                    rest >= 0,
                    pow2(d) > 0,
            ;
            assert(pow2(d + 1) <= (rest / 2) * pow2(d + 1)) by (nonlinear_arith)
                requires
                    rest / 2 >= 1,
                    pow2(d + 1) > 0,
            ;
            if d + 1 >= 64 {
                lemma2_to64_bound(d + 1);
            }
        }
        rest = rest / 2;
        depth = depth + 1;
    }
    depth
}

proof fn lemma2_to64_bound(d: nat)
    requires
        d >= 64,
    ensures
        pow2(d) >= 0x1_0000_0000_0000_0000,
{
    lemma2_to64();
    if d > 64 {
        lemma_pow2_strictly_increases(64, d);
    }
}

/// Smallest `d` with `2^d >= num`; 0 for `num <= 1`.
pub fn ceil_depth(num: usize) -> (depth: u32)
    ensures
        depth == spec_ceil_depth(num as nat),
        depth <= 64,
{
    if num <= 1 {
        0
    } else {
        floor_depth(num - 1) + 1
    }
}

/// The 32-byte chunk that holds `value` in little-endian order.
pub fn uint64_chunk(value: u64) -> (chunk: Hash256)
    ensures
        chunk@ == le_bytes(value as nat, 32),
{
    let mut chunk: Hash256 = [0u8; 32];
    let mut rest: u64 = value;
    let mut i: usize = 0;
    proof {
        assert(pow256(0) == 1);
    }
    while i < 8
        invariant
            i <= 8,
            rest == value as nat / pow256(i as nat),
            forall|j: int| 0 <= j < i ==> chunk@[j] == le_bytes(value as nat, 32)[j],
            forall|j: int| i <= j < 32 ==> chunk@[j] == 0u8,
        decreases 8 - i,
    {
        proof {
            lemma_pow256_pos(i as nat);
            vstd::arithmetic::div_mod::lemma_div_denominator(value as int, pow256(i as nat) as int, 256);
            assert(pow256((i + 1) as nat) == pow256(i as nat) * 256);
        }
        chunk[i] = (rest % 256) as u8;
        rest = rest / 256;
        i = i + 1;
    }
    proof {
        assert forall|j: int| 8 <= j < 32 implies chunk@[j] == le_bytes(value as nat, 32)[j] by {
            lemma_pow256_values();
            lemma_pow256_bound(8, j as nat);
            lemma_le_bytes_high_zero(value as nat, 32, j);
        }
        assert(chunk@ =~= le_bytes(value as nat, 32));
    }
    chunk
}

/// The chunk that mixes the length of a list into its root: `length` in
/// little-endian order, filled up with zero bytes.
pub fn length_hash(length: usize) -> (chunk: Hash256)
    ensures
        chunk@ == le_bytes(length as nat, 32),
{
    uint64_chunk(length as u64)
}

/// The node reached from `leaf` after `depth` levels, taking at level `i`
/// the sibling `branch[i]` on the left when bit `i` of `index` is set and
/// on the right otherwise.
pub open spec fn branch_root(leaf: Seq<u8>, branch: Seq<Hash256>, depth: nat, index: nat) -> Seq<u8>
    decreases depth,
{
    if depth == 0 {
        leaf
    } else {
        let below = branch_root(leaf, branch, (depth - 1) as nat, index);
        let sibling = branch[depth - 1]@;
        if (index / pow2((depth - 1) as nat)) % 2 == 1 {
            sha256(sibling + below)
        } else {
            sha256(below + sibling)
        }
    }
}

/// Only the first `depth` siblings matter.
pub proof fn lemma_branch_root_prefix(leaf: Seq<u8>, a: Seq<Hash256>, b: Seq<Hash256>, depth: nat, index: nat)
    requires
        depth <= a.len(),
        depth <= b.len(),
        forall|i: int| 0 <= i < depth ==> a[i] == b[i],
    ensures
        branch_root(leaf, a, depth, index) == branch_root(leaf, b, depth, index),
    decreases depth,
{
    if depth > 0 {
        lemma_branch_root_prefix(leaf, a, b, (depth - 1) as nat, index);
    }
}

/// Only the `depth` low bits of the index matter.
pub proof fn lemma_branch_root_low_bits(leaf: Seq<u8>, branch: Seq<Hash256>, depth: nat, a: nat, b: nat)
    requires
        a % pow2(depth) == b % pow2(depth),
    ensures
        branch_root(leaf, branch, depth, a) == branch_root(leaf, branch, depth, b),
    decreases depth,
{
    if depth > 0 {
        let h = (depth - 1) as nat;
        lemma_pow2_pos(h);
        lemma_pow2_unfold(depth);
        assert(pow2(h) * 2 == pow2(depth)) by (nonlinear_arith)
            requires
                pow2(depth) == 2 * pow2(h),
        ;
        lemma_mod_breakdown(a as int, pow2(h) as int, 2);
        lemma_mod_breakdown(b as int, pow2(h) as int, 2);
        let abit = (a as int / pow2(h) as int) % 2;
        let bbit = (b as int / pow2(h) as int) % 2;
        let alow = a as int % pow2(h) as int;
        let blow = b as int % pow2(h) as int;
        assert(pow2(h) * abit + alow == pow2(h) * bbit + blow);
        assert(abit == bbit && alow == blow) by (nonlinear_arith)
            requires
                pow2(h) * abit + alow == pow2(h) * bbit + blow,
                0 <= alow < pow2(h),
                0 <= blow < pow2(h),
                0 <= abit < 2,
                0 <= bbit < 2,
        ;
        lemma_branch_root_low_bits(leaf, branch, h, a, b);
    }
}

/// Folding through two branches, one after the other, is folding
/// through the first and then, with the higher bits of the index,
/// through the second.
pub proof fn lemma_branch_root_concat(leaf: Seq<u8>, low: Seq<Hash256>, high: Seq<Hash256>, index: nat)
    ensures
        branch_root(leaf, low + high, low.len() + high.len(), index) == branch_root(
            branch_root(leaf, low, low.len(), index),
            high,
            high.len(),
            index / pow2(low.len()),
        ),
    decreases high.len(),
{
    let whole = low + high;
    let middle = branch_root(leaf, low, low.len(), index);
    lemma_pow2_pos(low.len());
    let shifted = index / pow2(low.len());
    if high.len() == 0 {
        assert(whole =~= low);
    } else {
        let rest = high.drop_last();
        let h = (high.len() - 1) as nat;
        let d = (low.len() + h) as nat;
        lemma_branch_root_concat(leaf, low, rest, index);
        assert((low + rest).len() == d);
        lemma_branch_root_prefix(leaf, whole, low + rest, d, index);
        lemma_branch_root_prefix(middle, high, rest, h, shifted);
        lemma_pow2_pos(h);
        lemma_pow2_adds(low.len(), h);
        lemma_div_denominator(index as int, pow2(low.len()) as int, pow2(h) as int);
        assert(whole[d as int] == high[h as int]);
        assert((index / pow2(d)) as int == (shifted / pow2(h)) as int);
    }
}

/// Folds `leaf` up through the first `depth` nodes of `branch`.
fn fold_branch(leaf: &Hash256, branch: &[Hash256], depth: usize, index: usize) -> (node: Hash256)
    requires
        depth <= branch.len(),
    ensures
        node@ == branch_root(leaf@, branch@, depth as nat, index as nat),
{
    let mut value: Hash256 = *leaf;
    let mut rest: usize = index;
    let mut level: usize = 0;
    proof {
        lemma2_to64();
    }
    while level < depth
        invariant
            level <= depth <= branch.len(),
            value@ == branch_root(leaf@, branch@, level as nat, index as nat),
            rest == index as nat / pow2(level as nat),
        decreases depth - level,
    {
        let sibling = &branch[level];
        if rest % 2 == 1 {
            value = hash32_concat(sibling, &value);
        } else {
            value = hash32_concat(&value, sibling);
        }
        proof {
            let l = level as nat;
            lemma_pow2_pos(l);
            lemma_pow2_unfold(l + 1);
            lemma_div_denominator(index as int, pow2(l) as int, 2);
            assert(pow2(l) * 2 == pow2(l + 1)) by (nonlinear_arith)
                requires
                    pow2(l + 1) == 2 * pow2(l),
            ;
        }
        rest = rest / 2;
        level = level + 1;
    }
    value
}

/// Checks a fixed-depth Merkle branch: true exactly when `branch` holds at
/// least `depth` nodes and folding `leaf` through the first `depth` of
/// them, guided by the bits of `index`, gives `root`.
pub fn is_valid_merkle_branch(
    leaf: &Hash256,
    branch: &[Hash256],
    depth: usize,
    index: usize,
    root: &Hash256,
) -> (valid: bool)
    ensures
        valid == (branch.len() >= depth && branch_root(
            leaf@,
            branch@,
            depth as nat,
            index as nat,
        ) == root@),
{
    if branch.len() < depth {
        return false;
    }
    let node = fold_branch(leaf, branch, depth, index);
    hash_eq(&node, root)
}

/// Bit `pos` of a generalized index.
pub open spec fn spec_generalized_index_bit(index: nat, pos: nat) -> bool {
    (index / pow2(pos)) % 2 == 1
}

/// Bit `pos` of a generalized index.
pub fn get_generalized_index_bit(index: usize, pos: usize) -> (bit: bool)
    requires
        pos < 64,
    ensures
        bit == spec_generalized_index_bit(index as nat, pos as nat),
{
    let mut rest: usize = index;
    let mut level: usize = 0;
    proof {
        lemma2_to64();
    }
    while level < pos
        invariant
            level <= pos,
            rest == index as nat / pow2(level as nat),
        decreases pos - level,
    {
        proof {
            let l = level as nat;
            lemma_pow2_pos(l);
            lemma_pow2_unfold(l + 1);
            lemma_div_denominator(index as int, pow2(l) as int, 2);
            assert(pow2(l) * 2 == pow2(l + 1)) by (nonlinear_arith)
                requires
                    pow2(l + 1) == 2 * pow2(l),
            ;
        }
        rest = rest / 2;
        level = level + 1;
    }
    rest % 2 == 1
}

/// Length of the path that a generalized index stands for.
pub fn get_generalized_index_length(index: usize) -> (length: usize)
    ensures
        length == spec_floor_depth(index as nat),
{
    floor_depth(index) as usize
}

/// The root that `proof` gives for `leaf` at the generalized index `index`.
pub fn calculate_merkle_root(leaf: &Hash256, proof: &[Hash256], index: usize) -> (root: Hash256)
    ensures
        root@ == branch_root(leaf@, proof@, proof@.len(), index as nat),
{
    fold_branch(leaf, proof, proof.len(), index)
}

/// Checks a Merkle proof against a generalized index: true exactly when
/// `proof` is as long as the path of `index` and folds `leaf` into `root`.
pub fn verify_merkle_proof(root: &Hash256, leaf: &Hash256, proof: &[Hash256], index: usize) -> (valid: bool)
    ensures
        valid == (proof@.len() == spec_floor_depth(index as nat) && branch_root(
            leaf@,
            proof@,
            proof@.len(),
            index as nat,
        ) == root@),
{
    if proof.len() != get_generalized_index_length(index) {
        return false;
    }
    let calculated = calculate_merkle_root(leaf, proof, index);
    hash_eq(&calculated, root)
}

} // verus!
