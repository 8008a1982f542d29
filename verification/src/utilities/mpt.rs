//! Inclusion proofs of Ethereum's Merkle-Patricia trie: a list of
//! RLP-encoded nodes from the root down, each the Keccak-256 preimage of
//! the reference that the node above holds.

use tiny_keccak::Hasher;
use vstd::prelude::*;

use crate::utilities::hash::bytes_eq;
use crate::utilities::rlp_encoding::{rlp_decode_list, rlp_list_items, strings_view};

verus! {

/// Root hash of an empty trie.
pub const EMPTY_ROOT: [u8; 32] = [
    86, 232, 31, 23, 27, 204, 85, 166, 255, 131, 69, 230, 146, 192, 248, 110, 91, 72, 224, 27, 153, 108,
    173, 192, 1, 98, 47, 181, 227, 99, 180, 33,
];

/// Hash of the empty bytecode.
pub const EMPTY_CODE: [u8; 32] = [
    197, 210, 70, 1, 134, 247, 35, 60, 146, 126, 125, 178, 220, 199, 3, 192, 229, 0, 182, 83, 202, 130, 39,
    59, 123, 250, 216, 4, 93, 133, 164, 112,
];

/// The encoded account with no nonce, no balance, no storage and no code.
pub const EMPTY_ACCOUNT: [u8; 70] = [
    248, 68, 128, 128, 160, 86, 232, 31, 23, 27, 204, 85, 166, 255, 131, 69, 230, 146, 192, 248, 110, 91,
    72, 224, 27, 153, 108, 173, 192, 1, 98, 47, 181, 227, 99, 180, 33, 160, 197, 210, 70, 1, 134, 247, 35,
    60, 146, 126, 125, 178, 220, 199, 3, 192, 229, 0, 182, 83, 202, 130, 39, 59, 123, 250, 216, 4, 93, 133,
    164, 112,
];

/// The Keccak-256 digest of `data`.
pub uninterp spec fn spec_keccak256(data: Seq<u8>) -> Seq<u8>;

/// Feeds `slice` to a `tiny_keccak::Keccak::v256` hasher and squeezes
/// 32 bytes: the Keccak-256 digest, which verified code does not compute.
#[verifier::external_body]
pub fn keccak256(slice: &[u8]) -> (digest: [u8; 32])
    ensures
        digest@ == spec_keccak256(slice@),
{
    let mut hasher = tiny_keccak::Keccak::v256();
    hasher.update(slice);
    let mut output = [0u8; 32];
    hasher.finalize(&mut output);
    output
}

/// Nibble `offset` of `path`: the high half of a byte comes first.
pub open spec fn spec_get_nibble(path: Seq<u8>, offset: int) -> u8 {
    if offset % 2 == 0 {
        path[offset / 2] / 16
    } else {
        path[offset / 2] % 16
    }
}

fn nibble_at(path: &[u8], offset: u128) -> (nibble: u8)
    requires
        offset / 2 < path@.len(),
    ensures
        nibble == spec_get_nibble(path@, offset as int),
        nibble < 16,
{
    let byte = path[(offset / 2) as usize];
    if offset % 2 == 0 {
        byte / 16
    } else {
        byte % 16
    }
}

/// Nibble `offset` of `path`.
pub fn get_nibble(path: &[u8], offset: usize) -> (nibble: u8)
    requires
        offset / 2 < path@.len(),
    ensures
        nibble == spec_get_nibble(path@, offset as int),
        nibble < 16,
{
    nibble_at(path, offset as u128)
}

/// How many nibbles at the start of an encoded node path are prefix and
/// no part of the path: two for an even flag, one for an odd one.
pub open spec fn spec_skip_length(node: Seq<u8>) -> nat {
    if node.len() == 0 {
        0
    } else {
        let flag = node[0] / 16;
        if flag == 0 || flag == 2 {
            2
        } else if flag == 1 || flag == 3 {
            1
        } else {
            0
        }
    }
}

/// How many nibbles at the start of an encoded node path are prefix.
pub fn skip_length(node: &[u8]) -> (skip: usize)
    ensures
        skip == spec_skip_length(node@),
        skip <= 2 * node@.len(),
{
    if node.len() == 0 {
        return 0;
    }
    let nibble = nibble_at(node, 0);
    if nibble == 0 || nibble == 2 {
        2
    } else if nibble == 1 || nibble == 3 {
        1
    } else {
        0
    }
}

/// Whether nibble `k` after `first_skip` of `first` is nibble `k` after
/// `second_skip` of `second`.
pub open spec fn nibbles_agree(
    first: Seq<u8>,
    first_skip: nat,
    second: Seq<u8>,
    second_skip: nat,
    k: int,
) -> bool {
    spec_get_nibble(first, first_skip + k) == spec_get_nibble(second, second_skip + k)
}

/// Whether the nibbles of `first` from `first_skip` on are those of
/// `second` from `second_skip` on.
pub open spec fn spec_paths_match(first: Seq<u8>, first_skip: nat, second: Seq<u8>, second_skip: nat) -> bool {
    &&& first_skip <= 2 * first.len()
    &&& second_skip <= 2 * second.len()
    &&& 2 * first.len() - first_skip == 2 * second.len() - second_skip
    &&& forall|k: int|
        0 <= k < 2 * first.len() - first_skip ==> #[trigger] nibbles_agree(
            first,
            first_skip,
            second,
            second_skip,
            k,
        )
}

fn paths_match_wide(first: &[u8], first_skip: u128, second: &[u8], second_skip: u128) -> (same: bool)
    ensures
        same == spec_paths_match(first@, first_skip as nat, second@, second_skip as nat),
{
    let first_total = (first.len() as u128) * 2;
    let second_total = (second.len() as u128) * 2;
    if first_skip > first_total || second_skip > second_total {
        return false;
    }
    let first_rest = first_total - first_skip;
    let second_rest = second_total - second_skip;
    if first_rest != second_rest {
        return false;
    }
    let mut k: u128 = 0;
    while k < first_rest
        invariant
            k <= first_rest,
            first_rest == 2 * first@.len() - first_skip,
            first_rest == 2 * second@.len() - second_skip,
            first@.len() <= usize::MAX,
            second@.len() <= usize::MAX,
            forall|j: int|
                0 <= j < k ==> #[trigger] nibbles_agree(
                    first@,
                    first_skip as nat,
                    second@,
                    second_skip as nat,
                    j,
                ),
        decreases first_rest - k,
    {
        let first_nibble = nibble_at(first, first_skip + k);
        let second_nibble = nibble_at(second, second_skip + k);
        if first_nibble != second_nibble {
            proof {
                assert(!nibbles_agree(first@, first_skip as nat, second@, second_skip as nat, k as int));
            }
            return false;
        }
        proof {
            assert(nibbles_agree(first@, first_skip as nat, second@, second_skip as nat, k as int));
        }
        k = k + 1;
    }
    true
}

/// Whether the nibbles of `first` from `first_skip` on are those of
/// `second` from `second_skip` on.
pub fn paths_match(first: &[u8], first_skip: usize, second: &[u8], second_skip: usize) -> (same: bool)
    ensures
        same == spec_paths_match(first@, first_skip as nat, second@, second_skip as nat),
{
    paths_match_wide(first, first_skip as u128, second, second_skip as u128)
}

/// How many of the first `limit` nibbles of `a` from `s` on and of `b`
/// from `t` on agree, counted up to the first that differ.
pub open spec fn common_nibbles(a: Seq<u8>, s: int, b: Seq<u8>, t: int, limit: nat) -> nat
    decreases limit,
{
    if limit == 0 || spec_get_nibble(a, s) != spec_get_nibble(b, t) {
        0
    } else {
        1 + common_nibbles(a, s + 1, b, t + 1, (limit - 1) as nat)
    }
}

/// Number of nibbles of an encoded node path after its prefix.
pub open spec fn node_path_length(node_path: Seq<u8>) -> nat {
    (2 * node_path.len() - spec_skip_length(node_path)) as nat
}

/// How many nibbles the key from `path_offset` on shares with the path
/// of a node.
pub open spec fn spec_shared_prefix_length(path: Seq<u8>, path_offset: nat, node_path: Seq<u8>) -> nat {
    let rest = (2 * path.len() - path_offset) as nat;
    let limit = if node_path_length(node_path) < rest {
        node_path_length(node_path)
    } else {
        rest
    };
    common_nibbles(path, path_offset as int, node_path, spec_skip_length(node_path) as int, limit)
}

/// The common prefix is no longer than its limit.
pub proof fn lemma_common_nibbles_bound(a: Seq<u8>, s: int, b: Seq<u8>, t: int, limit: nat)
    ensures
        common_nibbles(a, s, b, t, limit) <= limit,
    decreases limit,
{
    if limit > 0 {
        lemma_common_nibbles_bound(a, s + 1, b, t + 1, (limit - 1) as nat);
    }
}

fn shared_prefix_wide(path: &[u8], path_offset: u128, node_path: &[u8]) -> (shared: u128)
    requires
        path_offset <= 2 * path@.len(),
    ensures
        shared == spec_shared_prefix_length(path@, path_offset as nat, node_path@),
        shared <= node_path_length(node_path@),
        path_offset + shared <= 2 * path@.len(),
{
    let skip = skip_length(node_path) as u128;
    let node_rest = (node_path.len() as u128) * 2 - skip;
    let path_rest = (path.len() as u128) * 2 - path_offset;
    let limit = if node_rest < path_rest {
        node_rest
    } else {
        path_rest
    };
    let mut shared: u128 = 0;
    proof {
        lemma_common_nibbles_bound(path@, path_offset as int, node_path@, skip as int, limit as nat);
    }
    while shared < limit
        invariant
            shared <= limit,
            limit <= 2 * node_path@.len() - skip,
            limit <= 2 * path@.len() - path_offset,
            node_path@.len() <= usize::MAX,
            path@.len() <= usize::MAX,
            skip == spec_skip_length(node_path@),
            spec_shared_prefix_length(path@, path_offset as nat, node_path@) == common_nibbles(
                path@,
                path_offset as int,
                node_path@,
                skip as int,
                limit as nat,
            ),
            common_nibbles(path@, path_offset as int, node_path@, skip as int, limit as nat) == shared
                + common_nibbles(
                path@,
                path_offset + shared,
                node_path@,
                skip + shared,
                (limit - shared) as nat,
            ),
        decreases limit - shared,
    {
        let path_nibble = nibble_at(path, shared + path_offset);
        let node_nibble = nibble_at(node_path, shared + skip);
        if path_nibble != node_nibble {
            return shared;
        }
        shared = shared + 1;
    }
    shared
}

/// How many nibbles the key from `path_offset` on shares with the path
/// of a node.
pub fn shared_prefix_length(path: &[u8], path_offset: usize, node_path: &[u8]) -> (shared: usize)
    requires
        path_offset <= 2 * path@.len(),
        2 * node_path@.len() <= usize::MAX,
    ensures
        shared == spec_shared_prefix_length(path@, path_offset as nat, node_path@),
{
    shared_prefix_wide(path, path_offset as u128, node_path) as usize
}

/// A value that stands for absence: the empty string in RLP, or the
/// empty account.
pub open spec fn spec_is_empty_value(value: Seq<u8>) -> bool {
    (value.len() == 1 && value[0] == 0x80) || value == EMPTY_ACCOUNT@
}

/// Whether a value stands for absence.
pub fn is_empty_value(value: &[u8]) -> (empty: bool)
    ensures
        empty == spec_is_empty_value(value@),
{
    let is_empty_slot = value.len() == 1 && value[0] == 0x80;
    let account = EMPTY_ACCOUNT;
    let is_empty_account = bytes_eq(value, account.as_slice());
    is_empty_slot || is_empty_account
}

/// What the walk decides from node `i` on, where the node above refers
/// to `expected` and `offset` nibbles of the key are consumed.
///
/// A node must hash to `expected` and decode to a list. A node of 17
/// items is a branch: it consumes one nibble and refers to the child of
/// that nibble; as the last node it proves absence, if that child is
/// empty and the value stands for absence. A node of two items is an
/// extension or a leaf: as the last node it proves the value, if its path
/// is the rest of the key, or absence, if it is not; before the last it
/// must share its whole path with the key and refers to its second item.
pub open spec fn mpt_walk(
    proof: Seq<Seq<u8>>,
    i: nat,
    expected: Seq<u8>,
    path: Seq<u8>,
    offset: nat,
    value: Seq<u8>,
) -> bool
    decreases proof.len() - i,
{
    if i >= proof.len() {
        false
    } else if spec_keccak256(proof[i as int]) != expected {
        false
    } else {
        let last = i + 1 == proof.len();
        match rlp_list_items(proof[i as int]) {
            None => false,
            Some(items) => {
                if items.len() == 17 {
                    if offset >= 2 * path.len() {
                        false
                    } else {
                        let child = items[spec_get_nibble(path, offset as int) as int];
                        if last {
                            child.len() == 0 && spec_is_empty_value(value)
                        } else {
                            mpt_walk(proof, i + 1, child, path, offset + 1, value)
                        }
                    }
                } else if items.len() == 2 {
                    if offset > 2 * path.len() {
                        false
                    } else if last {
                        let same = spec_paths_match(items[0], spec_skip_length(items[0]), path, offset);
                        (!same && spec_is_empty_value(value)) || (same && items[1] == value)
                    } else {
                        let shared = spec_shared_prefix_length(path, offset, items[0]);
                        if shared < node_path_length(items[0]) {
                            false
                        } else {
                            mpt_walk(proof, i + 1, items[1], path, offset + shared, value)
                        }
                    }
                } else {
                    false
                }
            },
        }
    }
}

/// Whether `proof` proves, under the trie root `root`, that the key
/// `path` holds `value`, or holds nothing where `value` stands for
/// absence.
pub open spec fn spec_verify_proof(proof: Seq<Seq<u8>>, root: Seq<u8>, path: Seq<u8>, value: Seq<u8>) -> bool {
    mpt_walk(proof, 0, root, path, 0, value)
}

/// Verifies a Merkle-Patricia proof: the nodes are walked from the root
/// down along the nibbles of `path`.
pub fn verify_proof(proof: &[Vec<u8>], root: &[u8], path: &[u8], value: &[u8]) -> (valid: bool)
    ensures
        valid == spec_verify_proof(strings_view(proof@), root@, path@, value@),
{
    let mut expected_hash: Vec<u8> = vstd::slice::slice_to_vec(root);
    let mut path_offset: u128 = 0;
    let path_nibbles: u128 = (path.len() as u128) * 2;
    let ghost nodes = strings_view(proof@);
    let mut i: usize = 0;
    while i < proof.len()
        invariant
            i <= proof.len(),
            nodes == strings_view(proof@),
            path_nibbles == 2 * path@.len(),
            path_offset <= path_nibbles,
            spec_verify_proof(nodes, root@, path@, value@) == mpt_walk(
                nodes,
                i as nat,
                expected_hash@,
                path@,
                path_offset as nat,
                value@,
            ),
        decreases proof.len() - i,
    {
        let node = &proof[i];
        let last = i == proof.len() - 1;
        let digest = keccak256(node.as_slice());
        proof {
            assert(nodes[i as int] == node@);
        }
        if !bytes_eq(expected_hash.as_slice(), digest.as_slice()) {
            return false;
        }
        let node_list = match rlp_decode_list(node.as_slice()) {
            Some(list) => list,
            None => {
                return false;
            },
        };
        proof {
            assert(rlp_list_items(node@) == Some(strings_view(node_list@)));
        }
        if node_list.len() == 17 {
            if path_offset >= path_nibbles {
                return false;
            }
            let nibble = nibble_at(path, path_offset);
            let child = &node_list[nibble as usize];
            proof {
                assert(strings_view(node_list@)[nibble as int] == child@);
            }
            if last {
                return child.len() == 0 && is_empty_value(value);
            }
            expected_hash = vstd::slice::slice_to_vec(child.as_slice());
            path_offset = path_offset + 1;
        } else if node_list.len() == 2 {
            let node_path = &node_list[0];
            let node_value = &node_list[1];
            proof {
                assert(strings_view(node_list@)[0] == node_path@);
                assert(strings_view(node_list@)[1] == node_value@);
            }
            if last {
                let same = paths_match_wide(
                    node_path.as_slice(),
                    skip_length(node_path.as_slice()) as u128,
                    path,
                    path_offset,
                );
                if !same && is_empty_value(value) {
                    return true;
                }
                return same && bytes_eq(node_value.as_slice(), value);
            }
            let prefix_length = shared_prefix_wide(path, path_offset, node_path.as_slice());
            let node_path_nibbles = (node_path.len() as u128) * 2 - (skip_length(node_path.as_slice()) as u128);
            if prefix_length < node_path_nibbles {
                return false;
            }
            path_offset = path_offset + prefix_length;
            expected_hash = vstd::slice::slice_to_vec(node_value.as_slice());
        } else {
            return false;
        }
        i = i + 1;
    }
    false
}

} // verus!
