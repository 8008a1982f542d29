use eth_light_client::types::records::Header;
use eth_light_client::utilities::merkle_tree::{merkle_tree_branch, merkle_tree_root, zero_leaf};
use eth_light_client::utilities::ssz::{
    calculate_merkle_root, ceil_depth, floor_depth, get_generalized_index_bit, get_generalized_index_length,
    is_valid_merkle_branch, length_hash, uint64_chunk, verify_merkle_proof,
};
use ssz_types::{typenum, VariableList};
use tree_hash::TreeHash;

#[test]
fn test_depth_calculation() {
    for x in 0..100 {
        let floor_depth = floor_depth(x);
        let ceil_depth = ceil_depth(x);
        if x == 0 {
            assert!(
                floor_depth == 0 && 0 == ceil_depth,
                "failed at num: {} (floor: {}, ceil: {})",
                x,
                floor_depth,
                ceil_depth,
            );
        } else {
            let num = x as f64;
            let ceil = 2.0f64.powf(f64::from(ceil_depth));
            let floor = 2.0f64.powf(f64::from(floor_depth));
            assert!(
                floor <= num && num <= ceil,
                "failed at num: {:.2} (floor: {:.2}, ceil: {:.2})",
                num,
                floor,
                ceil
            );
        }
    }
}

type DemoD = VariableList<u8, typenum::U256>;
type DemoC = VariableList<DemoD, typenum::U128>;

struct DemoCache {
    root: [u8; 32],
    a_root: [u8; 32],
    b_root: [u8; 32],
    c_root: [u8; 32],
    c_data_root: [u8; 32],
    c_depth: u32,
    d_roots: Vec<[u8; 32]>,
}

const DEMO_FIELDS_COUNT: usize = 3;
const DEMO_C_FIELDS_INDEX: usize = 2;

fn demo_fields_depth() -> u32 {
    ceil_depth(DEMO_FIELDS_COUNT)
}

fn demo_generate_cache(a: u32, b: u32, c: DemoC) -> DemoCache {
    let d_roots = c.iter().map(|d| d.tree_hash_root().to_fixed_bytes()).collect::<Vec<_>>();
    let c_depth = ceil_depth(128);
    let c_data_root = merkle_tree_root(&d_roots, c_depth as usize);
    let a_root = a.tree_hash_root().to_fixed_bytes();
    let b_root = b.tree_hash_root().to_fixed_bytes();
    let c_root = c.tree_hash_root().to_fixed_bytes();
    let fields = [a_root, b_root, c_root].concat();
    DemoCache {
        root: tree_hash::merkle_root(&fields, 0).to_fixed_bytes(),
        a_root,
        b_root,
        c_root,
        c_data_root,
        c_depth,
        d_roots,
    }
}

fn demo_d_proof_for_c_data(cache: &DemoCache, index: usize) -> Vec<[u8; 32]> {
    let depth = cache.c_depth as usize;
    merkle_tree_branch(&cache.d_roots, depth, index)
}

fn demo_d_proof_for_c(cache: &DemoCache, index: usize) -> Vec<[u8; 32]> {
    let proof_c_data = demo_d_proof_for_c_data(cache, index);
    let item = length_hash(cache.d_roots.len());
    let mut proof = proof_c_data;
    proof.push(item);
    proof
}

fn demo_d_proof(cache: &DemoCache, index: usize) -> Vec<[u8; 32]> {
    let proof_c = demo_d_proof_for_c(cache, index);
    let leaves = vec![cache.a_root, cache.b_root, cache.c_root];
    let depth = demo_fields_depth() as usize;
    let fields_proof = merkle_tree_branch(&leaves, depth, DEMO_C_FIELDS_INDEX);
    let mut proof = proof_c;
    proof.extend(fields_proof);
    proof
}

#[test]
fn test_verify_merkle_proof() {
    let d_vec = (0u8..=10).into_iter().map(|i| VariableList::from(vec![i, i + 1, i * 2])).collect::<Vec<_>>();
    let d_vec_len = d_vec.len();
    let cache = demo_generate_cache(1, 2, VariableList::from(d_vec));

    {
        let root = cache.c_data_root;
        let generalized_index_offset = 2usize.pow(cache.c_depth);
        for index in 0..d_vec_len {
            let leaf = &cache.d_roots[index];
            let proof = demo_d_proof_for_c_data(&cache, index);
            let generalized_index = index + generalized_index_offset;
            let result = verify_merkle_proof(&root, leaf, &proof, generalized_index);
            assert!(result, "failed to verify for {}-th c-item in c-data", index);
        }
    }

    {
        let root = cache.c_root;
        let generalized_index_offset = 2usize.pow(cache.c_depth + 1);
        for index in 0..d_vec_len {
            let leaf = &cache.d_roots[index];
            let proof = demo_d_proof_for_c(&cache, index);
            let generalized_index = index + generalized_index_offset;
            let result = verify_merkle_proof(&root, leaf, &proof, generalized_index);
            assert!(result, "failed to verify for {}-th c-item in c", index);
        }
    }

    let root = cache.root;
    let generalized_index_offset = {
        let tmp = 2usize.pow(cache.c_depth + 1 + demo_fields_depth());
        tmp + tmp * DEMO_C_FIELDS_INDEX / DEMO_FIELDS_COUNT.next_power_of_two()
    };
    for index in 0..d_vec_len {
        let leaf = &cache.d_roots[index];
        let proof = demo_d_proof(&cache, index);
        let generalized_index = index + generalized_index_offset;
        let result = verify_merkle_proof(&root, leaf, &proof, generalized_index);
        assert!(result, "failed to verify for {}-th c-item", index);
    }
}

#[test]
fn depths_at_the_edges() {
    assert_eq!((floor_depth(0), ceil_depth(0)), (0, 0));
    assert_eq!((floor_depth(1), ceil_depth(1)), (0, 0));
    assert_eq!((floor_depth(2), ceil_depth(2)), (1, 1));
    assert_eq!((floor_depth(3), ceil_depth(3)), (1, 2));
    assert_eq!((floor_depth(14), ceil_depth(14)), (3, 4));
    assert_eq!((floor_depth(15), ceil_depth(15)), (3, 4));
    assert_eq!((floor_depth(16), ceil_depth(16)), (4, 4));
    assert_eq!((floor_depth(17), ceil_depth(17)), (4, 5));
    assert_eq!(ceil_depth(1_048_576), 20);
    assert_eq!(floor_depth(usize::MAX), usize::BITS - 1);
    assert_eq!(ceil_depth(usize::MAX), usize::BITS);
    for n in 1..5000usize {
        assert!(ceil_depth(n) >= floor_depth(n));
        assert!(1usize << floor_depth(n) <= n);
        assert!(n <= 1usize << ceil_depth(n));
    }
}

#[test]
fn length_hash_is_little_endian_in_a_zero_chunk() {
    assert_eq!(length_hash(0), [0u8; 32]);
    let mut expected = [0u8; 32];
    expected[0] = 0x0b;
    assert_eq!(length_hash(11), expected);
    expected[0] = 0x34;
    expected[1] = 0x12;
    assert_eq!(length_hash(0x1234), expected);
    let mut expected = [0u8; 32];
    expected[..8].copy_from_slice(&0x0102_0304_0506_0708u64.to_le_bytes());
    assert_eq!(uint64_chunk(0x0102_0304_0506_0708), expected);
    let root = tree_hash::Hash256::from([7u8; 32]);
    let mixed = tree_hash::mix_in_length(&root, 11).to_fixed_bytes();
    assert_eq!(merkle_tree_root(&[[7u8; 32], length_hash(11)], 1), mixed);
}

#[test]
fn branch_check_takes_the_sibling_side_from_the_index() {
    let leaves: Vec<[u8; 32]> = (0..8u8).map(|i| [i + 1; 32]).collect();
    let root = merkle_tree_root(&leaves, 3);
    assert_eq!(root, tree_hash::merkle_root(&leaves.concat(), 0).to_fixed_bytes());
    for index in 0..8usize {
        let branch = merkle_tree_branch(&leaves, 3, index);
        assert!(is_valid_merkle_branch(&leaves[index], &branch, 3, index, &root));
        assert!(is_valid_merkle_branch(&leaves[index], &branch, 3, index + 8, &root));
        assert!(!is_valid_merkle_branch(&leaves[index], &branch, 3, index ^ 1, &root));
        assert!(!is_valid_merkle_branch(&leaves[index], &branch[..2], 3, index, &root));
        assert!(!is_valid_merkle_branch(&leaves[(index + 1) % 8], &branch, 3, index, &root));
        assert_eq!(calculate_merkle_root(&leaves[index], &branch, 8 + index), root);
        assert!(verify_merkle_proof(&root, &leaves[index], &branch, 8 + index));
        assert!(!verify_merkle_proof(&root, &leaves[index], &branch, 16 + index));
        assert!(!verify_merkle_proof(&root, &leaves[index], &branch[..2], 8 + index));
        let mut longer = branch.clone();
        longer.push([0; 32]);
        assert!(is_valid_merkle_branch(&leaves[index], &longer, 3, index, &root));
        assert!(!verify_merkle_proof(&root, &leaves[index], &longer, 8 + index));
    }
    // With no sibling the leaf is the root.
    assert!(is_valid_merkle_branch(&leaves[0], &[], 0, 5, &leaves[0]));
    assert!(verify_merkle_proof(&leaves[0], &leaves[0], &[], 1));
    let left = eth2_hashing::hash32_concat(&leaves[0], &leaves[1]);
    let right = eth2_hashing::hash32_concat(&leaves[1], &leaves[0]);
    assert!(is_valid_merkle_branch(&leaves[0], &[leaves[1]], 1, 0, &left));
    assert!(is_valid_merkle_branch(&leaves[0], &[leaves[1]], 1, 1, &right));
}

#[test]
fn generalized_index_bits_and_length() {
    assert!(get_generalized_index_bit(0b1011, 0));
    assert!(get_generalized_index_bit(0b1011, 1));
    assert!(!get_generalized_index_bit(0b1011, 2));
    assert!(get_generalized_index_bit(0b1011, 3));
    assert!(!get_generalized_index_bit(0b1011, 4));
    assert!(!get_generalized_index_bit(5, 63));
    assert_eq!(get_generalized_index_length(1), 0);
    assert_eq!(get_generalized_index_length(105), 6);
    assert_eq!(get_generalized_index_length(866_123_776), 29);
}

#[test]
fn padded_trees_agree_with_the_tree_hash_crate() {
    assert_eq!(zero_leaf(), [0u8; 32]);
    for count in 0..20usize {
        let leaves: Vec<[u8; 32]> = (0..count).map(|i| [i as u8 + 3; 32]).collect();
        for depth in 0..7usize {
            if count <= 1 << depth {
                let expected = tree_hash::merkle_root(&leaves.concat(), 1 << depth).to_fixed_bytes();
                assert_eq!(merkle_tree_root(&leaves, depth), expected, "count {count} depth {depth}");
                for index in 0..count {
                    let branch = merkle_tree_branch(&leaves, depth, index);
                    assert_eq!(branch.len(), depth);
                    assert!(is_valid_merkle_branch(&leaves[index], &branch, depth, index, &expected));
                }
            }
        }
    }
}

#[test]
fn header_root_is_the_root_of_its_five_fields() {
    let header = Header {
        slot: 6_632_736,
        proposer_index: 123_456,
        parent_root: [0xa1; 32],
        state_root: [0xb2; 32],
        body_root: [0xc3; 32],
    };
    let mut fields = Vec::new();
    fields.extend_from_slice(&6_632_736u64.tree_hash_root().to_fixed_bytes());
    fields.extend_from_slice(&123_456u64.tree_hash_root().to_fixed_bytes());
    fields.extend_from_slice(&[0xa1; 32]);
    fields.extend_from_slice(&[0xb2; 32]);
    fields.extend_from_slice(&[0xc3; 32]);
    assert_eq!(header.tree_hash_root(), tree_hash::merkle_root(&fields, 0).to_fixed_bytes());
    assert_eq!(header.calc_cache().root, header.tree_hash_root());
    assert_eq!(header.calc_cache().inner, header);
    assert!(!header.calc_cache().is_empty());
}

#[test]
fn empty_header_is_no_proposer_and_three_zero_roots() {
    let empty = Header { slot: 47, proposer_index: 0, parent_root: [0; 32], state_root: [0; 32], body_root: [0; 32] };
    assert!(empty.is_empty());
    assert!(empty.calc_cache().is_empty());
    let mut header = empty;
    header.proposer_index = 1;
    assert!(!header.is_empty());
    for field in 0..3 {
        for byte in [0usize, 17, 31] {
            let mut header = empty;
            match field {
                0 => header.parent_root[byte] = 1,
                1 => header.state_root[byte] = 1,
                _ => header.body_root[byte] = 1,
            }
            assert!(!header.is_empty());
        }
    }
    let mut header = empty;
    header.slot = u64::MAX;
    assert!(header.is_empty());
}
