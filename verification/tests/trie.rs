use eth_light_client::utilities::mpt::{
    get_nibble, is_empty_value, keccak256, paths_match, shared_prefix_length, skip_length, verify_proof,
    EMPTY_ACCOUNT, EMPTY_CODE, EMPTY_ROOT,
};
use rlp::{RlpStream, NULL_RLP};

#[test]
fn test_empty_value() {
    let hash = keccak256(&[]);
    assert_eq!(&hash, &EMPTY_CODE);

    let hash = keccak256(&NULL_RLP);
    assert_eq!(&hash, &EMPTY_ROOT);

    let mut stream = RlpStream::new();
    stream.begin_list(4);
    stream.append_empty_data();
    stream.append_empty_data();
    stream.append(&EMPTY_ROOT.as_ref());
    stream.append(&EMPTY_CODE.as_ref());
    let empty_account = stream.out().to_vec();
    assert_eq!(&empty_account, &EMPTY_ACCOUNT);
}

#[test]
fn keccak_is_not_the_identity() {
    let digest = keccak256(b"abc");
    assert_eq!(
        digest,
        [
            0x4e, 0x03, 0x65, 0x7a, 0xea, 0x45, 0xa9, 0x4f, 0xc7, 0xd4, 0x7b, 0xa8, 0x26, 0xc8, 0xd6, 0x67, 0xc0,
            0xd1, 0xe6, 0xe3, 0x3a, 0x64, 0xa0, 0x36, 0xec, 0x44, 0xf5, 0x8f, 0xa1, 0x2d, 0x6c, 0x45
        ]
    );
}

#[test]
fn nibbles_and_prefixes() {
    let path = [0x12u8, 0x34, 0xab];
    let nibbles: Vec<u8> = (0..6).map(|i| get_nibble(&path, i)).collect();
    assert_eq!(nibbles, vec![1, 2, 3, 4, 0xa, 0xb]);

    assert_eq!(skip_length(&[]), 0);
    assert_eq!(skip_length(&[0x00, 0x12]), 2);
    assert_eq!(skip_length(&[0x11, 0x23]), 1);
    assert_eq!(skip_length(&[0x20, 0x12]), 2);
    assert_eq!(skip_length(&[0x31]), 1);
    assert_eq!(skip_length(&[0x45]), 0);
    assert_eq!(skip_length(&[0xf0]), 0);

    // An even extension path 0x1234 against the key 0x1234ab.
    assert!(paths_match(&[0x00, 0x12, 0x34], 2, &[0x12, 0x34], 0));
    assert!(!paths_match(&[0x00, 0x12, 0x34], 2, &path, 0));
    assert!(paths_match(&[0x20, 0x34, 0xab], 2, &path, 2));
    assert!(paths_match(&[0x3b], 1, &path, 5));
    assert!(!paths_match(&[0x3a], 1, &path, 5));
    assert!(paths_match(&[], 0, &path, 6));
    assert!(!paths_match(&[], 0, &path, 7));
    assert!(!paths_match(&[0x20], 3, &path, 6));

    assert_eq!(shared_prefix_length(&path, 0, &[0x00, 0x12, 0x34]), 4);
    assert_eq!(shared_prefix_length(&path, 0, &[0x00, 0x12, 0x35]), 3);
    assert_eq!(shared_prefix_length(&path, 1, &[0x12, 0x3f]), 2);
    assert_eq!(shared_prefix_length(&path, 4, &[0x00, 0xab, 0xcd]), 2);
    assert_eq!(shared_prefix_length(&path, 6, &[0x00, 0xab]), 0);
    assert_eq!(shared_prefix_length(&path, 0, &[]), 0);
}

#[test]
fn values_that_stand_for_absence() {
    assert!(is_empty_value(&[0x80]));
    assert!(is_empty_value(&EMPTY_ACCOUNT));
    assert!(!is_empty_value(&[]));
    assert!(!is_empty_value(&[0x81]));
    assert!(!is_empty_value(&[0x80, 0x80]));
    let mut account = EMPTY_ACCOUNT;
    account[69] ^= 1;
    assert!(!is_empty_value(&account));
}

fn trie_leaf(path: &[u8], value: &[u8]) -> Vec<u8> {
    let mut stream = RlpStream::new_list(2);
    stream.append(&path.to_vec());
    stream.append(&value.to_vec());
    stream.out().to_vec()
}

fn trie_branch(children: &[Vec<u8>; 16]) -> Vec<u8> {
    let mut stream = RlpStream::new_list(17);
    for child in children {
        stream.append(child);
    }
    stream.append_empty_data();
    stream.out().to_vec()
}

#[test]
fn proofs_of_a_small_trie() {
    // A branch at the root; under nibble 1 a leaf with the rest "234" of
    // the key 0x1234, under nibble 5 a leaf with the rest "678".
    let value_a = vec![0xaa; 40];
    let value_b = vec![0xbb; 40];
    let leaf_a = trie_leaf(&[0x32, 0x34], &value_a);
    let leaf_b = trie_leaf(&[0x36, 0x78], &value_b);
    let mut children: [Vec<u8>; 16] = Default::default();
    children[1] = keccak256(&leaf_a).to_vec();
    children[5] = keccak256(&leaf_b).to_vec();
    let branch = trie_branch(&children);
    let root = keccak256(&branch);

    let proof_a = vec![branch.clone(), leaf_a.clone()];
    let proof_b = vec![branch.clone(), leaf_b.clone()];
    assert!(verify_proof(&proof_a, &root, &[0x12, 0x34], &value_a));
    assert!(verify_proof(&proof_b, &root, &[0x56, 0x78], &value_b));

    // Another value, another key, another root, a node out of place.
    assert!(!verify_proof(&proof_a, &root, &[0x12, 0x34], &value_b));
    assert!(!verify_proof(&proof_a, &root, &[0x12, 0x35], &value_a));
    assert!(!verify_proof(&proof_a, &root, &[0x56, 0x78], &value_a));
    assert!(!verify_proof(&proof_a, &EMPTY_ROOT, &[0x12, 0x34], &value_a));
    assert!(!verify_proof(&proof_b, &root, &[0x12, 0x34], &value_a));
    assert!(!verify_proof(&[leaf_a.clone()], &root, &[0x12, 0x34], &value_a));
    assert!(!verify_proof(&[], &root, &[0x12, 0x34], &value_a));
    assert!(!verify_proof(&[branch.clone()], &root, &[0x12, 0x34], &value_a));

    // Absence: an empty child of the last branch, or a leaf with
    // another path.
    assert!(verify_proof(&[branch.clone()], &root, &[0x72, 0x34], &[0x80]));
    assert!(verify_proof(&[branch.clone()], &root, &[0x72, 0x34], &EMPTY_ACCOUNT));
    assert!(!verify_proof(&[branch.clone()], &root, &[0x72, 0x34], &value_a));
    assert!(!verify_proof(&[branch.clone()], &root, &[0x12, 0x34], &[0x80]));
    assert!(verify_proof(&proof_a, &root, &[0x12, 0x35], &[0x80]));
    assert!(!verify_proof(&proof_a, &root, &[0x12, 0x34], &[0x80]));

    // A key that ends before the walk does, and bytes that are no list.
    assert!(!verify_proof(&[branch.clone()], &root, &[], &[0x80]));
    let junk = vec![0xc2, 0x01];
    assert!(!verify_proof(&[junk.clone()], &keccak256(&junk), &[0x12], &[0x80]));
    let nested = vec![0xc3, 0xc1, 0x01, 0x02];
    assert!(!verify_proof(&[nested.clone()], &keccak256(&nested), &[0x12], &[0x80]));
    let three = vec![0xc3, 0x01, 0x02, 0x03];
    assert!(!verify_proof(&[three.clone()], &keccak256(&three), &[0x12], &[0x80]));
}

#[test]
fn proof_through_an_extension() {
    // An extension with the path "12" leads to a branch; under nibble 3
    // of the branch a leaf with the rest "4".
    let value = vec![0xcc; 50];
    let leaf = trie_leaf(&[0x34], &value);
    let mut children: [Vec<u8>; 16] = Default::default();
    children[3] = keccak256(&leaf).to_vec();
    let branch = trie_branch(&children);
    let extension = trie_leaf(&[0x00, 0x12], &keccak256(&branch));
    let root = keccak256(&extension);
    let proof = vec![extension.clone(), branch.clone(), leaf];
    assert!(verify_proof(&proof, &root, &[0x12, 0x34], &value));
    assert!(!verify_proof(&proof, &root, &[0x13, 0x34], &value));
    assert!(!verify_proof(&proof, &root, &[0x12, 0x35], &value));
    assert!(!verify_proof(&proof, &root, &[0x12], &value));
    assert!(verify_proof(&[extension, branch], &root, &[0x12, 0x44], &[0x80]));
}
