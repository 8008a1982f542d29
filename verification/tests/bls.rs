use eth_light_client::consensus_specs::forks::altair::DOMAIN_SYNC_COMMITTEE;
use eth_light_client::types::records::{SyncAggregate, SyncCommittee};
use eth_light_client::utilities::bls::{
    compute_domain, compute_fork_data_root, compute_signing_root, compute_signing_root_at_signature_slot,
    is_infinity_signature, participant_bit, BlsError, ForkData, PublicKey, SigningData, DOMAIN_SEPARATION_TAG,
};
use eth_light_client::utilities::tree_hash::pubkey_root;

fn bls_keys(count: u32) -> Vec<blst::min_pk::SecretKey> {
    (0..count)
        .map(|i| {
            let mut ikm = [0x5au8; 32];
            ikm[..4].copy_from_slice(&i.to_le_bytes());
            blst::min_pk::SecretKey::key_gen(&ikm, &[]).unwrap()
        })
        .collect()
}

#[test]
fn domain_separation_tag_is_that_of_ethereum() {
    assert_eq!(&DOMAIN_SEPARATION_TAG[..], b"BLS_SIG_BLS12381G2_XMD:SHA-256_SSWU_RO_POP_");
}

#[test]
fn signing_root_mixes_domain_and_fork_version() {
    let genesis = [0x4b; 32];
    let mut chunk = [0u8; 32];
    chunk[..4].copy_from_slice(&[3, 0, 0, 0]);
    let fork_data_root = eth2_hashing::hash32_concat(&chunk, &genesis);
    assert_eq!(compute_fork_data_root(&[3, 0, 0, 0], genesis), fork_data_root);
    assert_eq!(ForkData::new(&[3, 0, 0, 0], genesis).tree_hash_root(), fork_data_root);
    let domain = compute_domain(&DOMAIN_SYNC_COMMITTEE, &[3, 0, 0, 0], genesis);
    assert_eq!(&domain[..4], &[7, 0, 0, 0]);
    assert_eq!(&domain[4..], &fork_data_root[..28]);
    let object = [0x99; 32];
    let root = eth2_hashing::hash32_concat(&object, &domain);
    assert_eq!(compute_signing_root(object, domain), root);
    assert_eq!(SigningData { object_root: object, domain }.tree_hash_root(), root);

    // The fork version is that of the slot before the signature slot.
    let capella = 194_048 * 32;
    assert_eq!(compute_signing_root_at_signature_slot(object, capella + 1, &DOMAIN_SYNC_COMMITTEE, genesis), root);
    let bellatrix = compute_signing_root(object, compute_domain(&DOMAIN_SYNC_COMMITTEE, &[2, 0, 0, 0], genesis));
    assert_eq!(compute_signing_root_at_signature_slot(object, capella, &DOMAIN_SYNC_COMMITTEE, genesis), bellatrix);
    let genesis_version =
        compute_signing_root(object, compute_domain(&DOMAIN_SYNC_COMMITTEE, &[1, 0, 0, 0], genesis));
    assert_eq!(compute_signing_root_at_signature_slot(object, 0, &DOMAIN_SYNC_COMMITTEE, genesis), genesis_version);
    assert_eq!(compute_signing_root_at_signature_slot(object, 1, &DOMAIN_SYNC_COMMITTEE, genesis), genesis_version);
}

#[test]
fn public_keys_are_validated() {
    let key = bls_keys(1)[0].sk_to_pk().compress();
    let validated = PublicKey::decompress(&key).unwrap();
    assert_eq!(validated.to_bytes(), key);
    let mut infinity = [0u8; 48];
    infinity[0] = 0xc0;
    assert!(PublicKey::decompress(&infinity).is_none());
    assert!(PublicKey::decompress(&[0u8; 48]).is_none());
    assert!(PublicKey::decompress(&[0xff; 48]).is_none());

    let mut committee = SyncCommittee { pubkeys: vec![key; 512], aggregate_pubkey: key };
    let keys = committee.decompress_all_pubkeys().unwrap();
    assert_eq!(keys.len(), 512);
    assert!(keys.iter().all(|k| k.to_bytes() == key));
    committee.pubkeys[511] = infinity;
    assert_eq!(committee.decompress_all_pubkeys(), Err(BlsError::InvalidPublicKey));

    let mut chunks = [0u8; 64];
    chunks[..48].copy_from_slice(&key);
    assert_eq!(pubkey_root(&key), eth2_hashing::hash_fixed(&chunks));
    assert_eq!(pubkey_root(&key), tree_hash::merkle_root(&key, 0).to_fixed_bytes());
}

#[test]
fn participants_are_the_keys_of_the_set_bits() {
    let secret = bls_keys(512);
    let keys: Vec<PublicKey> =
        secret.iter().map(|sk| PublicKey::decompress(&sk.sk_to_pk().compress()).unwrap()).collect();
    let mut bits = [0u8; 64];
    bits[0] = 0b0000_0101;
    bits[1] = 0b1000_0000;
    bits[63] = 0b1000_0001;
    let aggregate = SyncAggregate { sync_committee_bits: bits, sync_committee_signature: [0; 96] };
    for i in 0..512 {
        assert_eq!(participant_bit(&bits, i), [0, 2, 15, 504, 511].contains(&i));
    }
    let signers = aggregate.filter_participant_pubkeys(&keys);
    assert_eq!(signers, vec![keys[0], keys[2], keys[15], keys[504], keys[511]]);
    assert!(!aggregate.has_supermajority());

    let message = [0x42u8; 32];
    let signatures: Vec<blst::min_pk::Signature> =
        [0usize, 2, 15, 504, 511].iter().map(|i| secret[*i].sign(&message, &DOMAIN_SEPARATION_TAG, &[])).collect();
    let refs: Vec<&blst::min_pk::Signature> = signatures.iter().collect();
    let signature = blst::min_pk::AggregateSignature::aggregate(&refs, true).unwrap().to_signature().compress();
    let mut aggregate = SyncAggregate { sync_committee_bits: bits, sync_committee_signature: signature };
    assert_eq!(aggregate.fast_aggregate_verify(&keys, message), Ok(true));
    assert_eq!(aggregate.fast_aggregate_verify(&keys, [0x43; 32]), Ok(false));
    aggregate.sync_committee_bits[0] = 0b0000_0111;
    assert_eq!(aggregate.fast_aggregate_verify(&keys, message), Ok(false));
    aggregate.sync_committee_bits = [0; 64];
    assert_eq!(aggregate.fast_aggregate_verify(&keys, message), Ok(false));
    aggregate.sync_committee_signature = [0xff; 96];
    assert_eq!(aggregate.fast_aggregate_verify(&keys, message), Err(BlsError::InvalidSignature));

    let mut infinity = [0u8; 96];
    infinity[0] = 0xc0;
    assert!(is_infinity_signature(&infinity));
    assert!(!is_infinity_signature(&signature));
    assert!(!is_infinity_signature(&[0; 96]));
    aggregate.sync_committee_signature = infinity;
    aggregate.sync_committee_bits = bits;
    assert_eq!(aggregate.fast_aggregate_verify(&keys, message), Ok(false));
}

#[test]
fn committee_root_is_the_root_of_keys_and_aggregate() {
    let keys: Vec<[u8; 48]> = bls_keys(512).iter().map(|sk| sk.sk_to_pk().compress()).collect();
    let committee = SyncCommittee { pubkeys: keys.clone(), aggregate_pubkey: keys[7] };
    let roots: Vec<u8> = keys.iter().flat_map(|key| pubkey_root(key)).collect();
    let keys_root = tree_hash::merkle_root(&roots, 512).to_fixed_bytes();
    let expected = eth2_hashing::hash32_concat(&keys_root, &pubkey_root(&keys[7]));
    assert_eq!(committee.tree_hash_root(), expected);
}
