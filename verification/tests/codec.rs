use eth_light_client::types::prelude::{Pack, Unpack};
use eth_light_client::types::records::{
    Client, ClientBootstrap, ClientInfo, ClientSyncCommittee, ClientTypeArgs, ClientUpdate, Header, HeaderDigest,
    SyncAggregate, SyncCommittee, SyncCommitteeUpdate, TransactionPayload, TransactionProof,
};

fn codec_header(seed: u8) -> Header {
    Header {
        slot: 0x0102_0304_0506_0700 + seed as u64,
        proposer_index: 1000 + seed as u64,
        parent_root: [seed; 32],
        state_root: [seed.wrapping_add(1); 32],
        body_root: [seed.wrapping_add(2); 32],
    }
}

fn codec_aggregate() -> SyncAggregate {
    let mut bits = [0u8; 64];
    bits[3] = 0xa5;
    SyncAggregate { sync_committee_bits: bits, sync_committee_signature: [0x77; 96] }
}

fn codec_round_trip<T>(value: &T) -> Vec<u8>
where
    T: Pack + PartialEq + std::fmt::Debug,
{
    let packed = value.pack();
    let unpacked: Option<T> = packed.as_slice().unpack();
    assert_eq!(unpacked.as_ref(), Some(value));
    // Neither a byte less nor a byte more is the same record.
    if !packed.is_empty() {
        let shorter: Option<T> = packed[..packed.len() - 1].unpack();
        assert_ne!(shorter.as_ref(), Some(value));
    }
    let mut longer = packed.clone();
    longer.push(0);
    let unpacked: Option<T> = longer.as_slice().unpack();
    assert_ne!(unpacked.as_ref(), Some(value));
    packed
}

#[test]
fn numbers_and_arrays_pack_to_their_bytes() {
    assert_eq!(codec_round_trip(&0x0102_0304_0506_0708u64), vec![8, 7, 6, 5, 4, 3, 2, 1]);
    assert_eq!(codec_round_trip(&0u64), vec![0; 8]);
    assert_eq!(codec_round_trip(&u64::MAX), vec![0xff; 8]);
    assert_eq!(codec_round_trip(&0x7fu8), vec![0x7f]);
    assert_eq!(codec_round_trip(&[0xabu8; 32]), vec![0xab; 32]);
    assert_eq!(codec_round_trip(&[0x48u8; 48]), vec![0x48; 48]);
    assert_eq!(codec_round_trip(&[0x64u8; 64]), vec![0x64; 64]);
    assert_eq!(codec_round_trip(&[0x96u8; 96]), vec![0x96; 96]);
    let none: Option<u64> = [1u8, 2, 3].as_slice().unpack();
    assert_eq!(none, None);
    let none: Option<[u8; 32]> = [0u8; 33].as_slice().unpack();
    assert_eq!(none, None);
}

#[test]
fn structs_pack_to_their_fields_in_order() {
    let header = codec_header(9);
    let packed = codec_round_trip(&header);
    assert_eq!(packed.len(), 112);
    assert_eq!(&packed[..8], &header.slot.to_le_bytes());
    assert_eq!(&packed[8..16], &header.proposer_index.to_le_bytes());
    assert_eq!(&packed[16..48], &header.parent_root);
    assert_eq!(&packed[48..80], &header.state_root);
    assert_eq!(&packed[80..], &header.body_root);

    assert_eq!(codec_round_trip(&HeaderDigest { children_hash: [5; 32] }), vec![5; 32]);

    let aggregate = codec_aggregate();
    let packed = codec_round_trip(&aggregate);
    assert_eq!(packed.len(), 160);
    assert_eq!(&packed[..64], &aggregate.sync_committee_bits);
    assert_eq!(&packed[64..], &aggregate.sync_committee_signature);

    let info = ClientInfo { last_client_id: 3, minimal_headers_count: 32, genesis_validators_root: [0x4b; 32] };
    let packed = codec_round_trip(&info);
    assert_eq!(packed.len(), 34);
    assert_eq!(&packed[..2], &[3, 32]);
    assert_eq!(&packed[2..], &[0x4b; 32]);

    let client = Client {
        id: 2,
        minimal_slot: 6_632_736,
        maximal_slot: 6_632_928,
        tip_header_root: [0x10; 32],
        headers_mmr_root: HeaderDigest { children_hash: [0x20; 32] },
    };
    let packed = codec_round_trip(&client);
    assert_eq!(packed.len(), 81);
    assert_eq!(packed[0], 2);
    assert_eq!(&packed[1..9], &6_632_736u64.to_le_bytes());
    assert_eq!(&packed[9..17], &6_632_928u64.to_le_bytes());
    assert_eq!(&packed[17..49], &[0x10; 32]);
    assert_eq!(&packed[49..], &[0x20; 32]);

    let args = ClientTypeArgs { type_id: [0x31; 32], clients_count: 4 };
    let packed = codec_round_trip(&args);
    assert_eq!(packed.len(), 33);
    assert_eq!(packed[32], 4);
}

#[test]
fn vectors_pack_their_count_and_their_items() {
    assert_eq!(codec_round_trip(&Vec::<u8>::new()), vec![0, 0, 0, 0]);
    assert_eq!(codec_round_trip(&vec![1u8, 2, 3]), vec![3, 0, 0, 0, 1, 2, 3]);
    let proof = vec![[1u8; 32], [2u8; 32]];
    let packed = codec_round_trip(&proof);
    assert_eq!(packed.len(), 68);
    assert_eq!(&packed[..4], &[2, 0, 0, 0]);
    assert_eq!(&packed[4..36], &[1; 32]);
    assert_eq!(&packed[36..], &[2; 32]);
    codec_round_trip(&vec![codec_header(1), codec_header(2), codec_header(3)]);
    codec_round_trip(&vec![HeaderDigest { children_hash: [8; 32] }; 5]);
    codec_round_trip(&vec![[0x48u8; 48]; 512]);
    codec_round_trip(&vec![7u8; 70_000]);
    // A count that does not match the length.
    let none: Option<Vec<u8>> = [4u8, 0, 0, 0, 1, 2, 3].as_slice().unpack();
    assert_eq!(none, None);
    let none: Option<Vec<[u8; 32]>> = [1u8, 0, 0, 0, 1, 2, 3].as_slice().unpack();
    assert_eq!(none, None);
    let none: Option<Vec<u8>> = [0u8, 0, 0].as_slice().unpack();
    assert_eq!(none, None);
}

#[test]
fn vectors_of_byte_strings_pack_with_offsets() {
    assert_eq!(codec_round_trip(&Vec::<Vec<u8>>::new()), vec![4, 0, 0, 0]);
    let nodes = vec![vec![0xaau8, 0xbb], vec![], vec![0xcc]];
    let packed = codec_round_trip(&nodes);
    assert_eq!(
        packed,
        vec![
            31, 0, 0, 0, // the whole length
            16, 0, 0, 0, 22, 0, 0, 0, 26, 0, 0, 0, // where the three items start
            2, 0, 0, 0, 0xaa, 0xbb, // the items
            0, 0, 0, 0, //
            1, 0, 0, 0, 0xcc,
        ]
    );
    for (at, byte) in [(0usize, 30u8), (4, 12), (4, 17), (8, 15), (12, 32), (16, 3)] {
        let mut broken = packed.clone();
        broken[at] = byte;
        let none: Option<Vec<Vec<u8>>> = broken.as_slice().unpack();
        assert_eq!(none, None, "byte {at} set to {byte}");
    }
}

#[test]
fn tables_pack_with_offsets() {
    let payload = TransactionPayload { transaction: vec![1, 2, 3], receipt: vec![9] };
    assert_eq!(
        codec_round_trip(&payload),
        vec![24, 0, 0, 0, 12, 0, 0, 0, 19, 0, 0, 0, 3, 0, 0, 0, 1, 2, 3, 1, 0, 0, 0, 9]
    );

    let bootstrap = ClientBootstrap { header: codec_header(4), current_sync_committee_branch: vec![[3; 32]; 5] };
    let packed = codec_round_trip(&bootstrap);
    assert_eq!(packed.len(), 12 + 112 + 4 + 5 * 32);
    assert_eq!(&packed[..12], &[32, 1, 0, 0, 12, 0, 0, 0, 124, 0, 0, 0]);

    let committee = SyncCommittee { pubkeys: vec![[0x48; 48]; 512], aggregate_pubkey: [0x49; 48] };
    let packed = codec_round_trip(&committee);
    assert_eq!(packed.len(), 12 + 4 + 512 * 48 + 48);
    let with_period = ClientSyncCommittee { period: 809, data: committee };
    let outer = codec_round_trip(&with_period);
    assert_eq!(&outer[12..20], &809u64.to_le_bytes());
    assert_eq!(&outer[20..], &packed[..]);

    let update = ClientUpdate {
        attested_header: codec_header(1),
        finality_branch: vec![[6; 32]; 6],
        sync_aggregate: codec_aggregate(),
        signature_slot: 77,
        new_headers_mmr_proof: vec![HeaderDigest { children_hash: [1; 32] }; 3],
        headers: vec![codec_header(2), codec_header(3)],
    };
    let packed = codec_round_trip(&update);
    assert_eq!(packed.len(), 28 + 112 + (4 + 192) + 160 + 8 + (4 + 96) + (4 + 224));

    let rotation = SyncCommitteeUpdate {
        attested_header: codec_header(5),
        next_sync_committee_branch: vec![[7; 32]; 5],
        sync_aggregate: codec_aggregate(),
        signature_slot: 4_612_001,
    };
    codec_round_trip(&rotation);

    let proof = TransactionProof {
        header: codec_header(6),
        transaction_index: 17,
        receipts_root: [0x5a; 32],
        header_mmr_proof: vec![HeaderDigest { children_hash: [2; 32] }; 8],
        transaction_ssz_proof: vec![[3; 32]; 29],
        receipt_mpt_proof: vec![vec![0xf8; 500], vec![0xe4; 37], vec![]],
        receipts_root_ssz_proof: vec![[4; 32]; 8],
    };
    codec_round_trip(&proof);
}

#[test]
fn broken_tables_are_no_records() {
    let payload = TransactionPayload { transaction: vec![1, 2, 3], receipt: vec![9] };
    let packed = payload.pack();
    for (at, byte) in [(0usize, 25u8), (4, 8), (4, 16), (8, 11), (8, 25), (12, 4), (19, 2)] {
        let mut broken = packed.clone();
        broken[at] = byte;
        let none: Option<TransactionPayload> = broken.as_slice().unpack();
        assert_eq!(none, None, "byte {at} set to {byte}");
    }
    let none: Option<TransactionPayload> = [4u8, 0, 0, 0].as_slice().unpack();
    assert_eq!(none, None);
    let none: Option<ClientBootstrap> = packed.as_slice().unpack();
    assert_eq!(none, None);
    let none: Option<TransactionPayload> = [].as_slice().unpack();
    assert_eq!(none, None);
}
