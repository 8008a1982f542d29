use eth_light_client::prover::receipts::{encode_log, encode_receipt, Log, Receipt, Receipts};
use eth_light_client::utilities::mpt::{keccak256, verify_proof, EMPTY_ROOT};

const BLOOM_BYTE_LENGTH: usize = 256;

fn receipt_m3_2048(bloom: &mut [u8; 256], x: &[u8]) {
    let hash = keccak256(x);
    for i in [0, 2, 4] {
        let bit = (hash[i + 1] as usize + ((hash[i] as usize) << 8)) & 0x7FF;
        bloom[BLOOM_BYTE_LENGTH - 1 - bit / 8] |= 1 << (bit % 8);
    }
}

fn receipt_logs_bloom(logs: &[Log]) -> [u8; 256] {
    let mut bloom = [0u8; 256];
    for log in logs {
        receipt_m3_2048(&mut bloom, &log.address);
        for topic in log.topics.iter() {
            receipt_m3_2048(&mut bloom, topic);
        }
    }
    bloom
}

fn receipt_gas(gas: u64) -> [u8; 32] {
    let mut bytes = [0u8; 32];
    bytes[24..].copy_from_slice(&gas.to_be_bytes());
    bytes
}

#[test]
fn test_receipt() {
    let logs = vec![Log { address: [0; 20], topics: vec![], data: vec![] }];
    let receipt = Receipt {
        status: 1,
        cumulative_gas_used: receipt_gas(10),
        logs_bloom: receipt_logs_bloom(&logs),
        logs,
        transaction_type: Some(2),
    };

    let receipt = encode_receipt(&receipt).unwrap();

    let reference_encode: Vec<u8> = [
        2, 249, 1, 30, 1, 10, 185, 1, 0, 0, 0, 0, 0, 0, 0, 0, 0, 0, 128, 0, 0, 0, 0, 0, 0, 0,
        0, 0, 0, 0, 0, 0, 0, 0, 0, 0, 0, 0, 0, 0, 0, 0, 0, 0, 0, 0, 0, 0, 0, 0, 0, 0, 0, 0, 0,
        0, 2, 0, 0, 0, 0, 0, 0, 0, 0, 0, 0, 0, 0, 0, 0, 0, 0, 0, 0, 0, 0, 0, 0, 0, 0, 0, 0, 0,
        0, 0, 0, 0, 0, 0, 0, 0, 0, 0, 0, 0, 0, 0, 0, 0, 0, 0, 0, 0, 0, 0, 0, 0, 0, 0, 0, 0, 0,
        0, 0, 0, 0, 0, 0, 0, 0, 0, 0, 0, 0, 0, 0, 0, 0, 0, 0, 0, 0, 0, 0, 0, 0, 0, 0, 0, 0, 0,
        0, 0, 0, 0, 0, 0, 0, 0, 0, 0, 1, 0, 0, 0, 0, 0, 0, 0, 0, 0, 0, 0, 0, 0, 0, 0, 0, 0, 0,
        0, 0, 0, 0, 0, 0, 0, 0, 0, 0, 0, 0, 0, 0, 0, 0, 0, 0, 0, 0, 0, 0, 0, 0, 0, 0, 0, 0, 0,
        0, 0, 0, 0, 0, 0, 0, 0, 0, 0, 0, 0, 0, 0, 0, 0, 0, 0, 0, 0, 0, 0, 0, 0, 0, 0, 0, 0, 0,
        0, 0, 0, 0, 0, 0, 0, 0, 0, 0, 0, 0, 0, 0, 0, 0, 0, 0, 0, 0, 0, 0, 0, 0, 0, 0, 0, 0, 0,
        0, 0, 0, 0, 0, 0, 0, 216, 215, 148, 0, 0, 0, 0, 0, 0, 0, 0, 0, 0, 0, 0, 0, 0, 0, 0, 0,
        0, 0, 0, 192, 128,
    ]
    .to_vec();
    assert_eq!(receipt, reference_encode);
}

#[test]
fn receipt_type_decides_the_leading_byte() {
    let base = Receipt {
        status: 0,
        cumulative_gas_used: receipt_gas(0),
        logs_bloom: [0; 256],
        logs: vec![],
        transaction_type: None,
    };
    let legacy = encode_receipt(&base).unwrap();
    // status 0 and gas 0 are empty strings, the bloom a long string, no
    // logs an empty list.
    let mut expected = vec![0xf9, 0x01, 0x06, 0x80, 0x80, 0xb9, 0x01, 0x00];
    expected.extend_from_slice(&[0u8; 256]);
    expected.push(0xc0);
    assert_eq!(legacy, expected);
    for (transaction_type, prefix) in [
        (None, None),
        (Some(0), None),
        (Some(1), Some(1u8)),
        (Some(2), Some(2u8)),
        (Some(3), None),
        (Some(258), None),
        (Some(u64::MAX), None),
    ] {
        let mut receipt = base.clone();
        receipt.transaction_type = transaction_type;
        let encoded = encode_receipt(&receipt).unwrap();
        match prefix {
            Some(byte) => {
                assert_eq!(encoded[0], byte);
                assert_eq!(&encoded[1..], &legacy[..]);
            }
            None => assert_eq!(encoded, legacy),
        }
    }
}

#[test]
fn receipt_fields_are_encoded_as_rlp() {
    let mut receipt = Receipt {
        status: 1,
        cumulative_gas_used: receipt_gas(0x7f),
        logs_bloom: [0; 256],
        logs: vec![],
        transaction_type: None,
    };
    let encoded = encode_receipt(&receipt).unwrap();
    assert_eq!(&encoded[..5], &[0xf9, 0x01, 0x06, 0x01, 0x7f]);
    receipt.cumulative_gas_used = receipt_gas(0x80);
    let encoded = encode_receipt(&receipt).unwrap();
    assert_eq!(&encoded[..6], &[0xf9, 0x01, 0x07, 0x01, 0x81, 0x80]);
    receipt.cumulative_gas_used = receipt_gas(0x0102_0304);
    receipt.status = 0x1_0000;
    let encoded = encode_receipt(&receipt).unwrap();
    assert_eq!(&encoded[..12], &[0xf9, 0x01, 0x0d, 0x83, 0x01, 0x00, 0x00, 0x84, 0x01, 0x02, 0x03, 0x04]);
    receipt.cumulative_gas_used = [0xff; 32];
    receipt.status = 1;
    let encoded = encode_receipt(&receipt).unwrap();
    assert_eq!(&encoded[..5], &[0xf9, 0x01, 0x26, 0x01, 0xa0]);
    assert_eq!(&encoded[5..37], &[0xff; 32]);

    let log = Log { address: [0x11; 20], topics: vec![[0x22; 32], [0x33; 32]], data: vec![0x44; 60] };
    let encoded = encode_log(&log).unwrap();
    let mut expected = vec![0xf8, 0x97, 0x94];
    expected.extend_from_slice(&[0x11; 20]);
    expected.extend_from_slice(&[0xf8, 0x42, 0xa0]);
    expected.extend_from_slice(&[0x22; 32]);
    expected.push(0xa0);
    expected.extend_from_slice(&[0x33; 32]);
    expected.extend_from_slice(&[0xb8, 60]);
    expected.extend_from_slice(&[0x44; 60]);
    assert_eq!(encoded, expected);
    let one_byte = Log { address: [0; 20], topics: vec![], data: vec![0x05] };
    assert_eq!(encode_log(&one_byte).unwrap()[22..], [0xc0, 0x05]);
}

#[test]
fn receipts_trie_proves_every_receipt_under_its_index() {
    let receipts: Vec<Receipt> = (0..200u64)
        .map(|i| Receipt {
            status: i % 2,
            cumulative_gas_used: receipt_gas(21_000 * (i + 1)),
            logs_bloom: [i as u8; 256],
            logs: vec![Log { address: [i as u8; 20], topics: vec![[1; 32]], data: vec![2; (i % 7) as usize] }],
            transaction_type: Some(i % 3),
        })
        .collect();
    let trie = Receipts::from_receipts(receipts.clone()).unwrap();
    assert_eq!(trie.original(), &receipts);
    let root = trie.root();
    for index in [0usize, 1, 2, 55, 127, 128, 129, 199] {
        let key = rlp::encode(&index).to_vec();
        let proof = trie.generate_proof(index).unwrap();
        let data = trie.encode_data(index);
        assert_eq!(data, encode_receipt(&receipts[index]).unwrap());
        assert!(verify_proof(&proof, &root, &key, &data));
        assert!(!verify_proof(&proof, &root, &key, &trie.encode_data((index + 1) % 200)));
        assert!(!verify_proof(&proof, &root, &rlp::encode(&(index + 1)), &data));
    }
    // The proof for an index past the receipts proves that nothing is
    // there.
    let proof = trie.generate_proof(200).unwrap();
    assert!(verify_proof(&proof, &root, &rlp::encode(&200usize), &[0x80]));
    assert!(!verify_proof(&proof, &root, &rlp::encode(&200usize), &trie.encode_data(0)));
}

#[test]
fn receipts_trie_without_receipts_has_the_empty_root() {
    let trie = Receipts::from_receipts(vec![]).unwrap();
    assert_eq!(trie.root(), EMPTY_ROOT);
    assert!(trie.original().is_empty());
}
