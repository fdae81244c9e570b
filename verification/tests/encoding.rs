use sc_sync_state_rpc::encoding::{append_u32_le, append_u64_le, encode_decimal, encode_hex};
use sc_sync_state_rpc::types::{
    encode_authority_set, encode_epoch_tree, encode_header, Authority, AuthoritySet,
    EpochChangeTree, EpochTransition, Header,
};

#[test]
fn u64_little_endian_bytes() {
    let mut out: Vec<u8> = Vec::new();
    append_u64_le(&mut out, 0xAA);
    assert_eq!(out, vec![0xAA, 0, 0, 0, 0, 0, 0, 0]);
    let mut out: Vec<u8> = Vec::new();
    append_u64_le(&mut out, 0x0102030405060708);
    assert_eq!(out, vec![8, 7, 6, 5, 4, 3, 2, 1]);
}

#[test]
fn u32_little_endian_bytes() {
    let mut out: Vec<u8> = Vec::new();
    append_u32_le(&mut out, 42);
    assert_eq!(out, vec![42, 0, 0, 0]);
    append_u32_le(&mut out, u32::MAX);
    assert_eq!(out, vec![42, 0, 0, 0, 255, 255, 255, 255]);
}

#[test]
fn hex_text_is_prefixed_and_lowercase() {
    assert_eq!(encode_hex(&vec![]), "0x");
    assert_eq!(encode_hex(&vec![0x00, 0xff, 0x1a]), "0x00ff1a");
    assert_eq!(encode_hex(&vec![0xde, 0xad, 0xbe, 0xef]), "0xdeadbeef");
}

#[test]
fn decimal_text_has_no_leading_zeros() {
    assert_eq!(encode_decimal(0), "0");
    assert_eq!(encode_decimal(7), "7");
    assert_eq!(encode_decimal(1234567890), "1234567890");
    assert_eq!(encode_decimal(u64::MAX), "18446744073709551615");
}

#[test]
fn header_encoding_is_field_order_little_endian() {
    let h = Header { hash: 0xAA, parent_hash: 0x99, number: 42, state_root: 0x77 };
    let bytes = encode_header(&h);
    let mut expected: Vec<u8> = Vec::new();
    expected.extend_from_slice(&0xAAu64.to_le_bytes());
    expected.extend_from_slice(&0x99u64.to_le_bytes());
    expected.extend_from_slice(&42u32.to_le_bytes());
    expected.extend_from_slice(&0x77u64.to_le_bytes());
    assert_eq!(bytes, expected);
}

#[test]
fn epoch_tree_encoding_is_count_prefixed() {
    let empty = EpochChangeTree { transitions: vec![] };
    assert_eq!(encode_epoch_tree(&empty), 0u64.to_le_bytes().to_vec());
    let one = EpochChangeTree {
        transitions: vec![EpochTransition { block_hash: 1, block_number: 2, epoch_index: 3 }],
    };
    let mut expected: Vec<u8> = Vec::new();
    expected.extend_from_slice(&1u64.to_le_bytes());
    expected.extend_from_slice(&1u64.to_le_bytes());
    expected.extend_from_slice(&2u32.to_le_bytes());
    expected.extend_from_slice(&3u64.to_le_bytes());
    assert_eq!(encode_epoch_tree(&one), expected);
}

#[test]
fn authority_set_encoding_carries_id_and_count() {
    let set = AuthoritySet {
        set_id: 5,
        authorities: vec![Authority { id: 1, weight: 10 }, Authority { id: 2, weight: 20 }],
    };
    let mut expected: Vec<u8> = Vec::new();
    expected.extend_from_slice(&5u64.to_le_bytes());
    expected.extend_from_slice(&2u64.to_le_bytes());
    expected.extend_from_slice(&1u64.to_le_bytes());
    expected.extend_from_slice(&10u64.to_le_bytes());
    expected.extend_from_slice(&2u64.to_le_bytes());
    expected.extend_from_slice(&20u64.to_le_bytes());
    assert_eq!(encode_authority_set(&set), expected);
}

#[test]
fn equal_values_encode_identically() {
    let a = EpochChangeTree {
        transitions: vec![EpochTransition { block_hash: 8, block_number: 9, epoch_index: 10 }],
    };
    let b = EpochChangeTree {
        transitions: vec![EpochTransition { block_hash: 8, block_number: 9, epoch_index: 10 }],
    };
    assert_eq!(encode_epoch_tree(&a), encode_epoch_tree(&b));
    assert_eq!(encode_hex(&encode_epoch_tree(&a)), encode_hex(&encode_epoch_tree(&b)));
}
