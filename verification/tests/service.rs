use sc_sync_state_rpc::backend::{ChainBackend, SharedAuthoritySet, SharedEpochChanges};
use sc_sync_state_rpc::document::{
    ChainSpecDocument, Extension, ExtensionValue, LIGHT_SYNC_STATE_EXTENSION,
};
use sc_sync_state_rpc::error::Error;
use sc_sync_state_rpc::service::{SafetyGate, SyncStateRpc, SyncStateRpcApi};
use sc_sync_state_rpc::types::{
    encode_authority_set, encode_epoch_tree, encode_header, Authority, AuthoritySet,
    EpochChangeTree, EpochTransition, Header,
};
use sc_sync_state_rpc::encoding::encode_hex;

const FINALIZED_HASH: u64 = 0xAA;
const FOREIGN_SLOT: u64 = 7;

fn test_header() -> Header {
    Header { hash: FINALIZED_HASH, parent_hash: 0x99, number: 42, state_root: 0x77 }
}

fn test_tree() -> EpochChangeTree {
    EpochChangeTree {
        transitions: vec![
            EpochTransition { block_hash: 0x10, block_number: 5, epoch_index: 1 },
            EpochTransition { block_hash: 0x20, block_number: 11, epoch_index: 2 },
        ],
    }
}

fn test_authority_set() -> AuthoritySet {
    AuthoritySet {
        set_id: 5,
        authorities: vec![
            Authority { id: 1, weight: 10 },
            Authority { id: 2, weight: 20 },
        ],
    }
}

fn document_with_slot() -> ChainSpecDocument {
    ChainSpecDocument {
        name: String::from("testnet"),
        id: String::from("test"),
        genesis_human: String::from("{\"runtime\":{\"balances\":[1,2]}}"),
        genesis_raw: String::from("{\"raw\":{\"top\":{}}}"),
        extensions: vec![
            Extension {
                discriminator: FOREIGN_SLOT,
                value: ExtensionValue::Opaque(String::from("{\"forkBlocks\":[9]}")),
            },
            Extension { discriminator: LIGHT_SYNC_STATE_EXTENSION, value: ExtensionValue::Null },
        ],
    }
}

fn document_without_slot() -> ChainSpecDocument {
    ChainSpecDocument {
        name: String::from("testnet"),
        id: String::from("test"),
        genesis_human: String::from("{}"),
        genesis_raw: String::from("{}"),
        extensions: vec![Extension {
            discriminator: FOREIGN_SLOT,
            value: ExtensionValue::Opaque(String::from("null")),
        }],
    }
}

fn full_backend() -> ChainBackend {
    let mut backend = ChainBackend::new(FINALIZED_HASH);
    backend.add_header(test_header());
    backend.add_block_weight(FINALIZED_HASH, 7);
    backend
}

fn ready_service(gate: SafetyGate) -> SyncStateRpc {
    SyncStateRpc::new(
        document_with_slot(),
        full_backend(),
        SharedAuthoritySet::new(test_authority_set()),
        SharedEpochChanges::new(test_tree()),
        gate,
    )
    .expect("document declares the slot")
}

fn hex_to_bytes(s: &str) -> Vec<u8> {
    assert!(s.starts_with("0x"));
    let digits = &s[2..];
    assert!(digits.len() % 2 == 0);
    (0..digits.len() / 2)
        .map(|i| u8::from_str_radix(&digits[2 * i..2 * i + 2], 16).unwrap())
        .collect()
}

fn u64_from_le(bytes: &[u8]) -> u64 {
    let mut v: u64 = 0;
    for (i, b) in bytes.iter().enumerate() {
        v |= (*b as u64) << (8 * i);
    }
    v
}

#[test]
fn construction_fails_without_slot() {
    let r = SyncStateRpc::new(
        document_without_slot(),
        full_backend(),
        SharedAuthoritySet::new(test_authority_set()),
        SharedEpochChanges::new(test_tree()),
        SafetyGate::Allow,
    );
    assert!(matches!(r, Err(Error::LightSyncStateExtensionNotFound)));
}

#[test]
fn construction_succeeds_with_null_slot() {
    let r = SyncStateRpc::new(
        document_with_slot(),
        full_backend(),
        SharedAuthoritySet::new(test_authority_set()),
        SharedEpochChanges::new(test_tree()),
        SafetyGate::Allow,
    );
    assert!(r.is_ok());
}

#[test]
fn gate_denial_rejects_the_call() {
    let service = ready_service(SafetyGate::Deny);
    let r = service.generate_sync_spec(false);
    assert_eq!(r, Err(Error::UnsafeCallRejected));
    let r = service.system_gen_sync_spec(true);
    assert_eq!(r, Err(Error::UnsafeCallRejected));
}

#[test]
fn missing_weight_fails_with_its_own_kind() {
    let mut backend = ChainBackend::new(FINALIZED_HASH);
    backend.add_header(test_header());
    let service = SyncStateRpc::new(
        document_with_slot(),
        backend,
        SharedAuthoritySet::new(test_authority_set()),
        SharedEpochChanges::new(test_tree()),
        SafetyGate::Allow,
    )
    .unwrap();
    let r = service.generate_sync_spec(false);
    assert_eq!(r, Err(Error::LoadingBlockWeightFailed(FINALIZED_HASH)));
}

#[test]
fn missing_header_fails_with_its_own_kind() {
    let mut backend = ChainBackend::new(0xBB);
    backend.add_header(test_header());
    backend.add_block_weight(0xBB, 7);
    let service = SyncStateRpc::new(
        document_with_slot(),
        backend,
        SharedAuthoritySet::new(test_authority_set()),
        SharedEpochChanges::new(test_tree()),
        SafetyGate::Allow,
    )
    .unwrap();
    let r = service.generate_sync_spec(false);
    assert_eq!(r, Err(Error::MissingFinalizedHeader(0xBB)));
}

#[test]
fn injected_slot_carries_the_encoded_snapshot() {
    let service = ready_service(SafetyGate::Allow);
    let text = service.generate_sync_spec(false).unwrap();
    let doc: serde_json::Value = serde_json::from_str(&text).unwrap();

    let expected_header = encode_hex(&encode_header(&test_header()));
    let expected_tree = encode_hex(&encode_epoch_tree(&test_tree()));
    let expected_set = encode_hex(&encode_authority_set(&test_authority_set()));

    let slot = &doc["lightSyncState"];
    assert_eq!(slot["finalizedBlockHeader"].as_str().unwrap(), expected_header);
    assert_eq!(slot["babeEpochChanges"].as_str().unwrap(), expected_tree);
    assert_eq!(slot["babeFinalizedBlockWeight"].as_u64().unwrap(), 7);
    assert_eq!(slot["grandpaAuthoritySet"].as_str().unwrap(), expected_set);
    assert_eq!(
        slot.as_object().unwrap().len(),
        4,
        "the slot holds exactly the four snapshot fields"
    );
}

#[test]
fn decoded_header_hash_matches_the_finalized_hash() {
    let service = ready_service(SafetyGate::Allow);
    let text = service.generate_sync_spec(false).unwrap();
    let doc: serde_json::Value = serde_json::from_str(&text).unwrap();
    let header_hex = doc["lightSyncState"]["finalizedBlockHeader"].as_str().unwrap();
    let bytes = hex_to_bytes(header_hex);
    assert_eq!(bytes.len(), 28);
    assert_eq!(u64_from_le(&bytes[0..8]), FINALIZED_HASH);
    assert_eq!(u64_from_le(&bytes[8..16]), 0x99);
    assert_eq!(u64_from_le(&bytes[16..20]), 42);
    assert_eq!(u64_from_le(&bytes[20..28]), 0x77);
}

#[test]
fn unrelated_document_fields_pass_through_untouched() {
    let service = ready_service(SafetyGate::Allow);
    let text = service.generate_sync_spec(false).unwrap();
    let doc: serde_json::Value = serde_json::from_str(&text).unwrap();
    assert_eq!(doc["name"].as_str().unwrap(), "testnet");
    assert_eq!(doc["id"].as_str().unwrap(), "test");
    assert_eq!(
        doc["genesis"],
        serde_json::from_str::<serde_json::Value>("{\"runtime\":{\"balances\":[1,2]}}").unwrap()
    );
    assert_eq!(
        doc["extension7"],
        serde_json::from_str::<serde_json::Value>("{\"forkBlocks\":[9]}").unwrap()
    );
}

#[test]
fn repeated_calls_are_byte_identical() {
    let service = ready_service(SafetyGate::Allow);
    let first = service.generate_sync_spec(false).unwrap();
    let second = service.generate_sync_spec(false).unwrap();
    assert_eq!(first, second);
    let d1: serde_json::Value = serde_json::from_str(&first).unwrap();
    let d2: serde_json::Value = serde_json::from_str(&second).unwrap();
    assert_eq!(d1["lightSyncState"], d2["lightSyncState"]);
}

#[test]
fn raw_flag_changes_only_the_outer_form() {
    let service = ready_service(SafetyGate::Allow);
    let human = service.generate_sync_spec(false).unwrap();
    let raw = service.generate_sync_spec(true).unwrap();
    let dh: serde_json::Value = serde_json::from_str(&human).unwrap();
    let dr: serde_json::Value = serde_json::from_str(&raw).unwrap();
    assert_eq!(dh["lightSyncState"], dr["lightSyncState"]);
    assert_eq!(dh["name"], dr["name"]);
    assert_eq!(dh["id"], dr["id"]);
    assert_eq!(
        dh["genesis"],
        serde_json::from_str::<serde_json::Value>("{\"runtime\":{\"balances\":[1,2]}}").unwrap()
    );
    assert_eq!(
        dr["genesis"],
        serde_json::from_str::<serde_json::Value>("{\"raw\":{\"top\":{}}}").unwrap()
    );
}

#[test]
fn patching_replaces_stale_slot_content_wholesale() {
    let mut doc = document_with_slot();
    let stale = doc
        .set_extension(
            LIGHT_SYNC_STATE_EXTENSION,
            ExtensionValue::Opaque(String::from("{\"stale\":true}")),
        );
    assert!(stale.is_ok());
    let service = SyncStateRpc::new(
        doc,
        full_backend(),
        SharedAuthoritySet::new(test_authority_set()),
        SharedEpochChanges::new(test_tree()),
        SafetyGate::Allow,
    )
    .unwrap();
    let text = service.generate_sync_spec(false).unwrap();
    assert!(!text.contains("stale"));
    let parsed: serde_json::Value = serde_json::from_str(&text).unwrap();
    assert!(parsed["lightSyncState"]["finalizedBlockHeader"].is_string());
}

#[test]
fn set_extension_fails_on_undeclared_slot() {
    let mut doc = document_without_slot();
    let r = doc.set_extension(LIGHT_SYNC_STATE_EXTENSION, ExtensionValue::Null);
    assert_eq!(r, Err(Error::LightSyncStateExtensionNotFound));
    assert!(doc.get_extension(LIGHT_SYNC_STATE_EXTENSION).is_none());
    assert!(doc.get_extension(FOREIGN_SLOT).is_some());
}

#[test]
fn error_messages_name_their_cause() {
    assert_eq!(
        Error::LightSyncStateExtensionNotFound.message(),
        "the light sync state extension is not provided by the chain spec"
    );
    assert_eq!(
        Error::LoadingBlockWeightFailed(1).message(),
        "failed to load the block weight for the finalized block"
    );
    assert_eq!(
        Error::MissingFinalizedHeader(1).message(),
        "the finalized block's header is missing from the backend"
    );
    assert_eq!(
        Error::UnsafeCallRejected.message(),
        "the call is unsafe and was rejected by the safety gate"
    );
}
