//! The sync-state service.
//!
//! Constructed once against a chain specification document, a backend and
//! the two shared consensus containers; construction fails unless the
//! document declares the sync-state extension slot. Each query consults
//! the safety gate, builds a fresh snapshot, encodes it, patches a clone
//! of the document and serializes the clone — the held document is never
//! mutated, and nothing is retained across calls.

use vstd::prelude::*;
use crate::backend::{
    find_header, find_weight, lemma_find_header_hash, ChainBackend, ChainBackendModel,
    SharedAuthoritySet, SharedEpochChanges,
};
use crate::document::{
    document_head_text, document_tail_text, document_text, encode_sync_state, encoded_state_of,
    find_extension, has_extension, lemma_patch_leaves_other_slots, lemma_patched_slot_holds_value,
    patch_extensions, ChainSpecDocument, ChainSpecDocumentModel, ExtensionValue,
    ExtensionValueModel, LIGHT_SYNC_STATE_EXTENSION,
};
use crate::encoding::bytes_of_hex_prefixed;
use crate::encoding::lemma_hex_prefixed_round_trip;
use crate::error::Error;
use crate::types::{
    authority_set_bytes, authority_set_of_bytes, epoch_tree_bytes, epoch_tree_of_bytes,
    header_bytes, header_of_bytes, lemma_authority_set_round_trip, lemma_epoch_tree_round_trip,
    lemma_header_round_trip, AuthoritySetModel, EpochTransition, LightSyncState,
    LightSyncStateModel,
};

verus! {

/// The policy gate consulted once per query before any other work.
#[derive(Clone, Copy, PartialEq, Eq, Structural, Debug)]
pub enum SafetyGate {
    /// Privileged queries are permitted.
    Allow,
    /// Privileged queries are denied.
    Deny,
}

impl SafetyGate {
    /// Whether the safety gate permits privileged queries.
    pub open spec fn allows(&self) -> bool {
        *self == SafetyGate::Allow
    }

    /// Consults the safety gate; denial is a policy outcome, not a fault.
    pub fn check_if_safe(&self) -> (r: Result<(), Error>)
        ensures
            r == if self.allows() {
                Ok::<(), Error>(())
            } else {
                Err::<(), Error>(Error::UnsafeCallRejected)
            },
    {
        match self {
            SafetyGate::Allow => Ok(()),
            SafetyGate::Deny => Err(Error::UnsafeCallRejected),
        }
    }
}

/// The mathematical content of a service: the state each query observes.
pub ghost struct SyncStateRpcModel {
    pub chain_spec: ChainSpecDocumentModel,
    pub client: ChainBackendModel,
    pub shared_authority_set: AuthoritySetModel,
    pub shared_epoch_changes: Seq<EpochTransition>,
    pub deny_unsafe: SafetyGate,
}

/// The query surface of the service. An implementor answers each query
/// from the state it currently observes, exactly as `spec_gen_sync_spec`
/// prescribes.
pub trait SyncStateRpcApi {
    /// The state the implementor's queries observe.
    spec fn query_model(&self) -> SyncStateRpcModel;

    /// Returns the serialized chain specification running the node, with
    /// a fresh sync state injected into its extension slot.
    fn system_gen_sync_spec(&self, raw: bool) -> (r: Result<String, Error>)
        ensures
            match (r, spec_gen_sync_spec(self.query_model(), raw)) {
                (Ok(s), Ok(t)) => s@ == t,
                (Err(e), Err(em)) => e == em,
                _ => false,
            },
    ;
}

/// The sync-state service. It exists only for documents that declare the
/// extension slot, and a query never mutates the state it holds.
pub struct SyncStateRpc {
    chain_spec: ChainSpecDocument,
    client: ChainBackend,
    shared_authority_set: SharedAuthoritySet,
    shared_epoch_changes: SharedEpochChanges,
    deny_unsafe: SafetyGate,
}

impl View for SyncStateRpc {
    type V = SyncStateRpcModel;

    closed spec fn view(&self) -> SyncStateRpcModel {
        SyncStateRpcModel {
            chain_spec: self.chain_spec@,
            client: self.client@,
            shared_authority_set: self.shared_authority_set@,
            shared_epoch_changes: self.shared_epoch_changes@,
            deny_unsafe: self.deny_unsafe,
        }
    }
}

/// What building a snapshot yields: the header stored for the backend's
/// finalized hash, the weight entry keyed by that exact hash, and deep
/// copies of the two shared containers — or the first lookup failure.
pub open spec fn spec_build_sync_state(m: SyncStateRpcModel) -> Result<LightSyncStateModel, Error> {
    let fh = m.client.finalized_hash;
    match find_header(m.client.headers, fh) {
        None => Err(Error::MissingFinalizedHeader(fh)),
        Some(h) => match find_weight(m.client.weights, fh) {
            None => Err(Error::LoadingBlockWeightFailed(fh)),
            Some(w) => Ok(
                LightSyncStateModel {
                    finalized_block_header: h,
                    babe_epoch_changes: m.shared_epoch_changes,
                    babe_finalized_block_weight: w,
                    grandpa_authority_set: m.shared_authority_set,
                },
            ),
        },
    }
}

/// The document a successful query serializes: the held document with
/// the sync-state slot's content replaced wholesale by the encoded
/// snapshot, every other field untouched.
pub open spec fn spec_patched_document(
    m: SyncStateRpcModel,
    s: LightSyncStateModel,
) -> ChainSpecDocumentModel {
    ChainSpecDocumentModel {
        extensions: patch_extensions(
            m.chain_spec.extensions,
            LIGHT_SYNC_STATE_EXTENSION,
            ExtensionValueModel::LightSyncState(encoded_state_of(s)),
        ),
        ..m.chain_spec
    }
}

/// The end-to-end result of one query: the safety gate decides first, then the
/// snapshot is built, then the slot's presence is re-checked defensively,
/// and only then is the patched clone's text produced.
pub open spec fn spec_gen_sync_spec(m: SyncStateRpcModel, raw: bool) -> Result<Seq<char>, Error> {
    if !m.deny_unsafe.allows() {
        Err(Error::UnsafeCallRejected)
    } else {
        match spec_build_sync_state(m) {
            Err(e) => Err(e),
            Ok(s) => if has_extension(m.chain_spec.extensions, LIGHT_SYNC_STATE_EXTENSION) {
                Ok(document_text(spec_patched_document(m, s), raw))
            } else {
                Err(Error::LightSyncStateExtensionNotFound)
            },
        }
    }
}

impl SyncStateRpc {
    /// Creates the service. Fail-fast: for a document that declares the
    /// sync-state slot (even with an empty value) a ready service holding
    /// exactly the given state is returned; for any other document the
    /// construction fails with `LightSyncStateExtensionNotFound` and no
    /// service instance exists.
    pub fn new(
        chain_spec: ChainSpecDocument,
        client: ChainBackend,
        shared_authority_set: SharedAuthoritySet,
        shared_epoch_changes: SharedEpochChanges,
        deny_unsafe: SafetyGate,
    ) -> (r: Result<Self, Error>)
        ensures
            has_extension(chain_spec@.extensions, LIGHT_SYNC_STATE_EXTENSION) ==> (r matches Ok(s)
                && s@ == (SyncStateRpcModel {
                chain_spec: chain_spec@,
                client: client@,
                shared_authority_set: shared_authority_set@,
                shared_epoch_changes: shared_epoch_changes@,
                deny_unsafe,
            })),
            !has_extension(chain_spec@.extensions, LIGHT_SYNC_STATE_EXTENSION) ==> r == Err::<
                SyncStateRpc,
                Error,
            >(Error::LightSyncStateExtensionNotFound),
    {
        let declared = chain_spec.get_extension(LIGHT_SYNC_STATE_EXTENSION).is_some();
        if declared {
            Ok(
                SyncStateRpc {
                    chain_spec,
                    client,
                    shared_authority_set,
                    shared_epoch_changes,
                    deny_unsafe,
                },
            )
        } else {
            Err(Error::LightSyncStateExtensionNotFound)
        }
    }

    /// Builds a fresh snapshot from the state the backend and the two
    /// shared containers hold right now. The weight is looked up by the
    /// same hash the header was fetched for; each lookup failure is
    /// surfaced immediately as its own error kind.
    pub fn build_sync_state(&self) -> (r: Result<LightSyncState, Error>)
        ensures
            match (r, spec_build_sync_state(self@)) {
                (Ok(s), Ok(sm)) => s@ == sm,
                (Err(e), Err(em)) => e == em,
                _ => false,
            },
    {
        let finalized_hash = self.client.finalized_hash();
        let finalized_header = match self.client.header(finalized_hash) {
            Some(h) => h,
            None => {
                return Err(Error::MissingFinalizedHeader(finalized_hash));
            },
        };
        let finalized_block_weight = match self.client.block_weight(finalized_hash) {
            Some(w) => w,
            None => {
                return Err(Error::LoadingBlockWeightFailed(finalized_hash));
            },
        };
        Ok(
            LightSyncState {
                finalized_block_header: finalized_header,
                babe_epoch_changes: self.shared_epoch_changes.shared_data(),
                babe_finalized_block_weight: finalized_block_weight,
                grandpa_authority_set: self.shared_authority_set.clone_inner(),
            },
        )
    }

    /// One query: consult the safety gate, build and encode a snapshot, clone
    /// the held document, replace the slot's content on the clone, and
    /// serialize it. The held document is read, never written; on any
    /// failure the error is surfaced with its kind preserved.
    pub fn generate_sync_spec(&self, raw: bool) -> (r: Result<String, Error>)
        ensures
            match (r, spec_gen_sync_spec(self@, raw)) {
                (Ok(s), Ok(t)) => s@ == t,
                (Err(e), Err(em)) => e == em,
                _ => false,
            },
    {
        match self.deny_unsafe.check_if_safe() {
            Ok(()) => {},
            Err(e) => {
                return Err(e);
            },
        }
        let current_sync_state = match self.build_sync_state() {
            Ok(s) => s,
            Err(e) => {
                return Err(e);
            },
        };
        let encoded = encode_sync_state(&current_sync_state);
        let mut chain_spec = self.chain_spec.cloned();
        match chain_spec.set_extension(
            LIGHT_SYNC_STATE_EXTENSION,
            ExtensionValue::LightSyncState(encoded),
        ) {
            Ok(()) => {},
            Err(e) => {
                return Err(e);
            },
        }
        proof {
            assert(chain_spec@ == spec_patched_document(
                self@,
                spec_build_sync_state(self@).unwrap(),
            ));
        }
        Ok(chain_spec.serialize(raw))
    }
}

impl SyncStateRpcApi for SyncStateRpc {
    open spec fn query_model(&self) -> SyncStateRpcModel {
        self@
    }

    fn system_gen_sync_spec(&self, raw: bool) -> (r: Result<String, Error>) {
        self.generate_sync_spec(raw)
    }
}

// ---------------------------------------------------------------------
// Laws.
// ---------------------------------------------------------------------

/// Law: whenever a query succeeds, the patched document's sync-state slot
/// holds exactly the encoded snapshot; each hex field decodes to the very
/// value that was captured — the header the backend served for its
/// finalized hash (so the decoded header's hash equals the finalized hash
/// observed during the call), the snapshotted epoch tree and the
/// snapshotted authority set — and the weight is the auxiliary entry
/// keyed by that exact hash. Every other slot of the document is exactly
/// as it was. The two size bounds hold of every container an in-memory
/// state can hold.
pub proof fn lemma_snapshot_consistency(m: SyncStateRpcModel, raw: bool)
    requires
        spec_gen_sync_spec(m, raw) is Ok,
        m.shared_epoch_changes.len() < crate::encoding::pow256(8),
        m.shared_authority_set.authorities.len() < crate::encoding::pow256(8),
    ensures
        spec_build_sync_state(m) is Ok,
        ({
            let sm = spec_build_sync_state(m).unwrap();
            let c = encoded_state_of(sm);
            let patched = spec_patched_document(m, sm);
            &&& find_extension(patched.extensions, LIGHT_SYNC_STATE_EXTENSION) == Some(
                ExtensionValueModel::LightSyncState(c),
            )
            &&& bytes_of_hex_prefixed(c.finalized_block_header) == Some(
                header_bytes(sm.finalized_block_header),
            )
            &&& header_of_bytes(header_bytes(sm.finalized_block_header)) == Some(
                sm.finalized_block_header,
            )
            &&& sm.finalized_block_header.hash == m.client.finalized_hash
            &&& find_header(m.client.headers, m.client.finalized_hash) == Some(
                sm.finalized_block_header,
            )
            &&& find_weight(m.client.weights, m.client.finalized_hash) == Some(
                sm.babe_finalized_block_weight,
            )
            &&& bytes_of_hex_prefixed(c.babe_epoch_changes) == Some(
                epoch_tree_bytes(sm.babe_epoch_changes),
            )
            &&& epoch_tree_of_bytes(epoch_tree_bytes(sm.babe_epoch_changes)) == Some(
                sm.babe_epoch_changes,
            )
            &&& sm.babe_epoch_changes == m.shared_epoch_changes
            &&& bytes_of_hex_prefixed(c.grandpa_authority_set) == Some(
                authority_set_bytes(sm.grandpa_authority_set),
            )
            &&& authority_set_of_bytes(authority_set_bytes(sm.grandpa_authority_set)) == Some(
                sm.grandpa_authority_set,
            )
            &&& sm.grandpa_authority_set == m.shared_authority_set
            &&& forall|d: u64| d != LIGHT_SYNC_STATE_EXTENSION ==> find_extension(
                patched.extensions,
                d,
            ) == find_extension(m.chain_spec.extensions, d)
        }),
{
    let sm = spec_build_sync_state(m).unwrap();
    let c = encoded_state_of(sm);
    lemma_patched_slot_holds_value(
        m.chain_spec.extensions,
        LIGHT_SYNC_STATE_EXTENSION,
        ExtensionValueModel::LightSyncState(c),
    );
    lemma_hex_prefixed_round_trip(header_bytes(sm.finalized_block_header));
    lemma_header_round_trip(sm.finalized_block_header);
    lemma_find_header_hash(m.client.headers, m.client.finalized_hash);
    lemma_hex_prefixed_round_trip(epoch_tree_bytes(sm.babe_epoch_changes));
    lemma_epoch_tree_round_trip(sm.babe_epoch_changes);
    lemma_hex_prefixed_round_trip(authority_set_bytes(sm.grandpa_authority_set));
    lemma_authority_set_round_trip(sm.grandpa_authority_set);
    assert forall|d: u64| d != LIGHT_SYNC_STATE_EXTENSION implies find_extension(
        spec_patched_document(m, sm).extensions,
        d,
    ) == find_extension(m.chain_spec.extensions, d) by {
        lemma_patch_leaves_other_slots(
            m.chain_spec.extensions,
            LIGHT_SYNC_STATE_EXTENSION,
            ExtensionValueModel::LightSyncState(c),
            d,
        );
    }
}

/// Law: the query result is a pure function of the observed state and the
/// flag — no hidden input exists. Two consecutive calls with no state
/// change in between therefore produce byte-identical text, and in
/// particular byte-identical injected slot content.
pub proof fn lemma_requery_deterministic(m1: SyncStateRpcModel, m2: SyncStateRpcModel, raw: bool)
    requires
        m1 == m2,
    ensures
        spec_gen_sync_spec(m1, raw) == spec_gen_sync_spec(m2, raw),
        spec_build_sync_state(m1) == spec_build_sync_state(m2),
{
}

/// Law: the two textual forms of a document share their head and their
/// tail — the tail is where the whole extension registry, the injected
/// slot included, is rendered — and differ only in which pre-rendered
/// genesis segment stands between them.
pub proof fn lemma_raw_flag_shapes_only_genesis(d: ChainSpecDocumentModel)
    ensures
        document_text(d, true) == document_head_text(d) + d.genesis_raw + document_tail_text(d),
        document_text(d, false) == document_head_text(d) + d.genesis_human + document_tail_text(d),
{
}

/// Law: when the safety gate allows and the header exists but the auxiliary
/// weight entry for the finalized block is absent, the query fails with
/// exactly `LoadingBlockWeightFailed` for that hash. The query borrows
/// the service immutably, so the held document is unchanged by any
/// outcome, this one included.
pub proof fn lemma_missing_weight_fails(m: SyncStateRpcModel, raw: bool)
    requires
        m.deny_unsafe.allows(),
        find_header(m.client.headers, m.client.finalized_hash) is Some,
        find_weight(m.client.weights, m.client.finalized_hash) is None,
    ensures
        spec_gen_sync_spec(m, raw) == Err::<Seq<char>, Error>(
            Error::LoadingBlockWeightFailed(m.client.finalized_hash),
        ),
{
}

} // verus!
