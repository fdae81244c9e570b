//! The chain specification document and its extension registry.
//!
//! A document is opaque to this core except for one thing: a registry of
//! extension slots keyed by a stable discriminator. The sync-state slot
//! must be declared (possibly empty) for the service to exist; patching
//! replaces that slot's content wholesale on a clone and leaves every
//! other field of the document untouched. Serialization to text is a
//! pure function of the document and of the `raw` flag, and the flag
//! only selects which pre-rendered form of the genesis section appears.

use vstd::prelude::*;
use vstd::string::StringExecFns;
use crate::encoding::{dec_of, encode_decimal, encode_hex, hex_prefixed};
use crate::error::Error;
use crate::types::{
    authority_set_bytes, encode_authority_set, encode_epoch_tree, encode_header, epoch_tree_bytes,
    header_bytes, LightSyncState, LightSyncStateModel,
};

verus! {

/// The discriminator of the sync-state extension slot.
pub const LIGHT_SYNC_STATE_EXTENSION: u64 = 1;

/// The mathematical content of an encoded snapshot.
pub ghost struct EncodedLightSyncStateModel {
    pub finalized_block_header: Seq<char>,
    pub babe_epoch_changes: Seq<char>,
    pub babe_finalized_block_weight: u32,
    pub grandpa_authority_set: Seq<char>,
}

/// A snapshot after canonical encoding: each structured field as a
/// `0x`-prefixed hexadecimal string, the weight as a plain number.
pub struct EncodedLightSyncState {
    /// The hex text of the finalized header's canonical bytes.
    pub finalized_block_header: String,
    /// The hex text of the epoch tree's canonical bytes.
    pub babe_epoch_changes: String,
    /// The weight of the finalized block, unwrapped.
    pub babe_finalized_block_weight: u32,
    /// The hex text of the authority set's canonical bytes.
    pub grandpa_authority_set: String,
}

impl View for EncodedLightSyncState {
    type V = EncodedLightSyncStateModel;

    open spec fn view(&self) -> EncodedLightSyncStateModel {
        EncodedLightSyncStateModel {
            finalized_block_header: self.finalized_block_header@,
            babe_epoch_changes: self.babe_epoch_changes@,
            babe_finalized_block_weight: self.babe_finalized_block_weight,
            grandpa_authority_set: self.grandpa_authority_set@,
        }
    }
}

/// What encoding a snapshot yields: the canonical bytes of each
/// structured field as prefixed hexadecimal text, the weight as is.
pub open spec fn encoded_state_of(m: LightSyncStateModel) -> EncodedLightSyncStateModel {
    EncodedLightSyncStateModel {
        finalized_block_header: hex_prefixed(header_bytes(m.finalized_block_header)),
        babe_epoch_changes: hex_prefixed(epoch_tree_bytes(m.babe_epoch_changes)),
        babe_finalized_block_weight: m.babe_finalized_block_weight,
        grandpa_authority_set: hex_prefixed(authority_set_bytes(m.grandpa_authority_set)),
    }
}

/// Encodes a snapshot canonically. Total: every in-memory snapshot has
/// an encoding, so no failure path exists here.
pub fn encode_sync_state(s: &LightSyncState) -> (r: EncodedLightSyncState)
    ensures
        r@ == encoded_state_of(s@),
{
    EncodedLightSyncState {
        finalized_block_header: encode_hex(&encode_header(&s.finalized_block_header)),
        babe_epoch_changes: encode_hex(&encode_epoch_tree(&s.babe_epoch_changes)),
        babe_finalized_block_weight: s.babe_finalized_block_weight,
        grandpa_authority_set: encode_hex(&encode_authority_set(&s.grandpa_authority_set)),
    }
}

/// The mathematical content of one extension slot's value.
pub ghost enum ExtensionValueModel {
    Null,
    LightSyncState(EncodedLightSyncStateModel),
    Opaque(Seq<char>),
}

/// The free-form value held in one extension slot.
pub enum ExtensionValue {
    /// A declared but empty slot.
    Null,
    /// An injected encoded snapshot.
    LightSyncState(EncodedLightSyncState),
    /// A foreign extension's pre-rendered text, passed through untouched.
    Opaque(String),
}

impl View for ExtensionValue {
    type V = ExtensionValueModel;

    open spec fn view(&self) -> ExtensionValueModel {
        match self {
            ExtensionValue::Null => ExtensionValueModel::Null,
            ExtensionValue::LightSyncState(c) => ExtensionValueModel::LightSyncState(c@),
            ExtensionValue::Opaque(t) => ExtensionValueModel::Opaque(t@),
        }
    }
}

/// The mathematical content of one registry entry.
pub ghost struct ExtensionModel {
    pub discriminator: u64,
    pub value: ExtensionValueModel,
}

/// One entry of the document's extension registry.
pub struct Extension {
    /// The stable discriminator that identifies the slot.
    pub discriminator: u64,
    /// The slot's current value.
    pub value: ExtensionValue,
}

impl View for Extension {
    type V = ExtensionModel;

    open spec fn view(&self) -> ExtensionModel {
        ExtensionModel { discriminator: self.discriminator, value: self.value@ }
    }
}

/// The mathematical content of a document.
pub ghost struct ChainSpecDocumentModel {
    pub name: Seq<char>,
    pub id: Seq<char>,
    pub genesis_human: Seq<char>,
    pub genesis_raw: Seq<char>,
    pub extensions: Seq<ExtensionModel>,
}

/// A chain specification document. Everything but the extension
/// registry is opaque, pre-rendered text that passes through untouched;
/// the genesis section exists in an expanded human-readable form and in
/// a compact raw form, and serialization picks one.
pub struct ChainSpecDocument {
    /// The chain's name, as plain text.
    pub name: String,
    /// The chain's identifier, as plain text.
    pub id: String,
    /// The pre-rendered human-readable genesis section.
    pub genesis_human: String,
    /// The pre-rendered compact raw genesis section.
    pub genesis_raw: String,
    /// The extension registry.
    pub extensions: Vec<Extension>,
}

impl View for ChainSpecDocument {
    type V = ChainSpecDocumentModel;

    open spec fn view(&self) -> ChainSpecDocumentModel {
        ChainSpecDocumentModel {
            name: self.name@,
            id: self.id@,
            genesis_human: self.genesis_human@,
            genesis_raw: self.genesis_raw@,
            extensions: Seq::new(self.extensions@.len(), |i: int| self.extensions@[i]@),
        }
    }
}

// ---------------------------------------------------------------------
// The extension registry: presence-checked get and wholesale set.
// ---------------------------------------------------------------------

/// The value of the first entry keyed by the discriminator, if any.
pub open spec fn find_extension(exts: Seq<ExtensionModel>, d: u64) -> Option<ExtensionValueModel>
    decreases exts.len(),
{
    if exts.len() == 0 {
        None
    } else if exts[0].discriminator == d {
        Some(exts[0].value)
    } else {
        find_extension(exts.drop_first(), d)
    }
}

/// Whether the registry declares a slot for the discriminator.
pub open spec fn has_extension(exts: Seq<ExtensionModel>, d: u64) -> bool {
    find_extension(exts, d) is Some
}

/// The registry with the first entry keyed by the discriminator given
/// the new value, all else unchanged.
pub open spec fn patch_extensions(
    exts: Seq<ExtensionModel>,
    d: u64,
    v: ExtensionValueModel,
) -> Seq<ExtensionModel>
    decreases exts.len(),
{
    if exts.len() == 0 {
        exts
    } else if exts[0].discriminator == d {
        seq![ExtensionModel { discriminator: d, value: v }] + exts.drop_first()
    } else {
        seq![exts[0]] + patch_extensions(exts.drop_first(), d, v)
    }
}

/// After a patch, the patched slot holds exactly the new value.
pub proof fn lemma_patched_slot_holds_value(exts: Seq<ExtensionModel>, d: u64, v: ExtensionValueModel)
    requires
        has_extension(exts, d),
    ensures
        find_extension(patch_extensions(exts, d, v), d) == Some(v),
    decreases exts.len(),
{
    if exts.len() > 0 && exts[0].discriminator != d {
        lemma_patched_slot_holds_value(exts.drop_first(), d, v);
        assert((seq![exts[0]] + patch_extensions(exts.drop_first(), d, v)).drop_first()
            =~= patch_extensions(exts.drop_first(), d, v));
    }
}

/// A patch leaves every other slot exactly as it was.
pub proof fn lemma_patch_leaves_other_slots(
    exts: Seq<ExtensionModel>,
    d: u64,
    v: ExtensionValueModel,
    other: u64,
)
    requires
        other != d,
    ensures
        find_extension(patch_extensions(exts, d, v), other) == find_extension(exts, other),
    decreases exts.len(),
{
    if exts.len() > 0 {
        if exts[0].discriminator == d {
            assert((seq![ExtensionModel { discriminator: d, value: v }]
                + exts.drop_first()).drop_first() =~= exts.drop_first());
        } else {
            lemma_patch_leaves_other_slots(exts.drop_first(), d, v, other);
            assert((seq![exts[0]] + patch_extensions(exts.drop_first(), d, v)).drop_first()
                =~= patch_extensions(exts.drop_first(), d, v));
        }
    }
}

proof fn lemma_find_extension_skip(exts: Seq<ExtensionModel>, d: u64, i: int)
    requires
        0 <= i <= exts.len(),
        forall|j: int| 0 <= j < i ==> exts[j].discriminator != d,
    ensures
        find_extension(exts, d) == find_extension(exts.skip(i), d),
    decreases i,
{
    if i > 0 {
        assert(exts.drop_first() =~= exts.skip(1));
        assert(forall|j: int| 0 <= j < i - 1 ==> exts.drop_first()[j].discriminator != d);
        lemma_find_extension_skip(exts.drop_first(), d, i - 1);
        assert(exts.drop_first().skip(i - 1) =~= exts.skip(i));
    } else {
        assert(exts.skip(0) =~= exts);
    }
}

proof fn lemma_patch_extensions_at(exts: Seq<ExtensionModel>, d: u64, v: ExtensionValueModel, i: int)
    requires
        0 <= i < exts.len(),
        forall|j: int| 0 <= j < i ==> exts[j].discriminator != d,
        exts[i].discriminator == d,
    ensures
        patch_extensions(exts, d, v) == exts.update(
            i,
            ExtensionModel { discriminator: d, value: v },
        ),
    decreases i,
{
    if i == 0 {
        assert(patch_extensions(exts, d, v) =~= exts.update(
            0,
            ExtensionModel { discriminator: d, value: v },
        ));
    } else {
        assert(forall|j: int| 0 <= j < i - 1 ==> exts.drop_first()[j].discriminator != d);
        assert(exts.drop_first()[i - 1].discriminator == d);
        lemma_patch_extensions_at(exts.drop_first(), d, v, i - 1);
        assert(patch_extensions(exts, d, v) =~= exts.update(
            i,
            ExtensionModel { discriminator: d, value: v },
        ));
    }
}

impl ChainSpecDocument {
    /// The value of the slot keyed by the discriminator, if declared.
    pub fn get_extension(&self, discriminator: u64) -> (r: Option<&ExtensionValue>)
        ensures
            match r {
                Some(v) => find_extension(self@.extensions, discriminator) == Some(v@),
                None => find_extension(self@.extensions, discriminator) is None,
            },
    {
        let ghost m = self@.extensions;
        let mut i: usize = 0;
        while i < self.extensions.len()
            invariant
                0 <= i <= self.extensions@.len(),
                m == self@.extensions,
                m.len() == self.extensions@.len(),
                forall|j: int| 0 <= j < m.len() ==> m[j] == #[trigger] self.extensions@[j]@,
                forall|j: int| 0 <= j < i ==> m[j].discriminator != discriminator,
            decreases self.extensions@.len() - i,
        {
            if self.extensions[i].discriminator == discriminator {
                proof {
                    lemma_find_extension_skip(m, discriminator, i as int);
                    assert(m.skip(i as int)[0] == m[i as int]);
                }
                return Some(&self.extensions[i].value);
            }
            i = i + 1;
        }
        proof {
            lemma_find_extension_skip(m, discriminator, i as int);
            assert(m.skip(i as int).len() == 0);
        }
        None
    }

    /// Replaces the slot's entire content with the given value; stale
    /// prior content never survives. Fails, changing nothing, when the
    /// document does not declare the slot.
    pub fn set_extension(&mut self, discriminator: u64, value: ExtensionValue) -> (r: Result<
        (),
        Error,
    >)
        ensures
            has_extension(old(self)@.extensions, discriminator) ==> (r == Ok::<(), Error>(())
                && final(self)@ == (ChainSpecDocumentModel {
                extensions: patch_extensions(old(self)@.extensions, discriminator, value@),
                ..old(self)@
            })),
            !has_extension(old(self)@.extensions, discriminator) ==> (r == Err::<(), Error>(
                Error::LightSyncStateExtensionNotFound,
            ) && final(self)@ == old(self)@),
    {
        let ghost m = self@.extensions;
        let mut i: usize = 0;
        while i < self.extensions.len()
            invariant
                0 <= i <= self.extensions@.len(),
                *self == *old(self),
                m == self@.extensions,
                m.len() == self.extensions@.len(),
                forall|j: int| 0 <= j < m.len() ==> m[j] == #[trigger] self.extensions@[j]@,
                forall|j: int| 0 <= j < i ==> m[j].discriminator != discriminator,
            decreases self.extensions@.len() - i,
        {
            if self.extensions[i].discriminator == discriminator {
                let ghost gv = value@;
                proof {
                    lemma_find_extension_skip(m, discriminator, i as int);
                    assert(m.skip(i as int)[0] == m[i as int]);
                    assert(find_extension(m, discriminator) == Some(m[i as int].value));
                    lemma_patch_extensions_at(m, discriminator, gv, i as int);
                }
                self.extensions[i] = Extension { discriminator, value };
                proof {
                    assert(self@.extensions =~= m.update(
                        i as int,
                        ExtensionModel { discriminator, value: gv },
                    ));
                    assert(self@.extensions == patch_extensions(m, discriminator, gv));
                }
                return Ok(());
            }
            i = i + 1;
        }
        proof {
            lemma_find_extension_skip(m, discriminator, i as int);
            assert(m.skip(i as int).len() == 0);
        }
        Err(Error::LightSyncStateExtensionNotFound)
    }

    /// An independent deep copy of the document.
    pub fn cloned(&self) -> (r: Self)
        ensures
            r@ == self@,
    {
        let mut exts: Vec<Extension> = Vec::new();
        let mut i: usize = 0;
        while i < self.extensions.len()
            invariant
                0 <= i <= self.extensions@.len(),
                exts@.len() == i,
                forall|j: int| 0 <= j < i ==> #[trigger] exts@[j]@ == self.extensions@[j]@,
            decreases self.extensions@.len() - i,
        {
            let e = &self.extensions[i];
            let value = match &e.value {
                ExtensionValue::Null => ExtensionValue::Null,
                ExtensionValue::LightSyncState(c) => ExtensionValue::LightSyncState(
                    EncodedLightSyncState {
                        finalized_block_header: c.finalized_block_header.clone(),
                        babe_epoch_changes: c.babe_epoch_changes.clone(),
                        babe_finalized_block_weight: c.babe_finalized_block_weight,
                        grandpa_authority_set: c.grandpa_authority_set.clone(),
                    },
                ),
                ExtensionValue::Opaque(t) => ExtensionValue::Opaque(t.clone()),
            };
            exts.push(Extension { discriminator: e.discriminator, value });
            i = i + 1;
        }
        let r = ChainSpecDocument {
            name: self.name.clone(),
            id: self.id.clone(),
            genesis_human: self.genesis_human.clone(),
            genesis_raw: self.genesis_raw.clone(),
            extensions: exts,
        };
        proof {
            assert(r@.extensions =~= self@.extensions);
        }
        r
    }
}

// ---------------------------------------------------------------------
// Serialization to text.
// ---------------------------------------------------------------------

/// The text of an encoded snapshot, fields in their fixed order.
pub open spec fn encoded_state_text(c: EncodedLightSyncStateModel) -> Seq<char> {
    "{\"finalizedBlockHeader\":\""@ + c.finalized_block_header + "\",\"babeEpochChanges\":\""@
        + c.babe_epoch_changes + "\",\"babeFinalizedBlockWeight\":"@ + dec_of(
        c.babe_finalized_block_weight as nat,
    ) + ",\"grandpaAuthoritySet\":\""@ + c.grandpa_authority_set + "\"}"@
}

/// The key under which a slot appears in the text.
pub open spec fn extension_key_text(d: u64) -> Seq<char> {
    if d == LIGHT_SYNC_STATE_EXTENSION {
        "lightSyncState"@
    } else {
        "extension"@ + dec_of(d as nat)
    }
}

/// The text of one slot's value.
pub open spec fn extension_value_text(v: ExtensionValueModel) -> Seq<char> {
    match v {
        ExtensionValueModel::Null => "null"@,
        ExtensionValueModel::LightSyncState(c) => encoded_state_text(c),
        ExtensionValueModel::Opaque(t) => t,
    }
}

/// The text of one registry entry, with its leading separator.
pub open spec fn extension_entry_text(e: ExtensionModel) -> Seq<char> {
    ",\""@ + extension_key_text(e.discriminator) + "\":"@ + extension_value_text(e.value)
}

/// The concatenated text of the whole registry.
pub open spec fn extensions_text(exts: Seq<ExtensionModel>) -> Seq<char>
    decreases exts.len(),
{
    if exts.len() == 0 {
        Seq::empty()
    } else {
        extensions_text(exts.drop_last()) + extension_entry_text(exts.last())
    }
}

/// Everything of the document's text that precedes the genesis section.
pub open spec fn document_head_text(d: ChainSpecDocumentModel) -> Seq<char> {
    "{\"name\":\""@ + d.name + "\",\"id\":\""@ + d.id + "\",\"genesis\":"@
}

/// Everything of the document's text that follows the genesis section;
/// the injected extension lives here, so it never depends on `raw`.
pub open spec fn document_tail_text(d: ChainSpecDocumentModel) -> Seq<char> {
    extensions_text(d.extensions) + seq!['}']
}

/// The document's full text. The `raw` flag selects which pre-rendered
/// genesis form appears and nothing else.
pub open spec fn document_text(d: ChainSpecDocumentModel, raw: bool) -> Seq<char> {
    document_head_text(d) + (if raw {
        d.genesis_raw
    } else {
        d.genesis_human
    }) + document_tail_text(d)
}

/// The text of an encoded snapshot.
fn render_encoded_state(c: &EncodedLightSyncState) -> (r: String)
    ensures
        r@ == encoded_state_text(c@),
{
    let mut s = String::from_str("{\"finalizedBlockHeader\":\"");
    s.append(self_str(&c.finalized_block_header));
    s.append("\",\"babeEpochChanges\":\"");
    s.append(self_str(&c.babe_epoch_changes));
    s.append("\",\"babeFinalizedBlockWeight\":");
    let w = encode_decimal(c.babe_finalized_block_weight as u64);
    s.append(self_str(&w));
    s.append(",\"grandpaAuthoritySet\":\"");
    s.append(self_str(&c.grandpa_authority_set));
    s.append("\"}");
    proof {
        assert(s@ =~= encoded_state_text(c@));
    }
    s
}

/// A borrow of a string's text.
fn self_str(s: &String) -> (r: &str)
    ensures
        r@ == s@,
{
    s.as_str()
}

impl ChainSpecDocument {
    /// Serializes the document. `raw` selects the compact raw genesis
    /// section instead of the expanded human-readable one; the rest of
    /// the text, the extension registry included, is the same either way.
    pub fn serialize(&self, raw: bool) -> (r: String)
        ensures
            r@ == document_text(self@, raw),
    {
        let mut s = String::from_str("{\"name\":\"");
        s.append(self_str(&self.name));
        s.append("\",\"id\":\"");
        s.append(self_str(&self.id));
        s.append("\",\"genesis\":");
        if raw {
            s.append(self_str(&self.genesis_raw));
        } else {
            s.append(self_str(&self.genesis_human));
        }
        proof {
            assert(self@.extensions.take(0) =~= Seq::<ExtensionModel>::empty());
            assert(s@ =~= document_head_text(self@) + (if raw {
                self@.genesis_raw
            } else {
                self@.genesis_human
            }) + extensions_text(self@.extensions.take(0)));
        }
        let ghost mid = document_head_text(self@) + (if raw {
            self@.genesis_raw
        } else {
            self@.genesis_human
        });
        let mut i: usize = 0;
        while i < self.extensions.len()
            invariant
                0 <= i <= self.extensions@.len(),
                self@.extensions.len() == self.extensions@.len(),
                forall|j: int| 0 <= j < self@.extensions.len() ==> self@.extensions[j]
                    == #[trigger] self.extensions@[j]@,
                s@ == mid + extensions_text(self@.extensions.take(i as int)),
            decreases self.extensions@.len() - i,
        {
            let e = &self.extensions[i];
            s.append(",\"");
            if e.discriminator == LIGHT_SYNC_STATE_EXTENSION {
                s.append("lightSyncState");
            } else {
                s.append("extension");
                let d = encode_decimal(e.discriminator);
                s.append(self_str(&d));
            }
            s.append("\":");
            match &e.value {
                ExtensionValue::Null => s.append("null"),
                ExtensionValue::LightSyncState(c) => {
                    let t = render_encoded_state(c);
                    s.append(self_str(&t));
                },
                ExtensionValue::Opaque(t) => s.append(self_str(t)),
            }
            proof {
                let pre = self@.extensions.take(i as int);
                let post = self@.extensions.take(i + 1);
                assert(post.drop_last() =~= pre);
                assert(post.last() == self@.extensions[i as int]);
                assert(extensions_text(post) == extensions_text(pre) + extension_entry_text(
                    self@.extensions[i as int],
                ));
                assert(s@ =~= mid + extensions_text(post));
            }
            i = i + 1;
        }
        s.append("}");
        proof {
            reveal_strlit("}");
            assert(self@.extensions.take(self@.extensions.len() as int) =~= self@.extensions);
            assert(s@ =~= document_text(self@, raw));
        }
        s
    }
}

} // verus!
