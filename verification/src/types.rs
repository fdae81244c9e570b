//! The consensus-state data model.
//!
//! Each piece of live consensus state is held as plain values: a header
//! identified by its block hash, the forest of recorded epoch transitions,
//! the finality voter set, and the aggregate snapshot taken per request.
//! Every structure has a canonical byte encoding, a pure function of the
//! value alone, and each encoding is inverted by an exact decoder.

use vstd::prelude::*;
use crate::encoding::{
    le_value, lemma_le_bytes_len, lemma_le_round_trip, pow256, u32_le, u64_le,
};
use crate::encoding::{append_u32_le, append_u64_le};

verus! {

/// The header of a finalized block, identified by its block hash.
#[derive(Clone, Copy, PartialEq, Eq, Structural, Debug)]
pub struct Header {
    /// The hash that identifies the block.
    pub hash: u64,
    /// The hash of the parent block.
    pub parent_hash: u64,
    /// The block's height in the chain.
    pub number: u32,
    /// The root of the block's state trie.
    pub state_root: u64,
}

/// One recorded consensus-epoch transition.
#[derive(Clone, Copy, PartialEq, Eq, Structural, Debug)]
pub struct EpochTransition {
    /// The block at which the transition was recorded.
    pub block_hash: u64,
    /// That block's height.
    pub block_number: u32,
    /// The index of the epoch the transition leads into.
    pub epoch_index: u64,
}

/// The historical forest of consensus-epoch transitions.
#[derive(Debug)]
pub struct EpochChangeTree {
    /// The recorded transitions, oldest first.
    pub transitions: Vec<EpochTransition>,
}

impl View for EpochChangeTree {
    type V = Seq<EpochTransition>;

    open spec fn view(&self) -> Seq<EpochTransition> {
        self.transitions@
    }
}

/// One finality voter with its voting weight.
#[derive(Clone, Copy, PartialEq, Eq, Structural, Debug)]
pub struct Authority {
    /// The voter's identity.
    pub id: u64,
    /// The voter's weight in the set.
    pub weight: u64,
}

/// The mathematical content of an authority set.
pub ghost struct AuthoritySetModel {
    pub set_id: u64,
    pub authorities: Seq<Authority>,
}

/// The current finality-gadget voter set with its set identifier.
#[derive(Debug)]
pub struct AuthoritySet {
    /// The identifier of the era this set belongs to.
    pub set_id: u64,
    /// The voters and their weights.
    pub authorities: Vec<Authority>,
}

impl View for AuthoritySet {
    type V = AuthoritySetModel;

    open spec fn view(&self) -> AuthoritySetModel {
        AuthoritySetModel { set_id: self.set_id, authorities: self.authorities@ }
    }
}

/// The mathematical content of a snapshot.
pub ghost struct LightSyncStateModel {
    pub finalized_block_header: Header,
    pub babe_epoch_changes: Seq<EpochTransition>,
    pub babe_finalized_block_weight: u32,
    pub grandpa_authority_set: AuthoritySetModel,
}

/// A point-in-time snapshot of the consensus state a light client needs
/// to bootstrap: the finalized header, the epoch-change history, that
/// block's weight and the finality authority set.
pub struct LightSyncState {
    /// The header of the best finalized block.
    pub finalized_block_header: Header,
    /// The recorded epoch transitions.
    pub babe_epoch_changes: EpochChangeTree,
    /// The weight of the finalized block, looked up by its exact hash.
    pub babe_finalized_block_weight: u32,
    /// The finality authority set.
    pub grandpa_authority_set: AuthoritySet,
}

impl View for LightSyncState {
    type V = LightSyncStateModel;

    open spec fn view(&self) -> LightSyncStateModel {
        LightSyncStateModel {
            finalized_block_header: self.finalized_block_header,
            babe_epoch_changes: self.babe_epoch_changes@,
            babe_finalized_block_weight: self.babe_finalized_block_weight,
            grandpa_authority_set: self.grandpa_authority_set@,
        }
    }
}

// ---------------------------------------------------------------------
// Canonical byte encodings.
// ---------------------------------------------------------------------

/// The canonical bytes of a header: its fields, little-endian, in order.
pub open spec fn header_bytes(h: Header) -> Seq<u8> {
    u64_le(h.hash) + u64_le(h.parent_hash) + u32_le(h.number) + u64_le(h.state_root)
}

/// The canonical bytes of one epoch transition.
pub open spec fn transition_bytes(t: EpochTransition) -> Seq<u8> {
    u64_le(t.block_hash) + u32_le(t.block_number) + u64_le(t.epoch_index)
}

/// The concatenated bytes of a transition sequence.
pub open spec fn transitions_bytes(ts: Seq<EpochTransition>) -> Seq<u8>
    decreases ts.len(),
{
    if ts.len() == 0 {
        Seq::empty()
    } else {
        transitions_bytes(ts.drop_last()) + transition_bytes(ts.last())
    }
}

/// The canonical bytes of the epoch tree: a count, then each transition.
pub open spec fn epoch_tree_bytes(ts: Seq<EpochTransition>) -> Seq<u8> {
    u64_le(ts.len() as u64) + transitions_bytes(ts)
}

/// The canonical bytes of one authority.
pub open spec fn authority_bytes(a: Authority) -> Seq<u8> {
    u64_le(a.id) + u64_le(a.weight)
}

/// The concatenated bytes of an authority sequence.
pub open spec fn authorities_bytes(s: Seq<Authority>) -> Seq<u8>
    decreases s.len(),
{
    if s.len() == 0 {
        Seq::empty()
    } else {
        authorities_bytes(s.drop_last()) + authority_bytes(s.last())
    }
}

/// The canonical bytes of an authority set: its identifier, a count,
/// then each authority.
pub open spec fn authority_set_bytes(m: AuthoritySetModel) -> Seq<u8> {
    u64_le(m.set_id) + u64_le(m.authorities.len() as u64) + authorities_bytes(m.authorities)
}

/// Encodes a header canonically.
pub fn encode_header(h: &Header) -> (r: Vec<u8>)
    ensures
        r@ == header_bytes(*h),
{
    let mut out: Vec<u8> = Vec::new();
    append_u64_le(&mut out, h.hash);
    append_u64_le(&mut out, h.parent_hash);
    append_u32_le(&mut out, h.number);
    append_u64_le(&mut out, h.state_root);
    proof {
        assert(out@ =~= header_bytes(*h));
    }
    out
}

/// Encodes the epoch-change tree canonically.
pub fn encode_epoch_tree(t: &EpochChangeTree) -> (r: Vec<u8>)
    ensures
        r@ == epoch_tree_bytes(t@),
{
    let mut out: Vec<u8> = Vec::new();
    append_u64_le(&mut out, t.transitions.len() as u64);
    let mut i: usize = 0;
    proof {
        assert(t@.take(0) =~= Seq::<EpochTransition>::empty());
        assert(out@ =~= u64_le(t.transitions@.len() as u64) + transitions_bytes(t@.take(0)));
    }
    while i < t.transitions.len()
        invariant
            0 <= i <= t@.len(),
            out@ == u64_le(t@.len() as u64) + transitions_bytes(t@.take(i as int)),
        decreases t@.len() - i,
    {
        let tr = t.transitions[i];
        append_u64_le(&mut out, tr.block_hash);
        append_u32_le(&mut out, tr.block_number);
        append_u64_le(&mut out, tr.epoch_index);
        proof {
            let pre = t@.take(i as int);
            let post = t@.take(i + 1);
            assert(post.drop_last() =~= pre);
            assert(post.last() == t@[i as int]);
            assert(transitions_bytes(post) == transitions_bytes(pre) + transition_bytes(
                t@[i as int],
            ));
            assert(out@ =~= u64_le(t@.len() as u64) + transitions_bytes(post));
        }
        i = i + 1;
    }
    proof {
        assert(t@.take(t@.len() as int) =~= t@);
    }
    out
}

/// Encodes an authority set canonically.
pub fn encode_authority_set(a: &AuthoritySet) -> (r: Vec<u8>)
    ensures
        r@ == authority_set_bytes(a@),
{
    let mut out: Vec<u8> = Vec::new();
    append_u64_le(&mut out, a.set_id);
    append_u64_le(&mut out, a.authorities.len() as u64);
    let mut i: usize = 0;
    proof {
        assert(a.authorities@.take(0) =~= Seq::<Authority>::empty());
        assert(out@ =~= u64_le(a.set_id) + u64_le(a.authorities@.len() as u64)
            + authorities_bytes(a.authorities@.take(0)));
    }
    while i < a.authorities.len()
        invariant
            0 <= i <= a.authorities@.len(),
            out@ == u64_le(a.set_id) + u64_le(a.authorities@.len() as u64) + authorities_bytes(
                a.authorities@.take(i as int),
            ),
        decreases a.authorities@.len() - i,
    {
        let au = a.authorities[i];
        append_u64_le(&mut out, au.id);
        append_u64_le(&mut out, au.weight);
        proof {
            let pre = a.authorities@.take(i as int);
            let post = a.authorities@.take(i + 1);
            assert(post.drop_last() =~= pre);
            assert(post.last() == a.authorities@[i as int]);
            assert(authorities_bytes(post) == authorities_bytes(pre) + authority_bytes(
                a.authorities@[i as int],
            ));
            assert(out@ =~= u64_le(a.set_id) + u64_le(a.authorities@.len() as u64)
                + authorities_bytes(post));
        }
        i = i + 1;
    }
    proof {
        assert(a.authorities@.take(a.authorities@.len() as int) =~= a.authorities@);
    }
    out
}

// ---------------------------------------------------------------------
// Exact decoding of the header encoding.
// ---------------------------------------------------------------------

/// The header a canonical byte string denotes, if any.
pub open spec fn header_of_bytes(bs: Seq<u8>) -> Option<Header> {
    if bs.len() == 28 {
        Some(
            Header {
                hash: le_value(bs.subrange(0, 8)) as u64,
                parent_hash: le_value(bs.subrange(8, 16)) as u64,
                number: le_value(bs.subrange(16, 20)) as u32,
                state_root: le_value(bs.subrange(20, 28)) as u64,
            },
        )
    } else {
        None
    }
}

/// Decoding the canonical bytes of a header gives back the header;
/// in particular the encoding is injective.
pub proof fn lemma_header_round_trip(h: Header)
    ensures
        header_of_bytes(header_bytes(h)) == Some(h),
{
    let bs = header_bytes(h);
    lemma_le_bytes_len(h.hash as nat, 8);
    lemma_le_bytes_len(h.parent_hash as nat, 8);
    lemma_le_bytes_len(h.number as nat, 4);
    lemma_le_bytes_len(h.state_root as nat, 8);
    assert(bs.subrange(0, 8) =~= u64_le(h.hash));
    assert(bs.subrange(8, 16) =~= u64_le(h.parent_hash));
    assert(bs.subrange(16, 20) =~= u32_le(h.number));
    assert(bs.subrange(20, 28) =~= u64_le(h.state_root));
    lemma_pow256_values();
    lemma_le_round_trip(h.hash as nat, 8);
    lemma_le_round_trip(h.parent_hash as nat, 8);
    lemma_le_round_trip(h.number as nat, 4);
    lemma_le_round_trip(h.state_root as nat, 8);
}

/// The concrete values of the small powers of 256 used by the decoders.
pub proof fn lemma_pow256_values()
    ensures
        pow256(4) == 0x100000000,
        pow256(8) == 0x10000000000000000,
{
    reveal_with_fuel(pow256, 9);
}

} // verus!

verus! {

/// The transition a 20-byte canonical string denotes, if any.
pub open spec fn transition_of_bytes(bs: Seq<u8>) -> Option<EpochTransition> {
    if bs.len() == 20 {
        Some(
            EpochTransition {
                block_hash: le_value(bs.subrange(0, 8)) as u64,
                block_number: le_value(bs.subrange(8, 12)) as u32,
                epoch_index: le_value(bs.subrange(12, 20)) as u64,
            },
        )
    } else {
        None
    }
}

/// The `n` transitions a canonical byte string denotes, if it is exactly
/// their concatenation.
pub open spec fn transitions_of_bytes(bs: Seq<u8>, n: nat) -> Option<Seq<EpochTransition>>
    decreases n,
{
    if n == 0 {
        if bs.len() == 0 {
            Some(Seq::empty())
        } else {
            None
        }
    } else if bs.len() < 20 {
        None
    } else {
        let split = bs.len() - 20;
        match (transitions_of_bytes(bs.take(split as int), (n - 1) as nat), transition_of_bytes(
            bs.skip(split as int),
        )) {
            (Some(rest), Some(t)) => Some(rest.push(t)),
            _ => None,
        }
    }
}

/// The epoch tree a canonical byte string denotes, if any.
pub open spec fn epoch_tree_of_bytes(bs: Seq<u8>) -> Option<Seq<EpochTransition>> {
    if bs.len() >= 8 {
        transitions_of_bytes(bs.skip(8), le_value(bs.take(8)))
    } else {
        None
    }
}

pub proof fn lemma_transitions_bytes_len(ts: Seq<EpochTransition>)
    ensures
        transitions_bytes(ts).len() == 20 * ts.len(),
    decreases ts.len(),
{
    if ts.len() > 0 {
        lemma_transitions_bytes_len(ts.drop_last());
        lemma_transition_bytes_len(ts.last());
    }
}

pub proof fn lemma_transition_bytes_len(t: EpochTransition)
    ensures
        transition_bytes(t).len() == 20,
{
    lemma_le_bytes_len(t.block_hash as nat, 8);
    lemma_le_bytes_len(t.block_number as nat, 4);
    lemma_le_bytes_len(t.epoch_index as nat, 8);
}

/// Decoding the canonical bytes of one transition gives it back.
pub proof fn lemma_transition_round_trip(t: EpochTransition)
    ensures
        transition_of_bytes(transition_bytes(t)) == Some(t),
{
    let bs = transition_bytes(t);
    lemma_transition_bytes_len(t);
    lemma_le_bytes_len(t.block_hash as nat, 8);
    lemma_le_bytes_len(t.block_number as nat, 4);
    lemma_le_bytes_len(t.epoch_index as nat, 8);
    assert(bs.subrange(0, 8) =~= u64_le(t.block_hash));
    assert(bs.subrange(8, 12) =~= u32_le(t.block_number));
    assert(bs.subrange(12, 20) =~= u64_le(t.epoch_index));
    lemma_pow256_values();
    lemma_le_round_trip(t.block_hash as nat, 8);
    lemma_le_round_trip(t.block_number as nat, 4);
    lemma_le_round_trip(t.epoch_index as nat, 8);
}

/// Decoding the concatenated bytes of a transition sequence gives it back.
pub proof fn lemma_transitions_round_trip(ts: Seq<EpochTransition>)
    ensures
        transitions_of_bytes(transitions_bytes(ts), ts.len()) == Some(ts),
    decreases ts.len(),
{
    if ts.len() == 0 {
        assert(transitions_of_bytes(transitions_bytes(ts), 0) =~= Some(Seq::<
            EpochTransition,
        >::empty()));
        assert(Seq::<EpochTransition>::empty() =~= ts);
    } else {
        let bs = transitions_bytes(ts);
        lemma_transitions_bytes_len(ts);
        lemma_transitions_bytes_len(ts.drop_last());
        lemma_transition_bytes_len(ts.last());
        let split = bs.len() - 20;
        assert(bs.take(split as int) =~= transitions_bytes(ts.drop_last()));
        assert(bs.skip(split as int) =~= transition_bytes(ts.last()));
        lemma_transitions_round_trip(ts.drop_last());
        lemma_transition_round_trip(ts.last());
        assert(ts.drop_last().push(ts.last()) =~= ts);
    }
}

/// Decoding the canonical bytes of an epoch tree gives back its
/// transitions; in particular the encoding is injective.
pub proof fn lemma_epoch_tree_round_trip(ts: Seq<EpochTransition>)
    requires
        ts.len() < pow256(8),
    ensures
        epoch_tree_of_bytes(epoch_tree_bytes(ts)) == Some(ts),
{
    let bs = epoch_tree_bytes(ts);
    lemma_pow256_values();
    lemma_le_bytes_len(ts.len() as nat, 8);
    lemma_transitions_bytes_len(ts);
    assert(bs.take(8) =~= u64_le(ts.len() as u64));
    assert(bs.skip(8) =~= transitions_bytes(ts));
    lemma_le_round_trip(ts.len() as nat, 8);
    lemma_transitions_round_trip(ts);
}

/// The authority a 16-byte canonical string denotes, if any.
pub open spec fn authority_of_bytes(bs: Seq<u8>) -> Option<Authority> {
    if bs.len() == 16 {
        Some(
            Authority {
                id: le_value(bs.subrange(0, 8)) as u64,
                weight: le_value(bs.subrange(8, 16)) as u64,
            },
        )
    } else {
        None
    }
}

/// The `n` authorities a canonical byte string denotes, if it is exactly
/// their concatenation.
pub open spec fn authorities_of_bytes(bs: Seq<u8>, n: nat) -> Option<Seq<Authority>>
    decreases n,
{
    if n == 0 {
        if bs.len() == 0 {
            Some(Seq::empty())
        } else {
            None
        }
    } else if bs.len() < 16 {
        None
    } else {
        let split = bs.len() - 16;
        match (authorities_of_bytes(bs.take(split as int), (n - 1) as nat), authority_of_bytes(
            bs.skip(split as int),
        )) {
            (Some(rest), Some(a)) => Some(rest.push(a)),
            _ => None,
        }
    }
}

/// The authority set a canonical byte string denotes, if any.
pub open spec fn authority_set_of_bytes(bs: Seq<u8>) -> Option<AuthoritySetModel> {
    if bs.len() >= 16 {
        match authorities_of_bytes(bs.skip(16), le_value(bs.subrange(8, 16))) {
            Some(authorities) => Some(
                AuthoritySetModel { set_id: le_value(bs.take(8)) as u64, authorities },
            ),
            None => None,
        }
    } else {
        None
    }
}

pub proof fn lemma_authorities_bytes_len(s: Seq<Authority>)
    ensures
        authorities_bytes(s).len() == 16 * s.len(),
    decreases s.len(),
{
    if s.len() > 0 {
        lemma_authorities_bytes_len(s.drop_last());
        lemma_le_bytes_len(s.last().id as nat, 8);
        lemma_le_bytes_len(s.last().weight as nat, 8);
    }
}

/// Decoding the canonical bytes of one authority gives it back.
pub proof fn lemma_authority_round_trip(a: Authority)
    ensures
        authority_of_bytes(authority_bytes(a)) == Some(a),
{
    let bs = authority_bytes(a);
    lemma_le_bytes_len(a.id as nat, 8);
    lemma_le_bytes_len(a.weight as nat, 8);
    assert(bs.subrange(0, 8) =~= u64_le(a.id));
    assert(bs.subrange(8, 16) =~= u64_le(a.weight));
    lemma_pow256_values();
    lemma_le_round_trip(a.id as nat, 8);
    lemma_le_round_trip(a.weight as nat, 8);
}

/// Decoding the concatenated bytes of an authority sequence gives it back.
pub proof fn lemma_authorities_round_trip(s: Seq<Authority>)
    ensures
        authorities_of_bytes(authorities_bytes(s), s.len()) == Some(s),
    decreases s.len(),
{
    if s.len() == 0 {
        assert(authorities_of_bytes(authorities_bytes(s), 0) =~= Some(Seq::<Authority>::empty()));
        assert(Seq::<Authority>::empty() =~= s);
    } else {
        let bs = authorities_bytes(s);
        lemma_authorities_bytes_len(s);
        lemma_authorities_bytes_len(s.drop_last());
        lemma_le_bytes_len(s.last().id as nat, 8);
        lemma_le_bytes_len(s.last().weight as nat, 8);
        let split = bs.len() - 16;
        assert(bs.take(split as int) =~= authorities_bytes(s.drop_last()));
        assert(bs.skip(split as int) =~= authority_bytes(s.last()));
        lemma_authorities_round_trip(s.drop_last());
        lemma_authority_round_trip(s.last());
        assert(s.drop_last().push(s.last()) =~= s);
    }
}

/// Decoding the canonical bytes of an authority set gives it back;
/// in particular the encoding is injective.
pub proof fn lemma_authority_set_round_trip(m: AuthoritySetModel)
    requires
        m.authorities.len() < pow256(8),
    ensures
        authority_set_of_bytes(authority_set_bytes(m)) == Some(m),
{
    let bs = authority_set_bytes(m);
    lemma_pow256_values();
    lemma_le_bytes_len(m.set_id as nat, 8);
    lemma_le_bytes_len(m.authorities.len() as nat, 8);
    lemma_authorities_bytes_len(m.authorities);
    assert(bs.take(8) =~= u64_le(m.set_id));
    assert(bs.subrange(8, 16) =~= u64_le(m.authorities.len() as u64));
    assert(bs.skip(16) =~= authorities_bytes(m.authorities));
    lemma_le_round_trip(m.set_id as nat, 8);
    lemma_le_round_trip(m.authorities.len() as nat, 8);
    lemma_authorities_round_trip(m.authorities);
}

} // verus!
