//! The chain backend and the shared consensus containers.
//!
//! The backend answers header and auxiliary weight lookups against its
//! current state; the two shared containers guard live consensus data
//! and expose only a clone-on-read snapshot, so no reference outlives
//! the read. Synchronization around them is the host's affair: this
//! core only ever takes a deep copy.

use vstd::prelude::*;
use crate::types::{Authority, AuthoritySet, AuthoritySetModel, EpochChangeTree, EpochTransition, Header};

verus! {

/// The mathematical content of a backend: the hash the chain reports as
/// finalized, the headers it can serve, and the per-block weight entries.
pub ghost struct ChainBackendModel {
    pub finalized_hash: u64,
    pub headers: Seq<Header>,
    pub weights: Seq<(u64, u32)>,
}

/// The first stored header carrying the given block hash, if any.
pub open spec fn find_header(s: Seq<Header>, hash: u64) -> Option<Header>
    decreases s.len(),
{
    if s.len() == 0 {
        None
    } else if s[0].hash == hash {
        Some(s[0])
    } else {
        find_header(s.drop_first(), hash)
    }
}

/// The first stored weight entry keyed by the given block hash, if any.
pub open spec fn find_weight(s: Seq<(u64, u32)>, hash: u64) -> Option<u32>
    decreases s.len(),
{
    if s.len() == 0 {
        None
    } else if s[0].0 == hash {
        Some(s[0].1)
    } else {
        find_weight(s.drop_first(), hash)
    }
}

/// A found header carries the hash it was looked up by.
pub proof fn lemma_find_header_hash(s: Seq<Header>, hash: u64)
    ensures
        find_header(s, hash) matches Some(h) ==> h.hash == hash,
    decreases s.len(),
{
    if s.len() > 0 && s[0].hash != hash {
        lemma_find_header_hash(s.drop_first(), hash);
    }
}

proof fn lemma_find_header_skip(s: Seq<Header>, hash: u64, i: int)
    requires
        0 <= i <= s.len(),
        forall|j: int| 0 <= j < i ==> s[j].hash != hash,
    ensures
        find_header(s, hash) == find_header(s.skip(i), hash),
    decreases i,
{
    if i > 0 {
        assert(s.drop_first() =~= s.skip(1));
        assert(forall|j: int| 0 <= j < i - 1 ==> s.drop_first()[j].hash != hash);
        lemma_find_header_skip(s.drop_first(), hash, i - 1);
        assert(s.drop_first().skip(i - 1) =~= s.skip(i));
    } else {
        assert(s.skip(0) =~= s);
    }
}

proof fn lemma_find_weight_skip(s: Seq<(u64, u32)>, hash: u64, i: int)
    requires
        0 <= i <= s.len(),
        forall|j: int| 0 <= j < i ==> s[j].0 != hash,
    ensures
        find_weight(s, hash) == find_weight(s.skip(i), hash),
    decreases i,
{
    if i > 0 {
        assert(s.drop_first() =~= s.skip(1));
        assert(forall|j: int| 0 <= j < i - 1 ==> s.drop_first()[j].0 != hash);
        lemma_find_weight_skip(s.drop_first(), hash, i - 1);
        assert(s.drop_first().skip(i - 1) =~= s.skip(i));
    } else {
        assert(s.skip(0) =~= s);
    }
}

/// An in-memory chain backend: serves the finalized hash, headers by
/// hash, and the auxiliary weight entries the consensus scheme records
/// per block.
pub struct ChainBackend {
    finalized_hash: u64,
    headers: Vec<Header>,
    weights: Vec<(u64, u32)>,
}

impl View for ChainBackend {
    type V = ChainBackendModel;

    closed spec fn view(&self) -> ChainBackendModel {
        ChainBackendModel {
            finalized_hash: self.finalized_hash,
            headers: self.headers@,
            weights: self.weights@,
        }
    }
}

impl ChainBackend {
    /// An empty backend reporting the given hash as finalized.
    pub fn new(finalized_hash: u64) -> (r: Self)
        ensures
            r@ == (ChainBackendModel {
                finalized_hash,
                headers: Seq::empty(),
                weights: Seq::empty(),
            }),
    {
        let r = ChainBackend { finalized_hash, headers: Vec::new(), weights: Vec::new() };
        proof {
            assert(r@.headers =~= Seq::<Header>::empty());
            assert(r@.weights =~= Seq::<(u64, u32)>::empty());
        }
        r
    }

    /// Moves the finalized mark to the given hash.
    pub fn set_finalized_hash(&mut self, hash: u64)
        ensures
            final(self)@ == (ChainBackendModel { finalized_hash: hash, ..old(self)@ }),
    {
        self.finalized_hash = hash;
    }

    /// Stores a header, keyed by the hash it carries.
    pub fn add_header(&mut self, header: Header)
        ensures
            final(self)@ == (ChainBackendModel {
                headers: old(self)@.headers.push(header),
                ..old(self)@
            }),
    {
        self.headers.push(header);
    }

    /// Stores an auxiliary weight entry for the given block hash.
    pub fn add_block_weight(&mut self, hash: u64, weight: u32)
        ensures
            final(self)@ == (ChainBackendModel {
                weights: old(self)@.weights.push((hash, weight)),
                ..old(self)@
            }),
    {
        self.weights.push((hash, weight));
    }

    /// The hash the backend currently reports as finalized.
    pub fn finalized_hash(&self) -> (r: u64)
        ensures
            r == self@.finalized_hash,
    {
        self.finalized_hash
    }

    /// The header stored for the given hash, if any.
    pub fn header(&self, hash: u64) -> (r: Option<Header>)
        ensures
            r == find_header(self@.headers, hash),
    {
        let mut i: usize = 0;
        while i < self.headers.len()
            invariant
                0 <= i <= self.headers@.len(),
                forall|j: int| 0 <= j < i ==> self.headers@[j].hash != hash,
            decreases self.headers@.len() - i,
        {
            if self.headers[i].hash == hash {
                proof {
                    lemma_find_header_skip(self.headers@, hash, i as int);
                    assert(self.headers@.skip(i as int)[0] == self.headers@[i as int]);
                }
                return Some(self.headers[i]);
            }
            i = i + 1;
        }
        proof {
            lemma_find_header_skip(self.headers@, hash, i as int);
            assert(self.headers@.skip(i as int).len() == 0);
        }
        None
    }

    /// The auxiliary weight entry stored for the given hash, if any.
    pub fn block_weight(&self, hash: u64) -> (r: Option<u32>)
        ensures
            r == find_weight(self@.weights, hash),
    {
        let mut i: usize = 0;
        while i < self.weights.len()
            invariant
                0 <= i <= self.weights@.len(),
                forall|j: int| 0 <= j < i ==> self.weights@[j].0 != hash,
            decreases self.weights@.len() - i,
        {
            if self.weights[i].0 == hash {
                proof {
                    lemma_find_weight_skip(self.weights@, hash, i as int);
                    assert(self.weights@.skip(i as int)[0] == self.weights@[i as int]);
                }
                return Some(self.weights[i].1);
            }
            i = i + 1;
        }
        proof {
            lemma_find_weight_skip(self.weights@, hash, i as int);
            assert(self.weights@.skip(i as int).len() == 0);
        }
        None
    }
}

/// Copies a transition list element by element.
fn copy_transitions(v: &Vec<EpochTransition>) -> (r: Vec<EpochTransition>)
    ensures
        r@ == v@,
{
    let mut out: Vec<EpochTransition> = Vec::new();
    let mut i: usize = 0;
    while i < v.len()
        invariant
            0 <= i <= v@.len(),
            out@ == v@.take(i as int),
        decreases v@.len() - i,
    {
        out.push(v[i]);
        proof {
            assert(v@.take(i + 1) =~= v@.take(i as int).push(v@[i as int]));
        }
        i = i + 1;
    }
    proof {
        assert(v@.take(v@.len() as int) =~= v@);
    }
    out
}

/// Copies an authority list element by element.
fn copy_authorities(v: &Vec<Authority>) -> (r: Vec<Authority>)
    ensures
        r@ == v@,
{
    let mut out: Vec<Authority> = Vec::new();
    let mut i: usize = 0;
    while i < v.len()
        invariant
            0 <= i <= v@.len(),
            out@ == v@.take(i as int),
        decreases v@.len() - i,
    {
        out.push(v[i]);
        proof {
            assert(v@.take(i + 1) =~= v@.take(i as int).push(v@[i as int]));
        }
        i = i + 1;
    }
    proof {
        assert(v@.take(v@.len() as int) =~= v@);
    }
    out
}

/// The shared container guarding the live epoch-change tree. A reader
/// takes a brief acquisition and leaves with an independent deep copy.
pub struct SharedEpochChanges {
    inner: EpochChangeTree,
}

impl View for SharedEpochChanges {
    type V = Seq<EpochTransition>;

    closed spec fn view(&self) -> Seq<EpochTransition> {
        self.inner@
    }
}

impl SharedEpochChanges {
    /// Wraps a tree in the shared container.
    pub fn new(tree: EpochChangeTree) -> (r: Self)
        ensures
            r@ == tree@,
    {
        SharedEpochChanges { inner: tree }
    }

    /// A snapshot of the guarded tree: an independent deep copy.
    pub fn shared_data(&self) -> (r: EpochChangeTree)
        ensures
            r@ == self@,
    {
        EpochChangeTree { transitions: copy_transitions(&self.inner.transitions) }
    }
}

/// The shared container guarding the live authority set, with the same
/// clone-on-read discipline as the epoch-change container.
pub struct SharedAuthoritySet {
    inner: AuthoritySet,
}

impl View for SharedAuthoritySet {
    type V = AuthoritySetModel;

    closed spec fn view(&self) -> AuthoritySetModel {
        self.inner@
    }
}

impl SharedAuthoritySet {
    /// Wraps an authority set in the shared container.
    pub fn new(set: AuthoritySet) -> (r: Self)
        ensures
            r@ == set@,
    {
        SharedAuthoritySet { inner: set }
    }

    /// A snapshot of the guarded set: an independent deep copy.
    pub fn clone_inner(&self) -> (r: AuthoritySet)
        ensures
            r@ == self@,
    {
        AuthoritySet {
            set_id: self.inner.set_id,
            authorities: copy_authorities(&self.inner.authorities),
        }
    }
}

} // verus!
