//! The per-node chain state: our section's key set, elders, members and key history, and
//! what we know of other sections. It advances only on consensus events.
use vstd::prelude::*;
use crate::bytes::{bytes_eq, copy_bytes, seqs_of};
use crate::chain::{SectionKey, SectionProofChain, TrustStatus};
use crate::event::Event;
use crate::crypto::{set_public_key, set_public_key_of, bls_valid};
use crate::location::{Prefix, XorName};
use crate::member_info::{AgeCounter, MemberState};
use crate::variant::EldersInfo;

verus! {

/// An event agreed by the consensus engine, in the order it delivers them.
#[derive(Debug)]
pub enum ConsensusEvent {
    /// A new section key for `prefix`, waiting for its `SectionInfo`.
    OurKey { prefix: Prefix, key: SectionKey },
    /// The new elders, with the key set they hold, our share of it, and the signature by
    /// the current key over the new key.
    SectionInfo {
        elders_info: EldersInfo,
        key_signature: Vec<u8>,
        public_key_set: Vec<u8>,
        secret_key_share: Vec<u8>,
        key_index: u64,
    },
    /// A node joined our section.
    Online { name: XorName, age: u8 },
    /// A node left our section.
    Offline { name: XorName },
    /// The section at `prefix` has seen our chain up to key `knowledge`.
    TheirKnowledge { prefix: Prefix, knowledge: u64 },
    /// The consensus engine started a new version.
    ParsecPrune,
}

/// Why a consensus event could not be applied. The state is then unchanged.
#[derive(Clone, Copy, Debug, PartialEq, Eq, Structural)]
pub enum ChainError {
    /// A `SectionInfo` came with no `OurKey` before it.
    NoPendingKey,
    /// The key set of a `SectionInfo` does not decode, or its key is not the pending one.
    KeySetMismatch,
    /// The signature of the new key by the current key does not verify.
    InvalidKeySignature,
}

/// A member of our section.
#[derive(Debug)]
pub struct Member {
    pub name: XorName,
    pub age_counter: AgeCounter,
    pub state: MemberState,
}

/// The chain state of a node.
#[derive(Debug)]
pub struct ChainState {
    pub our_prefix: Prefix,
    pub elders: Vec<XorName>,
    pub members: Vec<Member>,
    /// The serialised public key set of our section.
    pub public_key_set: Vec<u8>,
    /// The main public key of `public_key_set`.
    pub public_key: SectionKey,
    pub secret_key_share: Vec<u8>,
    pub our_key_index: u64,
    /// Our section's keys since genesis.
    pub history: SectionProofChain,
    /// The latest key we trust for each other section.
    pub trusted_peer_keys: Vec<(Prefix, SectionKey)>,
    /// How far each other section has seen our chain.
    pub their_knowledge: Vec<(Prefix, u64)>,
    /// An agreed key waiting for its `SectionInfo`.
    pub pending_key: Option<(Prefix, SectionKey)>,
    /// Version of the consensus engine.
    pub parsec_version: u64,
}

/// Whether `a` is a prefix of `b`.
pub open spec fn is_prefix_of(a: Seq<Seq<u8>>, b: Seq<Seq<u8>>) -> bool {
    a.len() <= b.len() && b.subrange(0, a.len() as int) == a
}

impl ChainState {
    /// The history ends at the public key of the current key set.
    pub open spec fn wf(&self) -> bool {
        &&& self.history.wf()
        &&& self.history.last_key_view() == self.public_key@
        &&& set_public_key_of(self.public_key_set@) == Some(self.public_key@)
    }

    /// The pending key, as bytes.
    pub open spec fn pending_key_view(&self) -> Seq<u8> {
        match self.pending_key {
            Some(p) => p.1@,
            None => Seq::empty(),
        }
    }

    /// Starts the chain state of a genesis section: empty prefix, the genesis elders, and a
    /// history holding only the genesis key. `None` when the key set does not decode.
    pub fn genesis(elders: Vec<XorName>, public_key_set: Vec<u8>, secret_key_share: Vec<u8>, our_key_index: u64) -> (r: Option<Self>)
        ensures
            r is Some <==> set_public_key_of(public_key_set@) is Some,
            r matches Some(s) ==> s.wf() && s.history.keys_view() == seq![set_public_key_of(public_key_set@)->0]
                && s.our_prefix.bit_count == 0 && seqs_of(s.elders@) == seqs_of(elders@),
    {
        let public_key = match set_public_key(public_key_set.as_slice()) {
            Some(k) => k,
            None => return None,
        };
        let history = SectionProofChain::new(copy_bytes(public_key.as_slice()));
        Some(ChainState {
            our_prefix: Prefix::default_prefix(),
            elders,
            members: Vec::new(),
            public_key_set,
            public_key,
            secret_key_share,
            our_key_index,
            history,
            trusted_peer_keys: Vec::new(),
            their_knowledge: Vec::new(),
            pending_key: None,
            parsec_version: 0,
        })
    }

    /// The most recent key of our section.
    pub fn last_key(&self) -> (r: &SectionKey)
        requires
            self.wf(),
        ensures
            r@ == self.history.last_key_view(),
            r@ == self.public_key@,
    {
        self.history.last_key()
    }

    /// Applies a consensus event. Only a `SectionInfo` grows the history: the pending key is
    /// pushed with its signature by the current key, and elders, key set and key share are
    /// replaced together. On an error the state is unchanged.
    /// Returns the event for the user, if there is one: the new elders after a
    /// `SectionInfo`, a joined or a left member.
    pub fn apply(&mut self, event: ConsensusEvent) -> (r: Result<Option<Event>, ChainError>)
        requires
            old(self).wf(),
        ensures
            final(self).wf(),
            is_prefix_of(old(self).history.keys_view(), final(self).history.keys_view()),
            r is Err ==> final(self).history.keys_view() == old(self).history.keys_view()
                && final(self).public_key@ == old(self).public_key@,
            event is SectionInfo && r is Ok ==> final(self).history.keys_view().len() == old(self).history.keys_view().len() + 1,
            !(event is SectionInfo) ==> r is Ok && final(self).history.keys_view() == old(self).history.keys_view(),
            event matches ConsensusEvent::SectionInfo { key_signature, public_key_set, .. } ==> (r is Ok <==> ({
                &&& old(self).pending_key is Some
                &&& set_public_key_of(public_key_set@) == Some(old(self).pending_key_view())
                &&& bls_valid(old(self).public_key@, key_signature@, old(self).pending_key_view())
            })),
            (event is SectionInfo && r is Ok) ==> (r matches Ok(Some(Event::EldersChanged { key, .. }))
                && key@ == final(self).public_key@),
            event matches ConsensusEvent::Online { name, age } ==> (r matches Ok(Some(Event::MemberJoined { name: n, age: a }))
                && n@ == name@ && a == age),
            event is Offline ==> (r matches Ok(e) && (e is None || (e matches Some(Event::MemberLeft { .. })))),
            event is OurKey || event is TheirKnowledge || event is ParsecPrune ==> r matches Ok(None),
            event is ParsecPrune && old(self).parsec_version < u64::MAX ==> final(self).parsec_version == old(self).parsec_version + 1,
            event matches ConsensusEvent::OurKey { key, .. } ==> final(self).pending_key_view() == key@,
            event matches ConsensusEvent::SectionInfo { elders_info, public_key_set, secret_key_share, key_index, .. } ==> (r is Ok ==> ({
                &&& final(self).elders == elders_info.elders
                &&& final(self).our_prefix == elders_info.prefix
                &&& final(self).public_key_set == public_key_set
                &&& final(self).secret_key_share == secret_key_share
                &&& final(self).our_key_index == key_index
            })),
            event matches ConsensusEvent::Online { name, age } ==> (find_member(final(self).members@, name@) matches Some(i)
                && final(self).members@[i].state == MemberState::Joined
                && final(self).members@[i].age_counter.0 == AgeCounter::from_age_spec(age)),
            event matches ConsensusEvent::Offline { name } ==> (match find_member(old(self).members@, name@) {
                Some(i) => final(self).members@[i].state == MemberState::Left
                    && final(self).members@[i].name@ == name@
                    && (r matches Ok(Some(Event::MemberLeft { age, .. })) && age as nat == old(self).members@[i].age_counter.age_spec()),
                None => (r matches Ok(None)) && final(self).members == old(self).members,
            }),
            event matches ConsensusEvent::TheirKnowledge { prefix, knowledge } ==> knowledge_spec(final(self).their_knowledge@, prefix)
                == if knowledge_spec(old(self).their_knowledge@, prefix) < knowledge { knowledge } else { knowledge_spec(old(self).their_knowledge@, prefix) },
    {
        let ghost h0 = self.history.keys_view();
        proof {
            assert(h0.subrange(0, h0.len() as int) =~= h0);
        }
        match event {
            ConsensusEvent::OurKey { prefix, key } => {
                self.pending_key = Some((prefix, key));
                Ok(None)
            },
            ConsensusEvent::SectionInfo { elders_info, key_signature, public_key_set, secret_key_share, key_index } => {
                let (prefix, key) = match self.pending_key.take() {
                    Some(p) => p,
                    None => return Err(ChainError::NoPendingKey),
                };
                let set_key = match set_public_key(public_key_set.as_slice()) {
                    Some(k) => k,
                    None => {
                        self.pending_key = Some((prefix, key));
                        return Err(ChainError::KeySetMismatch);
                    },
                };
                if !bytes_eq(set_key.as_slice(), key.as_slice()) {
                    self.pending_key = Some((prefix, key));
                    return Err(ChainError::KeySetMismatch);
                }
                let pushed = self.history.push(copy_bytes(key.as_slice()), key_signature);
                if !pushed {
                    self.pending_key = Some((prefix, key));
                    return Err(ChainError::InvalidKeySignature);
                }
                proof {
                    assert(self.history.keys_view().subrange(0, h0.len() as int) =~= h0);
                }
                let EldersInfo { prefix: info_prefix, elders } = elders_info;
                let changed = Event::EldersChanged {
                    prefix: info_prefix.duplicate(),
                    key: copy_bytes(set_key.as_slice()),
                    elders: crate::bytes::copy_range(&elders, 0, elders.len()),
                };
                self.our_prefix = info_prefix;
                self.elders = elders;
                self.public_key_set = public_key_set;
                self.public_key = set_key;
                self.secret_key_share = secret_key_share;
                self.our_key_index = key_index;
                Ok(Some(changed))
            },
            ConsensusEvent::Online { name, age } => {
                let joined = Event::MemberJoined { name: copy_bytes(name.as_slice()), age };
                self.add_member(name, age);
                Ok(Some(joined))
            },
            ConsensusEvent::Offline { name } => {
                match self.remove_member(name.as_slice()) {
                    Some(age) => Ok(Some(Event::MemberLeft { name, age })),
                    None => Ok(None),
                }
            },
            ConsensusEvent::TheirKnowledge { prefix, knowledge } => {
                self.update_their_knowledge(prefix, knowledge);
                Ok(None)
            },
            ConsensusEvent::ParsecPrune => {
                if self.parsec_version < u64::MAX {
                    self.parsec_version = self.parsec_version + 1;
                }
                Ok(None)
            },
        }
    }

    /// Adds a joined member, or marks an existing one as joined with the given age.
    fn add_member(&mut self, name: XorName, age: u8)
        ensures
            final(self).history == old(self).history,
            final(self).public_key == old(self).public_key,
            final(self).public_key_set == old(self).public_key_set,
            find_member(final(self).members@, name@) matches Some(i) && final(self).members@[i].state == MemberState::Joined
                && final(self).members@[i].age_counter.0 == AgeCounter::from_age_spec(age),
    {
        let ghost nv = name@;
        match self.member_index(name.as_slice()) {
            Some(i) => {
                proof {
                    lemma_find_member_some(self.members@, nv);
                }
                let m = Member { name, age_counter: AgeCounter::from_age(age), state: MemberState::Joined };
                let ghost m0 = self.members@;
                self.members.set(i, m);
                proof {
                    assert forall|j: int| 0 <= j < i implies self.members@[j].name@ != nv by {
                        assert(self.members@[j] == m0[j]);
                    }
                    lemma_find_member_at(self.members@, nv, i as int);
                }
            },
            None => {
                let ghost m0 = self.members@;
                self.members.push(Member { name, age_counter: AgeCounter::from_age(age), state: MemberState::Joined });
                proof {
                    assert forall|j: int| 0 <= j < m0.len() implies self.members@[j].name@ != nv by {
                        assert(self.members@[j] == m0[j]);
                    }
                    lemma_find_member_at(self.members@, nv, m0.len() as int);
                }
            },
        }
    }

    /// Returns the index of the first member named `name`.
    fn member_index(&self, name: &[u8]) -> (r: Option<usize>)
        ensures
            r matches Some(i) ==> find_member(self.members@, name@) == Some(i as int),
            r is None ==> find_member(self.members@, name@) is None,
    {
        let mut i: usize = 0;
        while i < self.members.len()
            invariant
                i <= self.members@.len(),
                forall|j: int| 0 <= j < i ==> self.members@[j].name@ != name@,
            decreases self.members@.len() - i,
        {
            if bytes_eq(self.members[i].name.as_slice(), name) {
                proof {
                    lemma_find_member_at(self.members@, name@, i as int);
                }
                return Some(i);
            }
            i = i + 1;
        }
        None
    }

    /// Marks the first member named `name` as left; returns its age if there is one.
    fn remove_member(&mut self, name: &[u8]) -> (r: Option<u8>)
        ensures
            final(self).history == old(self).history,
            final(self).public_key == old(self).public_key,
            final(self).public_key_set == old(self).public_key_set,
            match find_member(old(self).members@, name@) {
                Some(i) => final(self).members@[i].state == MemberState::Left && final(self).members@[i].name@ == name@
                    && (r matches Some(age) && age as nat == old(self).members@[i].age_counter.age_spec()),
                None => r is None && final(self).members == old(self).members,
            },
    {
        match self.member_index(name) {
            Some(i) => {
                proof {
                    lemma_find_member_some(self.members@, name@);
                }
                let age_counter = self.members[i].age_counter;
                let n = copy_bytes(self.members[i].name.as_slice());
                self.members.set(i, Member { name: n, age_counter, state: MemberState::Left });
                Some(age_counter.age())
            },
            None => None,
        }
    }

    /// Returns the index of the first entry of `their_knowledge` for `prefix`.
    fn knowledge_index(&self, prefix: &Prefix) -> (r: Option<usize>)
        ensures
            r matches Some(i) ==> find_known(self.their_knowledge@, *prefix) == Some(i as int),
            r is None ==> find_known(self.their_knowledge@, *prefix) is None,
    {
        let mut i: usize = 0;
        while i < self.their_knowledge.len()
            invariant
                i <= self.their_knowledge@.len(),
                forall|j: int| 0 <= j < i ==> !same_prefix(self.their_knowledge@[j].0, *prefix),
            decreases self.their_knowledge@.len() - i,
        {
            if prefix_eq(&self.their_knowledge[i].0, prefix) {
                proof {
                    lemma_find_known_at(self.their_knowledge@, *prefix, i as int);
                }
                return Some(i);
            }
            i = i + 1;
        }
        None
    }

    /// Records how far the section at `prefix` has seen our chain; the record only grows.
    fn update_their_knowledge(&mut self, prefix: Prefix, knowledge: u64)
        ensures
            final(self).history == old(self).history,
            final(self).public_key == old(self).public_key,
            final(self).public_key_set == old(self).public_key_set,
            knowledge_spec(final(self).their_knowledge@, prefix) == if knowledge_spec(old(self).their_knowledge@, prefix) < knowledge {
                knowledge
            } else {
                knowledge_spec(old(self).their_knowledge@, prefix)
            },
    {
        let ghost pv = prefix;
        let ghost k0 = self.their_knowledge@;
        match self.knowledge_index(&prefix) {
            Some(i) => {
                proof {
                    lemma_find_known_some(k0, pv);
                }
                if self.their_knowledge[i].1 < knowledge {
                    self.their_knowledge.set(i, (prefix, knowledge));
                    proof {
                        assert forall|j: int| 0 <= j < i implies !same_prefix(self.their_knowledge@[j].0, pv) by {
                            assert(self.their_knowledge@[j] == k0[j]);
                        }
                        lemma_find_known_at(self.their_knowledge@, pv, i as int);
                    }
                }
            },
            None => {
                self.their_knowledge.push((prefix, knowledge));
                proof {
                    assert forall|j: int| 0 <= j < k0.len() implies !same_prefix(self.their_knowledge@[j].0, pv) by {
                        assert(self.their_knowledge@[j] == k0[j]);
                        if same_prefix(k0[j].0, pv) {
                            lemma_find_known_exists(k0, pv, j);
                        }
                    }
                    lemma_find_known_at(self.their_knowledge@, pv, k0.len() as int);
                }
            },
        }
    }

    /// How far the section at `prefix` has seen our chain: the first record for it, or 0.
    pub fn knowledge_of(&self, prefix: &Prefix) -> (r: u64)
        ensures
            r == knowledge_spec(self.their_knowledge@, *prefix),
    {
        match self.knowledge_index(prefix) {
            Some(i) => {
                proof {
                    lemma_find_known_some(self.their_knowledge@, *prefix);
                }
                self.their_knowledge[i].1
            },
            None => 0,
        }
    }

    /// The proof chain to attach to a message for the section at `prefix`: our history from
    /// the last key that section has seen, or from our last key when it has seen further.
    pub fn proof_chain_for(&self, prefix: &Prefix) -> (r: SectionProofChain)
        requires
            self.wf(),
        ensures
            r.wf(),
            r.last_key_view() == self.public_key@,
            ({
                let n = self.history.keys_view().len();
                let k = knowledge_spec(self.their_knowledge@, *prefix);
                let from = if (k as int) < n { k as int } else { n - 1 };
                &&& r.keys_view() == self.history.keys_view().subrange(from, n as int)
                &&& r.sigs_view() == self.history.sigs_view().subrange(from, self.history.sigs_view().len() as int)
            }),
    {
        let k = self.knowledge_of(prefix);
        let n = self.history.len();
        let from: usize = if k < n as u64 { k as usize } else { n - 1 };
        let r = self.history.slice(from);
        assert(r.keys_view().last() == self.history.keys_view().last());
        r
    }

    /// Returns the index of the first trusted key for `prefix`.
    fn trusted_index(&self, prefix: &Prefix) -> (r: Option<usize>)
        ensures
            r matches Some(i) ==> find_known(self.trusted_peer_keys@, *prefix) == Some(i as int),
            r is None ==> find_known(self.trusted_peer_keys@, *prefix) is None,
    {
        let mut i: usize = 0;
        while i < self.trusted_peer_keys.len()
            invariant
                i <= self.trusted_peer_keys@.len(),
                forall|j: int| 0 <= j < i ==> !same_prefix(self.trusted_peer_keys@[j].0, *prefix),
            decreases self.trusted_peer_keys@.len() - i,
        {
            if prefix_eq(&self.trusted_peer_keys[i].0, prefix) {
                proof {
                    lemma_find_known_at(self.trusted_peer_keys@, *prefix, i as int);
                }
                return Some(i);
            }
            i = i + 1;
        }
        None
    }

    /// Trusts a newer key of the section at `prefix` when `chain` links it to the key we
    /// trust for that section: the first entry for `prefix` moves to the chain's last key
    /// when the chain is trusted from that entry's key. Returns whether it moved.
    pub fn update_trusted_key(&mut self, prefix: &Prefix, chain: &SectionProofChain) -> (r: bool)
        requires
            old(self).wf(),
            chain.wf(),
        ensures
            final(self).wf(),
            final(self).history == old(self).history,
            final(self).public_key == old(self).public_key,
            match find_known(old(self).trusted_peer_keys@, *prefix) {
                Some(i) => if chain.trust_view(seq![old(self).trusted_peer_keys@[i].1@]) == TrustStatus::Trusted {
                    &&& r
                    &&& final(self).trusted_peer_keys@.len() == old(self).trusted_peer_keys@.len()
                    &&& final(self).trusted_peer_keys@[i].1@ == chain.last_key_view()
                    &&& same_prefix(final(self).trusted_peer_keys@[i].0, *prefix)
                    &&& forall|j: int| 0 <= j < final(self).trusted_peer_keys@.len() && j != i
                        ==> final(self).trusted_peer_keys@[j] == old(self).trusted_peer_keys@[j]
                } else {
                    !r && final(self).trusted_peer_keys@ == old(self).trusted_peer_keys@
                },
                None => !r && final(self).trusted_peer_keys@ == old(self).trusted_peer_keys@,
            },
    {
        match self.trusted_index(prefix) {
            Some(i) => {
                proof {
                    lemma_find_known_some(self.trusted_peer_keys@, *prefix);
                }
                let mut current: Vec<SectionKey> = Vec::new();
                current.push(copy_bytes(self.trusted_peer_keys[i].1.as_slice()));
                assert(seqs_of(current@) =~= seq![old(self).trusted_peer_keys@[i as int].1@]);
                if chain.check_trust(&current) == TrustStatus::Trusted {
                    let p = self.trusted_peer_keys[i].0.duplicate();
                    let lk = copy_bytes(chain.last_key().as_slice());
                    self.trusted_peer_keys.set(i, (p, lk));
                    true
                } else {
                    false
                }
            },
            None => false,
        }
    }

    /// Starts trusting `key` for the section at `prefix`, if we trust none for it yet.
    pub fn add_trusted_key(&mut self, prefix: Prefix, key: SectionKey)
        requires
            old(self).wf(),
        ensures
            final(self).wf(),
            final(self).history == old(self).history,
            find_known(old(self).trusted_peer_keys@, prefix) is None ==> final(self).trusted_peer_keys@ == old(self).trusted_peer_keys@.push((prefix, key)),
            find_known(old(self).trusted_peer_keys@, prefix) is Some ==> final(self).trusted_peer_keys@ == old(self).trusted_peer_keys@,
    {
        match self.trusted_index(&prefix) {
            Some(_) => {},
            None => self.trusted_peer_keys.push((prefix, key)),
        }
    }
}

/// Whether two prefixes are equal: same length and same name bytes.
pub open spec fn same_prefix(a: Prefix, b: Prefix) -> bool {
    a.bit_count == b.bit_count && a.name@ == b.name@
}

/// Returns whether two prefixes are equal.
pub fn prefix_eq(a: &Prefix, b: &Prefix) -> (r: bool)
    ensures
        r == same_prefix(*a, *b),
{
    a.bit_count == b.bit_count && bytes_eq(a.name.as_slice(), b.name.as_slice())
}

/// The index of the first entry of `list` for prefix `p`.
pub open spec fn find_known<T>(list: Seq<(Prefix, T)>, p: Prefix) -> Option<int> {
    if exists|i: int| 0 <= i < list.len() && same_prefix(list[i].0, p) {
        Some(choose|i: int| 0 <= i < list.len() && same_prefix(list[i].0, p)
            && forall|j: int| 0 <= j < i ==> !same_prefix(list[j].0, p))
    } else {
        None
    }
}

/// The recorded knowledge of the section at `p`: the first record for it, or 0.
pub open spec fn knowledge_spec(list: Seq<(Prefix, u64)>, p: Prefix) -> u64 {
    match find_known(list, p) {
        Some(i) => list[i].1,
        None => 0,
    }
}

/// The index of the first member named `name`.
pub open spec fn find_member(members: Seq<Member>, name: Seq<u8>) -> Option<int> {
    if exists|i: int| 0 <= i < members.len() && members[i].name@ == name {
        Some(choose|i: int| 0 <= i < members.len() && members[i].name@ == name
            && forall|j: int| 0 <= j < i ==> members[j].name@ != name)
    } else {
        None
    }
}

proof fn lemma_find_known_exists<T>(list: Seq<(Prefix, T)>, p: Prefix, w: int)
    requires
        0 <= w < list.len(),
        same_prefix(list[w].0, p),
    ensures
        exists|i: int| 0 <= i < list.len() && same_prefix(list[i].0, p) && forall|j: int| 0 <= j < i ==> !same_prefix(list[j].0, p),
    decreases w,
{
    if exists|j: int| 0 <= j < w && same_prefix(list[j].0, p) {
        let j = choose|j: int| 0 <= j < w && same_prefix(list[j].0, p);
        lemma_find_known_exists(list, p, j);
    } else {
        assert(forall|j: int| 0 <= j < w ==> !same_prefix(list[j].0, p));
    }
}

proof fn lemma_find_known_some<T>(list: Seq<(Prefix, T)>, p: Prefix)
    requires
        find_known(list, p) is Some,
    ensures
        ({
            let i = find_known(list, p)->0;
            0 <= i < list.len() && same_prefix(list[i].0, p) && forall|j: int| 0 <= j < i ==> !same_prefix(list[j].0, p)
        }),
{
    let w = choose|i: int| 0 <= i < list.len() && same_prefix(list[i].0, p);
    lemma_find_known_exists(list, p, w);
}

proof fn lemma_find_known_at<T>(list: Seq<(Prefix, T)>, p: Prefix, i: int)
    requires
        0 <= i < list.len(),
        same_prefix(list[i].0, p),
        forall|j: int| 0 <= j < i ==> !same_prefix(list[j].0, p),
    ensures
        find_known(list, p) == Some(i),
{
    lemma_find_known_some(list, p);
    let f = find_known(list, p)->0;
    assert(!(f < i));
    assert(!(i < f));
}

proof fn lemma_find_member_exists(members: Seq<Member>, name: Seq<u8>, w: int)
    requires
        0 <= w < members.len(),
        members[w].name@ == name,
    ensures
        exists|i: int| 0 <= i < members.len() && members[i].name@ == name && forall|j: int| 0 <= j < i ==> members[j].name@ != name,
    decreases w,
{
    if exists|j: int| 0 <= j < w && members[j].name@ == name {
        let j = choose|j: int| 0 <= j < w && members[j].name@ == name;
        lemma_find_member_exists(members, name, j);
    } else {
        assert(forall|j: int| 0 <= j < w ==> members[j].name@ != name);
    }
}

proof fn lemma_find_member_some(members: Seq<Member>, name: Seq<u8>)
    requires
        find_member(members, name) is Some,
    ensures
        ({
            let i = find_member(members, name)->0;
            0 <= i < members.len() && members[i].name@ == name && forall|j: int| 0 <= j < i ==> members[j].name@ != name
        }),
{
    let w = choose|i: int| 0 <= i < members.len() && members[i].name@ == name;
    lemma_find_member_exists(members, name, w);
}

proof fn lemma_find_member_at(members: Seq<Member>, name: Seq<u8>, i: int)
    requires
        0 <= i < members.len(),
        members[i].name@ == name,
        forall|j: int| 0 <= j < i ==> members[j].name@ != name,
    ensures
        find_member(members, name) == Some(i),
{
    lemma_find_member_some(members, name);
    let f = find_member(members, name)->0;
    assert(!(f < i));
    assert(!(i < f));
}

} // verus!
