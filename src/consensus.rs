//! A small gossip-based consensus engine that orders observations of a section: genesis,
//! membership changes and opaque payloads. Each node keeps the votes it has heard of and
//! the blocks agreed so far; gossip exchanges both, and a node decides the next block once
//! a supermajority of the current members voted for it.
use vstd::prelude::*;
use crate::is_quorum;

verus! {

/// The identifier of a peer.
#[derive(Clone, Copy, Debug, PartialEq, Eq, Structural, PartialOrd, Ord, Hash)]
pub struct PeerId(pub u64);

/// An opaque payload to agree on.
#[derive(Clone, Copy, Debug, PartialEq, Eq, Structural, PartialOrd, Ord, Hash)]
pub struct Payload(pub u64);

/// How many votes an opaque payload needs.
#[derive(Clone, Copy, Debug, PartialEq, Eq, Structural)]
pub enum ConsensusMode {
    /// A supermajority of the members.
    Supermajority,
    /// One member; each vote becomes its own block. Membership changes still need a
    /// supermajority.
    Single,
}

/// Errors of the consensus engine.
#[derive(Clone, Copy, Debug, PartialEq, Eq, Structural)]
pub enum ConsensusError {
    /// We already voted for this observation.
    DuplicateVote,
    /// The peer is not a member we gossip with.
    InvalidPeerState,
}

/// Something to agree on.
#[derive(Debug)]
pub enum Observation {
    /// The first block: the genesis group.
    Genesis { group: Vec<PeerId>, related_info: Vec<u8> },
    /// Add a peer to the section.
    Add { peer_id: PeerId, related_info: Vec<u8> },
    /// Remove a peer from the section.
    Remove { peer_id: PeerId, related_info: Vec<u8> },
    /// An opaque payload.
    OpaquePayload(Payload),
}

/// The fields of an observation, as one value.
pub type ObservationView = (u8, Seq<PeerId>, Seq<u8>, u64);

impl Observation {
    pub open spec fn view(&self) -> ObservationView {
        match self {
            Observation::Genesis { group, related_info } => (0u8, group@, related_info@, 0u64),
            Observation::Add { peer_id, related_info } => (1u8, Seq::empty(), related_info@, peer_id.0),
            Observation::Remove { peer_id, related_info } => (2u8, Seq::empty(), related_info@, peer_id.0),
            Observation::OpaquePayload(p) => (3u8, Seq::empty(), Seq::empty(), p.0),
        }
    }

    /// Returns a copy.
    pub fn duplicate(&self) -> (r: Observation)
        ensures
            r.view() == self.view(),
    {
        match self {
            Observation::Genesis { group, related_info } => Observation::Genesis {
                group: copy_peers(group),
                related_info: crate::bytes::copy_bytes(related_info.as_slice()),
            },
            Observation::Add { peer_id, related_info } => Observation::Add {
                peer_id: *peer_id,
                related_info: crate::bytes::copy_bytes(related_info.as_slice()),
            },
            Observation::Remove { peer_id, related_info } => Observation::Remove {
                peer_id: *peer_id,
                related_info: crate::bytes::copy_bytes(related_info.as_slice()),
            },
            Observation::OpaquePayload(p) => Observation::OpaquePayload(*p),
        }
    }

    /// Returns whether two observations are equal.
    pub fn same_as(&self, o: &Observation) -> (r: bool)
        ensures
            r == (self.view() == o.view()),
    {
        match (self, o) {
            (Observation::Genesis { group: g1, related_info: r1 }, Observation::Genesis { group: g2, related_info: r2 }) =>
                peers_eq(g1, g2) && crate::bytes::bytes_eq(r1.as_slice(), r2.as_slice()),
            (Observation::Add { peer_id: p1, related_info: r1 }, Observation::Add { peer_id: p2, related_info: r2 }) =>
                p1.0 == p2.0 && crate::bytes::bytes_eq(r1.as_slice(), r2.as_slice()),
            (Observation::Remove { peer_id: p1, related_info: r1 }, Observation::Remove { peer_id: p2, related_info: r2 }) =>
                p1.0 == p2.0 && crate::bytes::bytes_eq(r1.as_slice(), r2.as_slice()),
            (Observation::OpaquePayload(p1), Observation::OpaquePayload(p2)) => p1.0 == p2.0,
            _ => false,
        }
    }
}

impl PartialEq for Observation {
    fn eq(&self, o: &Observation) -> (r: bool) {
        self.same_as(o)
    }
}

impl vstd::std_specs::cmp::PartialEqSpecImpl for Observation {
    open spec fn obeys_eq_spec() -> bool {
        true
    }

    open spec fn eq_spec(&self, o: &Observation) -> bool {
        self.view() == o.view()
    }
}

/// Returns a copy of a list of peers.
pub fn copy_peers(v: &Vec<PeerId>) -> (r: Vec<PeerId>)
    ensures
        r@ == v@,
{
    let mut r: Vec<PeerId> = Vec::new();
    let mut i: usize = 0;
    while i < v.len()
        invariant
            i <= v@.len(),
            r@ == v@.subrange(0, i as int),
        decreases v@.len() - i,
    {
        r.push(v[i]);
        i = i + 1;
        assert(r@ =~= v@.subrange(0, i as int));
    }
    assert(v@.subrange(0, v@.len() as int) =~= v@);
    r
}

/// Returns whether two lists of peers are equal.
pub fn peers_eq(a: &Vec<PeerId>, b: &Vec<PeerId>) -> (r: bool)
    ensures
        r == (a@ == b@),
{
    if a.len() != b.len() {
        return false;
    }
    let mut i: usize = 0;
    while i < a.len()
        invariant
            a@.len() == b@.len(),
            i <= a@.len(),
            forall|j: int| 0 <= j < i ==> a@[j] == b@[j],
        decreases a@.len() - i,
    {
        if a[i].0 != b[i].0 {
            return false;
        }
        i = i + 1;
    }
    assert(a@ =~= b@);
    true
}

/// Returns whether `p` is in `v`.
pub fn contains_peer(v: &Vec<PeerId>, p: PeerId) -> (r: bool)
    ensures
        r == v@.contains(p),
{
    let mut i: usize = 0;
    while i < v.len()
        invariant
            i <= v@.len(),
            forall|j: int| 0 <= j < i ==> v@[j] != p,
        decreases v@.len() - i,
    {
        if v[i].0 == p.0 {
            assert(v@[i as int] == p);
            return true;
        }
        i = i + 1;
    }
    false
}

/// An agreed observation. In single mode an opaque payload's block names its voter.
#[derive(Debug)]
pub struct Block {
    pub payload: Observation,
    pub voter: Option<PeerId>,
}

/// The fields of a block, as one value.
pub type BlockView = (ObservationView, Option<PeerId>);

impl Block {
    pub open spec fn view(&self) -> BlockView {
        (self.payload.view(), self.voter)
    }

    /// The agreed observation.
    pub fn payload(&self) -> (r: &Observation)
        ensures
            r == self.payload,
    {
        &self.payload
    }

    /// Returns a copy.
    pub fn duplicate(&self) -> (r: Block)
        ensures
            r.view() == self.view(),
    {
        Block { payload: self.payload.duplicate(), voter: self.voter }
    }

    /// Returns whether two blocks are equal.
    pub fn same_as(&self, o: &Block) -> (r: bool)
        ensures
            r == (self.view() == o.view()),
    {
        let v = match (self.voter, o.voter) {
            (Some(a), Some(b)) => a.0 == b.0,
            (None, None) => true,
            _ => false,
        };
        v && self.payload.same_as(&o.payload)
    }
}

impl PartialEq for Block {
    fn eq(&self, o: &Block) -> (r: bool) {
        self.same_as(o)
    }
}

impl vstd::std_specs::cmp::PartialEqSpecImpl for Block {
    open spec fn obeys_eq_spec() -> bool {
        true
    }

    open spec fn eq_spec(&self, o: &Block) -> bool {
        self.view() == o.view()
    }
}

/// A vote of a peer for an observation.
#[derive(Debug)]
pub struct Vote {
    pub voter: PeerId,
    pub observation: Observation,
}

impl Vote {
    pub open spec fn view(&self) -> (PeerId, ObservationView) {
        (self.voter, self.observation.view())
    }

    pub fn duplicate(&self) -> (r: Vote)
        ensures
            r.view() == self.view(),
    {
        Vote { voter: self.voter, observation: self.observation.duplicate() }
    }
}

/// What one node knows: the votes it heard of and the blocks agreed so far.
#[derive(Debug)]
pub struct Knowledge {
    pub votes: Vec<Vote>,
    pub blocks: Vec<Block>,
}

/// A gossip request.
#[derive(Debug)]
pub struct Request(pub Knowledge);

/// A gossip response.
#[derive(Debug)]
pub struct Response(pub Knowledge);

/// The view of a list of blocks.
pub open spec fn blocks_view(b: Seq<Block>) -> Seq<BlockView> {
    b.map_values(|x: Block| x.view())
}

/// The view of a list of votes.
pub open spec fn votes_view(v: Seq<Vote>) -> Seq<(PeerId, ObservationView)> {
    v.map_values(|x: Vote| x.view())
}

/// Copies a list of blocks.
fn copy_blocks(b: &Vec<Block>) -> (r: Vec<Block>)
    ensures
        blocks_view(r@) == blocks_view(b@),
{
    let mut r: Vec<Block> = Vec::new();
    let mut i: usize = 0;
    while i < b.len()
        invariant
            i <= b@.len(),
            blocks_view(r@) =~= blocks_view(b@).subrange(0, i as int),
        decreases b@.len() - i,
    {
        let ghost before = r@;
        let x = b[i].duplicate();
        r.push(x);
        assert(blocks_view(r@) =~= blocks_view(before).push(b@[i as int].view()));
        i = i + 1;
    }
    assert(blocks_view(b@).subrange(0, b@.len() as int) =~= blocks_view(b@));
    r
}

/// Copies a list of votes.
fn copy_votes(v: &Vec<Vote>) -> (r: Vec<Vote>)
    ensures
        votes_view(r@) == votes_view(v@),
{
    let mut r: Vec<Vote> = Vec::new();
    let mut i: usize = 0;
    while i < v.len()
        invariant
            i <= v@.len(),
            votes_view(r@) =~= votes_view(v@).subrange(0, i as int),
        decreases v@.len() - i,
    {
        let ghost before = r@;
        let x = v[i].duplicate();
        r.push(x);
        assert(votes_view(r@) =~= votes_view(before).push(v@[i as int].view()));
        i = i + 1;
    }
    assert(votes_view(v@).subrange(0, v@.len() as int) =~= votes_view(v@));
    r
}

/// Whether some vote of `votes` is for the observation `o`.
pub open spec fn voted(votes: Seq<Vote>, o: ObservationView) -> bool {
    exists|i: int| 0 <= i < votes.len() && #[trigger] votes[i].observation.view() == o
}

/// Whether `a` is a prefix of `b`.
pub open spec fn is_prefix<T>(a: Seq<T>, b: Seq<T>) -> bool {
    a.len() <= b.len() && b.subrange(0, a.len() as int) == a
}

/// A prefix of a prefix is a prefix.
pub proof fn lemma_prefix_trans<T>(a: Seq<T>, b: Seq<T>, c: Seq<T>)
    requires
        is_prefix(a, b),
        is_prefix(b, c),
    ensures
        is_prefix(a, c),
{
    assert(c.subrange(0, a.len() as int) =~= c.subrange(0, b.len() as int).subrange(0, a.len() as int));
}

/// Returns whether the blocks `a` are a prefix of the blocks `b`.
fn blocks_prefix(a: &Vec<Block>, b: &Vec<Block>) -> (r: bool)
    ensures
        r == is_prefix(blocks_view(a@), blocks_view(b@)),
{
    if a.len() > b.len() {
        return false;
    }
    let mut i: usize = 0;
    while i < a.len()
        invariant
            a@.len() <= b@.len(),
            i <= a@.len(),
            forall|j: int| 0 <= j < i ==> blocks_view(a@)[j] == blocks_view(b@)[j],
        decreases a@.len() - i,
    {
        if !a[i].same_as(&b[i]) {
            assert(blocks_view(a@)[i as int] != blocks_view(b@)[i as int]);
            assert(blocks_view(b@).subrange(0, a@.len() as int)[i as int] == blocks_view(b@)[i as int]);
            return false;
        }
        i = i + 1;
    }
    assert(blocks_view(b@).subrange(0, a@.len() as int) =~= blocks_view(a@));
    true
}

/// One node's consensus engine.
#[derive(Debug)]
pub struct Parsec {
    pub our_id: PeerId,
    pub mode: ConsensusMode,
    /// The members taken before any block is known.
    pub initial_members: Vec<PeerId>,
    pub votes: Vec<Vote>,
    pub blocks: Vec<Block>,
    pub first_unpolled: usize,
}

impl Parsec {
    /// The blocks not yet polled are within the agreed blocks.
    pub open spec fn wf(&self) -> bool {
        self.first_unpolled <= self.blocks@.len()
    }

    /// Starts the engine of a member of the genesis group; the genesis block is agreed.
    pub fn from_genesis(our_id: PeerId, genesis_group: &Vec<PeerId>, mode: ConsensusMode) -> (r: Parsec)
        ensures
            r.wf(),
            r.our_id == our_id,
            r.blocks@.len() == 1,
            r.blocks@[0].payload.view() == (0u8, genesis_group@, Seq::<u8>::empty(), 0u64),
            r.first_unpolled == 0,
            r.votes@.len() == 0,
    {
        let genesis = Block {
            payload: Observation::Genesis { group: copy_peers(genesis_group), related_info: Vec::new() },
            voter: None,
        };
        let mut blocks: Vec<Block> = Vec::new();
        blocks.push(genesis);
        assert(blocks@[0].payload.view().2 =~= Seq::<u8>::empty());
        Parsec { our_id, mode, initial_members: copy_peers(genesis_group), votes: Vec::new(), blocks, first_unpolled: 0 }
    }

    /// Starts the engine of a node joining an existing section; it learns the agreed
    /// blocks, genesis included, from gossip.
    pub fn from_existing(our_id: PeerId, genesis_group: &Vec<PeerId>, section: &Vec<PeerId>, mode: ConsensusMode) -> (r: Parsec)
        ensures
            r.wf(),
            r.our_id == our_id,
            r.blocks@.len() == 0,
            r.initial_members@ == section@,
    {
        let _ = genesis_group;
        Parsec { our_id, mode, initial_members: copy_peers(section), votes: Vec::new(), blocks: Vec::new(), first_unpolled: 0 }
    }

    /// Our identifier.
    pub fn our_pub_id(&self) -> (r: &PeerId)
        ensures
            *r == self.our_id,
    {
        &self.our_id
    }

    /// The current members: the initial ones until a block is known, then those of the
    /// genesis block with the agreed additions and removals applied in order.
    pub open spec fn members_spec(&self) -> Set<PeerId> {
        if self.blocks@.len() == 0 {
            self.initial_members@.to_set()
        } else {
            members_of(self.blocks@)
        }
    }

    /// Returns the current members.
    pub fn members(&self) -> (r: Vec<PeerId>)
        ensures
            forall|q: PeerId| r@.contains(q) <==> self.members_spec().contains(q),
    {
        if self.blocks.len() == 0 {
            let r = copy_peers(&self.initial_members);
            proof {
                assert forall|q: PeerId| r@.contains(q) <==> self.members_spec().contains(q) by {
                    if r@.contains(q) {
                        assert(self.initial_members@.to_set().contains(q));
                    }
                }
            }
            return r;
        }
        let mut m: Vec<PeerId> = Vec::new();
        let mut i: usize = 0;
        while i < self.blocks.len()
            invariant
                i <= self.blocks@.len(),
                forall|q: PeerId| m@.contains(q) <==> members_of(self.blocks@.subrange(0, i as int)).contains(q),
            decreases self.blocks@.len() - i,
        {
            let ghost s1 = self.blocks@.subrange(0, i + 1);
            let ghost prev = members_of(self.blocks@.subrange(0, i as int));
            proof {
                assert(s1.drop_last() =~= self.blocks@.subrange(0, i as int));
                assert(s1.last() == self.blocks@[i as int]);
            }
            match &self.blocks[i].payload {
                Observation::Genesis { group, .. } => {
                    m = copy_peers(group);
                    proof {
                        assert(members_of(s1) == group@.to_set());
                        assert forall|q: PeerId| m@.contains(q) <==> members_of(s1).contains(q) by {}
                    }
                },
                Observation::Add { peer_id, .. } => {
                    let ghost m0 = m@;
                    if !contains_peer(&m, *peer_id) {
                        m.push(*peer_id);
                        proof {
                            assert forall|q: PeerId| m@.contains(q) <==> (m0.contains(q) || q == *peer_id) by {
                                if m@.contains(q) {
                                    let k = choose|k: int| 0 <= k < m@.len() && m@[k] == q;
                                    if k < m0.len() {
                                        assert(m0[k] == q);
                                    }
                                }
                                if m0.contains(q) {
                                    let k = choose|k: int| 0 <= k < m0.len() && m0[k] == q;
                                    assert(m@[k] == q);
                                }
                                if q == *peer_id {
                                    assert(m@[m0.len() as int] == q);
                                }
                            }
                        }
                    }
                    proof {
                        assert(members_of(s1) == prev.insert(*peer_id));
                        assert(m0.contains(*peer_id) <==> prev.contains(*peer_id));
                        assert forall|q: PeerId| m@.contains(q) <==> members_of(s1).contains(q) by {
                            assert(m0.contains(q) <==> prev.contains(q));
                            assert(prev.insert(*peer_id).contains(q) <==> (prev.contains(q) || q == *peer_id));
                        }
                    }
                },
                Observation::Remove { peer_id, .. } => {
                    m = without_peer(&m, *peer_id);
                    proof {
                        assert(members_of(s1) == prev.remove(*peer_id));
                        assert forall|q: PeerId| m@.contains(q) <==> members_of(s1).contains(q) by {}
                    }
                },
                Observation::OpaquePayload(_) => {
                    proof {
                        assert(members_of(s1) == prev);
                    }
                },
            }
            i = i + 1;
        }
        proof {
            assert(self.blocks@.subrange(0, self.blocks@.len() as int) =~= self.blocks@);
        }
        m
    }

    /// The members we gossip with: all but us.
    pub fn gossip_recipients(&self) -> (r: Vec<PeerId>)
        ensures
            forall|q: PeerId| r@.contains(q) <==> (self.members_spec().contains(q) && q != self.our_id),
    {
        let m = self.members();
        without_peer(&m, self.our_id)
    }

    /// Votes for an observation. Voting twice for the same observation fails.
    pub fn vote_for(&mut self, observation: Observation) -> (r: Result<(), ConsensusError>)
        requires
            old(self).wf(),
        ensures
            final(self).wf(),
            final(self).blocks == old(self).blocks,
            final(self).first_unpolled == old(self).first_unpolled,
            r is Ok ==> votes_view(final(self).votes@) == votes_view(old(self).votes@).push((old(self).our_id, observation.view())),
            r is Err ==> final(self).votes == old(self).votes,
            r is Err <==> votes_view(old(self).votes@).contains((old(self).our_id, observation.view())),
    {
        let mut i: usize = 0;
        while i < self.votes.len()
            invariant
                self.wf(),
                self.blocks == old(self).blocks,
                self.first_unpolled == old(self).first_unpolled,
                self.votes == old(self).votes,
                self.our_id == old(self).our_id,
                i <= self.votes@.len(),
                forall|j: int| 0 <= j < i ==> votes_view(self.votes@)[j] != (self.our_id, observation.view()),
            decreases self.votes@.len() - i,
        {
            if self.votes[i].voter.0 == self.our_id.0 && self.votes[i].observation.same_as(&observation) {
                assert(votes_view(self.votes@)[i as int] == (self.our_id, observation.view()));
                return Err(ConsensusError::DuplicateVote);
            }
            i = i + 1;
        }
        let ghost before = self.votes@;
        let ghost ov = observation.view();
        self.votes.push(Vote { voter: self.our_id, observation });
        assert(votes_view(self.votes@) =~= votes_view(before).push((self.our_id, ov)));
        Ok(())
    }

    /// A copy of what we know, to gossip.
    fn knowledge(&self) -> (r: Knowledge)
        ensures
            votes_view(r.votes@) == votes_view(self.votes@),
            blocks_view(r.blocks@) == blocks_view(self.blocks@),
    {
        Knowledge { votes: copy_votes(&self.votes), blocks: copy_blocks(&self.blocks) }
    }

    /// Creates a gossip request for `peer`, which must be a member other than us.
    pub fn create_gossip(&self, peer: &PeerId) -> (r: Result<Request, ConsensusError>)
        ensures
            r is Ok <==> (self.members_spec().contains(*peer) && *peer != self.our_id),
            r matches Ok(req) ==> votes_view(req.0.votes@) == votes_view(self.votes@) && blocks_view(req.0.blocks@) == blocks_view(self.blocks@),
    {
        let recipients = self.gossip_recipients();
        if !contains_peer(&recipients, *peer) {
            return Err(ConsensusError::InvalidPeerState);
        }
        Ok(Request(self.knowledge()))
    }

    /// Handles a gossip request: learns what the sender knows, decides what it can, and
    /// answers with what it knows now.
    pub fn handle_request(&mut self, src: &PeerId, req: Request) -> (r: Result<Response, ConsensusError>)
        requires
            old(self).wf(),
        ensures
            final(self).wf(),
            final(self).first_unpolled == old(self).first_unpolled,
            is_prefix(blocks_view(old(self).blocks@), blocks_view(final(self).blocks@)),
            r matches Ok(resp) ==> blocks_view(resp.0.blocks@) == blocks_view(final(self).blocks@),
    {
        let _ = src;
        let ghost b0 = blocks_view(self.blocks@);
        self.merge(req.0);
        let ghost b1 = blocks_view(self.blocks@);
        self.compute_consensus();
        proof {
            lemma_prefix_trans(b0, b1, blocks_view(self.blocks@));
        }
        Ok(Response(self.knowledge()))
    }

    /// Handles a gossip response: learns what the sender knows and decides what it can.
    pub fn handle_response(&mut self, src: &PeerId, resp: Response) -> (r: Result<(), ConsensusError>)
        requires
            old(self).wf(),
        ensures
            final(self).wf(),
            final(self).first_unpolled == old(self).first_unpolled,
            is_prefix(blocks_view(old(self).blocks@), blocks_view(final(self).blocks@)),
    {
        let _ = src;
        let ghost b0 = blocks_view(self.blocks@);
        self.merge(resp.0);
        let ghost b1 = blocks_view(self.blocks@);
        self.compute_consensus();
        proof {
            lemma_prefix_trans(b0, b1, blocks_view(self.blocks@));
        }
        Ok(())
    }

    /// Returns the next agreed block not yet polled.
    pub fn poll(&mut self) -> (r: Option<Block>)
        requires
            old(self).wf(),
        ensures
            final(self).wf(),
            final(self).blocks == old(self).blocks,
            old(self).first_unpolled < old(self).blocks@.len() ==> (r matches Some(b)
                && b.view() == old(self).blocks@[old(self).first_unpolled as int].view()
                && final(self).first_unpolled == old(self).first_unpolled + 1),
            old(self).first_unpolled == old(self).blocks@.len() ==> r is None && final(self).first_unpolled == old(self).first_unpolled,
    {
        if self.first_unpolled < self.blocks.len() {
            let b = self.blocks[self.first_unpolled].duplicate();
            self.first_unpolled = self.first_unpolled + 1;
            Some(b)
        } else {
            None
        }
    }

    /// Learns another node's knowledge: its blocks when ours are a prefix of them, and
    /// the votes we had not heard of.
    fn merge(&mut self, other: Knowledge)
        requires
            old(self).wf(),
        ensures
            final(self).wf(),
            final(self).first_unpolled == old(self).first_unpolled,
            is_prefix(blocks_view(old(self).blocks@), blocks_view(final(self).blocks@)),
    {
        let Knowledge { votes, blocks } = other;
        if blocks.len() > self.blocks.len() && blocks_prefix(&self.blocks, &blocks) {
            self.blocks = blocks;
        } else {
            assert(blocks_view(self.blocks@).subrange(0, self.blocks@.len() as int) =~= blocks_view(self.blocks@));
        }
        let mut i: usize = 0;
        let ghost b1 = self.blocks;
        while i < votes.len()
            invariant
                self.wf(),
                self.blocks == b1,
                self.first_unpolled == old(self).first_unpolled,
                i <= votes@.len(),
            decreases votes@.len() - i,
        {
            if !self.knows_vote(&votes[i]) {
                let v = votes[i].duplicate();
                self.votes.push(v);
            }
            i = i + 1;
        }
    }

    /// Returns whether we know the vote `v`.
    fn knows_vote(&self, v: &Vote) -> (r: bool)
        ensures
            r == votes_view(self.votes@).contains(v.view()),
    {
        let mut i: usize = 0;
        while i < self.votes.len()
            invariant
                i <= self.votes@.len(),
                forall|j: int| 0 <= j < i ==> votes_view(self.votes@)[j] != v.view(),
            decreases self.votes@.len() - i,
        {
            if self.votes[i].voter.0 == v.voter.0 && self.votes[i].observation.same_as(&v.observation) {
                assert(votes_view(self.votes@)[i as int] == v.view());
                return true;
            }
            i = i + 1;
        }
        false
    }

    /// Returns whether a block agrees on `observation` with the given voter.
    fn is_decided(&self, observation: &Observation, voter: Option<PeerId>) -> (r: bool) {
        let mut i: usize = 0;
        while i < self.blocks.len()
            invariant
                i <= self.blocks@.len(),
            decreases self.blocks@.len() - i,
        {
            let same_voter = match (self.blocks[i].voter, voter) {
                (Some(a), Some(b)) => a.0 == b.0,
                (None, None) => true,
                _ => false,
            };
            if same_voter && self.blocks[i].payload.same_as(observation) {
                return true;
            }
            i = i + 1;
        }
        false
    }

    /// Counts the members that voted for `observation`.
    fn count_votes(&self, members: &Vec<PeerId>, observation: &Observation) -> (r: usize)
        ensures
            r <= members@.len(),
    {
        let mut n: usize = 0;
        let mut i: usize = 0;
        while i < members.len()
            invariant
                i <= members@.len(),
                n <= i,
            decreases members@.len() - i,
        {
            let mut j: usize = 0;
            let mut found = false;
            while j < self.votes.len() && !found
                invariant
                    i < members@.len(),
                    j <= self.votes@.len(),
                decreases self.votes@.len() - j,
            {
                if self.votes[j].voter.0 == members[i].0 && self.votes[j].observation.same_as(observation) {
                    found = true;
                }
                j = j + 1;
            }
            if found {
                n = n + 1;
            }
            i = i + 1;
        }
        n
    }

    /// Finds the first vote, in the order we heard of them, whose observation is not agreed
    /// yet and has enough votes; returns its block.
    fn next_block(&self) -> (r: Option<Block>)
        ensures
            r matches Some(b) ==> voted(self.votes@, b.payload.view()),
    {
        let members = self.members();
        let mut i: usize = 0;
        while i < self.votes.len()
            invariant
                i <= self.votes@.len(),
            decreases self.votes@.len() - i,
        {
            proof {
                assert(votes_view(self.votes@)[i as int].1 == self.votes@[i as int].observation.view());
            }
            let obs = &self.votes[i].observation;
            let single = match (self.mode, obs) {
                (ConsensusMode::Single, Observation::OpaquePayload(_)) => true,
                _ => false,
            };
            if single {
                let voter = self.votes[i].voter;
                if !self.is_decided(obs, Some(voter)) && contains_peer(&members, voter) {
                    return Some(Block { payload: obs.duplicate(), voter: Some(voter) });
                }
            } else if !self.is_decided(obs, None) {
                let n = self.count_votes(&members, obs);
                if is_quorum(n, members.len()) {
                    return Some(Block { payload: obs.duplicate(), voter: None });
                }
            }
            i = i + 1;
        }
        None
    }

    /// Agrees on every observation that has enough votes, one block at a time, until none
    /// has. Nothing is decided before the agreed history is known.
    fn compute_consensus(&mut self)
        requires
            old(self).wf(),
        ensures
            final(self).wf(),
            final(self).votes == old(self).votes,
            forall|k: int| old(self).blocks@.len() <= k < final(self).blocks@.len()
                ==> voted(old(self).votes@, #[trigger] final(self).blocks@[k].payload.view()),
            final(self).first_unpolled == old(self).first_unpolled,
            is_prefix(blocks_view(old(self).blocks@), blocks_view(final(self).blocks@)),
    {
        let ghost b0 = blocks_view(self.blocks@);
        assert(b0.subrange(0, b0.len() as int) =~= b0);
        if self.blocks.len() == 0 {
            return;
        }
        let rounds = self.votes.len();
        let mut k: usize = 0;
        while k < rounds
            invariant
                self.wf(),
                self.first_unpolled == old(self).first_unpolled,
                is_prefix(b0, blocks_view(self.blocks@)),
                b0 == blocks_view(old(self).blocks@),
                self.votes == old(self).votes,
                self.blocks@.len() >= old(self).blocks@.len(),
                forall|j: int| old(self).blocks@.len() <= j < self.blocks@.len()
                    ==> voted(old(self).votes@, #[trigger] self.blocks@[j].payload.view()),
                k <= rounds,
            decreases rounds - k,
        {
            match self.next_block() {
                Some(b) => {
                    let ghost before = blocks_view(self.blocks@);
                    let ghost bv = b.view();
                    self.blocks.push(b);
                    assert(blocks_view(self.blocks@) =~= before.push(bv));
                    assert(blocks_view(self.blocks@).subrange(0, b0.len() as int) =~= before.subrange(0, b0.len() as int));
                },
                None => return,
            }
            k = k + 1;
        }
    }
}

/// The members after the agreed `blocks`: those of the last genesis block, with the later
/// additions and removals applied in order.
pub open spec fn members_of(blocks: Seq<Block>) -> Set<PeerId>
    decreases blocks.len(),
{
    if blocks.len() == 0 {
        Set::empty()
    } else {
        let prev = members_of(blocks.drop_last());
        match blocks.last().payload {
            Observation::Genesis { group, .. } => group@.to_set(),
            Observation::Add { peer_id, .. } => prev.insert(peer_id),
            Observation::Remove { peer_id, .. } => prev.remove(peer_id),
            Observation::OpaquePayload(_) => prev,
        }
    }
}

/// Returns `v` without `p`.
pub fn without_peer(v: &Vec<PeerId>, p: PeerId) -> (r: Vec<PeerId>)
    ensures
        forall|q: PeerId| r@.contains(q) <==> (q != p && v@.contains(q)),
{
    let mut r: Vec<PeerId> = Vec::new();
    let mut i: usize = 0;
    while i < v.len()
        invariant
            i <= v@.len(),
            !r@.contains(p),
            forall|j: int| 0 <= j < i && v@[j] != p ==> r@.contains(v@[j]),
            forall|q: PeerId| r@.contains(q) ==> v@.contains(q),
        decreases v@.len() - i,
    {
        if v[i].0 != p.0 {
            let ghost before = r@;
            r.push(v[i]);
            proof {
                assert forall|j: int| 0 <= j < i + 1 && v@[j] != p implies r@.contains(v@[j]) by {
                    if j < i {
                        let k = choose|k: int| 0 <= k < before.len() && before[k] == v@[j];
                        assert(r@[k] == v@[j]);
                    } else {
                        assert(r@[before.len() as int] == v@[j]);
                    }
                }
                assert(!r@.contains(p)) by {
                    if r@.contains(p) {
                        let k = choose|k: int| 0 <= k < r@.len() && r@[k] == p;
                        if k < before.len() {
                            assert(before[k] == p);
                        }
                    }
                }
                assert forall|q: PeerId| r@.contains(q) implies v@.contains(q) by {
                    let k = choose|k: int| 0 <= k < r@.len() && r@[k] == q;
                    if k < before.len() {
                        assert(before[k] == q);
                        assert(before.contains(q));
                    } else {
                        assert(v@[i as int] == q);
                    }
                }
            }
        }
        i = i + 1;
    }
    proof {
        assert forall|q: PeerId| q != p && v@.contains(q) implies r@.contains(q) by {
            let j = choose|j: int| 0 <= j < v@.len() && v@[j] == q;
        }
    }
    r
}

} // verus!
