use routing::consensus::{Block, ConsensusMode, Observation, Parsec, Payload, PeerId};

fn genesis_vec(ids: &[u64]) -> Vec<PeerId> {
    let mut v: Vec<PeerId> = ids.iter().map(|i| PeerId(*i)).collect();
    v.sort();
    v.dedup();
    v
}

fn from_genesis(our_id: PeerId, genesis_group: &Vec<PeerId>, consensus_mode: ConsensusMode) -> Parsec {
    Parsec::from_genesis(our_id, genesis_group, consensus_mode)
}

fn from_existing(
    our_id: PeerId,
    genesis_group: &Vec<PeerId>,
    section: &Vec<PeerId>,
    consensus_mode: ConsensusMode,
) -> Parsec {
    Parsec::from_existing(our_id, genesis_group, section, consensus_mode)
}

fn genesis_observation(genesis_group: Vec<PeerId>) -> Observation {
    Observation::Genesis {
        group: genesis_group,
        related_info: vec![],
    }
}

fn is_gossip_recipient(parsec: &Parsec, peer_id: PeerId) -> bool {
    parsec
        .gossip_recipients()
        .iter()
        .any(|recipient_id| *recipient_id == peer_id)
}

fn exchange_gossip(src: &mut Parsec, dst: &mut Parsec) {
    let request = match src.create_gossip(dst.our_pub_id()) {
        Ok(req) => req,
        Err(_) => {
            // a removed node may be a gossip target; the gossip is then not sent
            return;
        }
    };
    let response = dst.handle_request(src.our_pub_id(), request).unwrap();
    src.handle_response(dst.our_pub_id(), response).unwrap();
}

fn gossip_all(nodes: &mut [Parsec]) {
    for i in 0..nodes.len() {
        let j = (i + 1) % nodes.len();
        let (src, dst) = get_pair_mut(nodes, i, j);
        exchange_gossip(src, dst);
    }
}

fn get_pair_mut<T>(slice: &mut [T], i: usize, j: usize) -> (&mut T, &mut T) {
    assert!(i != j);

    if i < j {
        let (start, end) = slice.split_at_mut(j);
        (&mut start[i], &mut end[0])
    } else {
        let (start, end) = slice.split_at_mut(i);
        (&mut end[0], &mut start[j])
    }
}

fn vote_for(nodes: &mut [Parsec], observation: &Observation) {
    for node in nodes {
        node.vote_for(observation.duplicate()).unwrap();
    }
}

fn vote_for_add(nodes: &mut [Parsec], peer_to_add: PeerId) {
    vote_for(
        nodes,
        &Observation::Add {
            peer_id: peer_to_add,
            related_info: vec![],
        },
    )
}

fn poll_all(parsec: &mut Parsec) -> Vec<Block> {
    let mut blocks = vec![];
    while let Some(block) = parsec.poll() {
        blocks.push(block);
    }
    blocks
}

fn payloads(blocks: &[Block]) -> Vec<Observation> {
    blocks.iter().map(|x| x.payload().duplicate()).collect()
}

#[test]
fn smoke() {
    let alice_id = PeerId(0);
    let bob_id = PeerId(1);

    let genesis_group = genesis_vec(&[0, 1]);

    let mut alice = from_genesis(alice_id, &genesis_group, ConsensusMode::Supermajority);
    alice
        .vote_for(Observation::OpaquePayload(Payload(1)))
        .unwrap();

    let mut bob = from_genesis(bob_id, &genesis_group, ConsensusMode::Supermajority);
    bob.vote_for(Observation::OpaquePayload(Payload(1)))
        .unwrap();

    let request = bob.create_gossip(&alice_id).unwrap();
    let response_0 = alice.handle_request(&bob_id, request).unwrap();

    alice
        .vote_for(Observation::OpaquePayload(Payload(0)))
        .unwrap();
    bob.vote_for(Observation::OpaquePayload(Payload(0)))
        .unwrap();

    let request = bob.create_gossip(&alice_id).unwrap();
    let response_1 = alice.handle_request(&bob_id, request).unwrap();

    // Deliver the responses in reverse order.
    bob.handle_response(&bob_id, response_1).unwrap();
    bob.handle_response(&bob_id, response_0).unwrap();

    let alice_blocks = poll_all(&mut alice);
    let alice_blocks_payloads = payloads(&alice_blocks);
    let bob_blocks = poll_all(&mut bob);

    assert_eq!(
        alice_blocks_payloads,
        vec![
            genesis_observation(genesis_group),
            Observation::OpaquePayload(Payload(1)),
            Observation::OpaquePayload(Payload(0))
        ]
    );
    assert_eq!(alice_blocks, bob_blocks);
}

#[test]
fn add_peer() {
    let alice_id = PeerId(0);
    let bob_id = PeerId(1);
    let carol_id = PeerId(2);

    let genesis_group = genesis_vec(&[1, 2]);

    let mut bob = from_genesis(bob_id, &genesis_group, ConsensusMode::Supermajority);
    let mut carol = from_genesis(carol_id, &genesis_group, ConsensusMode::Supermajority);

    let mut alice = from_existing(
        alice_id,
        &genesis_group,
        &genesis_group,
        ConsensusMode::Supermajority,
    );

    let mut alice_blocks = vec![];
    let mut bob_blocks = vec![];
    let mut carol_blocks = vec![];

    assert!(!is_gossip_recipient(&bob, alice_id));
    assert!(!is_gossip_recipient(&carol, alice_id));

    let add_alice = Observation::Add {
        peer_id: alice_id,
        related_info: vec![],
    };

    let payload0 = Observation::OpaquePayload(Payload(0));

    bob.vote_for(add_alice.duplicate()).unwrap();
    carol.vote_for(add_alice.duplicate()).unwrap();

    exchange_gossip(&mut bob, &mut carol);

    bob_blocks.extend(poll_all(&mut bob));
    carol_blocks.extend(poll_all(&mut carol));

    assert!(is_gossip_recipient(&bob, alice_id));
    assert!(is_gossip_recipient(&carol, alice_id));

    bob.vote_for(payload0.duplicate()).unwrap();
    carol.vote_for(payload0.duplicate()).unwrap();

    exchange_gossip(&mut bob, &mut alice);

    alice.vote_for(payload0.duplicate()).unwrap();

    exchange_gossip(&mut carol, &mut alice);
    exchange_gossip(&mut carol, &mut bob);

    alice_blocks.extend(poll_all(&mut alice));
    let alice_blocks_payloads = payloads(&alice_blocks);
    bob_blocks.extend(poll_all(&mut bob));
    carol_blocks.extend(poll_all(&mut carol));

    assert_eq!(
        alice_blocks_payloads,
        vec![genesis_observation(genesis_group), add_alice, payload0]
    );
    assert_eq!(alice_blocks, bob_blocks);
    assert_eq!(bob_blocks, carol_blocks);
}

#[test]
fn consensus_mode_single() {
    let alice_id = PeerId(0);
    let bob_id = PeerId(1);

    let genesis_group = genesis_vec(&[0, 1]);

    // Votes with different payloads all get agreed after the genesis block.
    let mut alice = from_genesis(alice_id, &genesis_group, ConsensusMode::Single);
    alice
        .vote_for(Observation::OpaquePayload(Payload(0)))
        .unwrap();

    let mut bob = from_genesis(bob_id, &genesis_group, ConsensusMode::Single);
    bob.vote_for(Observation::OpaquePayload(Payload(1)))
        .unwrap();

    exchange_gossip(&mut bob, &mut alice);

    let alice_blocks = poll_all(&mut alice);
    let alice_blocks_payloads = payloads(&alice_blocks);
    let bob_blocks = poll_all(&mut bob);
    assert_eq!(
        alice_blocks_payloads,
        vec![
            genesis_observation(genesis_group),
            Observation::OpaquePayload(Payload(0)),
            Observation::OpaquePayload(Payload(1))
        ]
    );
    assert_eq!(alice_blocks, bob_blocks);

    // Votes with the same payload get agreed separately.
    alice
        .vote_for(Observation::OpaquePayload(Payload(2)))
        .unwrap();
    bob.vote_for(Observation::OpaquePayload(Payload(2)))
        .unwrap();

    exchange_gossip(&mut bob, &mut alice);

    let alice_blocks = poll_all(&mut alice);
    let bob_blocks = poll_all(&mut bob);
    assert_eq!(alice_blocks.len(), 2); // Alice's Payload(2) + Bob's Payload(2)
    assert_eq!(alice_blocks, bob_blocks);
}

#[test]
fn newly_joined_node_does_not_cause_premature_consensus() {
    let genesis_group = genesis_vec(&[0, 1]);

    let mut nodes: Vec<Parsec> = genesis_group
        .iter()
        .map(|id| from_genesis(*id, &genesis_group, ConsensusMode::Supermajority))
        .collect();

    let carol = from_existing(
        PeerId(2),
        &genesis_group,
        &genesis_group,
        ConsensusMode::Supermajority,
    );
    vote_for_add(&mut nodes, *carol.our_pub_id());
    nodes.push(carol);
    gossip_all(&mut nodes);

    let observation = Observation::OpaquePayload(Payload(0));
    vote_for(&mut nodes[..2], &observation);
    gossip_all(&mut nodes);

    let section: Vec<PeerId> = nodes.iter().map(|node| *node.our_pub_id()).collect();
    let dave = from_existing(
        PeerId(3),
        &genesis_group,
        &section,
        ConsensusMode::Supermajority,
    );
    vote_for_add(&mut nodes, *dave.our_pub_id());
    nodes.push(dave);

    gossip_all(&mut nodes);

    for node in &mut nodes {
        for block in poll_all(node) {
            assert_ne!(*block.payload(), observation)
        }
    }

    nodes[2].vote_for(observation.duplicate()).unwrap();
    gossip_all(&mut nodes);

    for node in &mut nodes {
        assert_eq!(node.poll().unwrap().payload(), &observation);
    }
}

#[test]
fn duplicate_vote_is_refused() {
    let group = genesis_vec(&[0, 1]);
    let mut alice = from_genesis(PeerId(0), &group, ConsensusMode::Supermajority);
    alice.vote_for(Observation::OpaquePayload(Payload(7))).unwrap();
    assert!(alice.vote_for(Observation::OpaquePayload(Payload(7))).is_err());
    assert!(alice.create_gossip(&PeerId(5)).is_err());
}
