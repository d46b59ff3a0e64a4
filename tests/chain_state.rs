use routing::chain_state::{ChainError, ChainState, ConsensusEvent};
use routing::event::Event;
use routing::location::Prefix;
use routing::variant::EldersInfo;
use threshold_crypto::SecretKeySet;

fn key_set() -> (SecretKeySet, Vec<u8>, Vec<u8>) {
    let sks = SecretKeySet::random(2, &mut rand::thread_rng());
    let pks = sks.public_keys();
    let bytes = bincode::serialize(&pks).unwrap();
    let pk = pks.public_key().to_bytes().to_vec();
    (sks, bytes, pk)
}

fn master_sign(sks: &SecretKeySet, msg: &[u8]) -> Vec<u8> {
    let pks = sks.public_keys();
    let shares: Vec<_> = (0..3usize).map(|i| (i, sks.secret_key_share(i).sign(msg))).collect();
    pks.combine_signatures(shares.iter().map(|(i, s)| (*i, s))).unwrap().to_bytes().to_vec()
}

fn info() -> EldersInfo {
    EldersInfo { prefix: Prefix::default_prefix(), elders: vec![vec![1; 32], vec![2; 32]] }
}

#[test]
fn history_follows_section_info() {
    let (sks0, set0, pk0) = key_set();
    let mut state = ChainState::genesis(vec![vec![1; 32]], set0, vec![], 0).unwrap();
    assert_eq!(state.last_key(), &pk0);
    assert_eq!(state.history.len(), 1);

    let (_sks1, set1, pk1) = key_set();
    // A SectionInfo before its OurKey is refused.
    let ev = ConsensusEvent::SectionInfo {
        elders_info: info(),
        key_signature: master_sign(&sks0, &pk1),
        public_key_set: set1.clone(),
        secret_key_share: vec![],
        key_index: 1,
    };
    assert!(matches!(state.apply(ev), Err(ChainError::NoPendingKey)));
    assert!(state.apply(ConsensusEvent::OurKey { prefix: Prefix::default_prefix(), key: pk1.clone() }).unwrap().is_none());
    // A signature not made by the current key is refused, and the state is kept.
    let bad = ConsensusEvent::SectionInfo {
        elders_info: info(),
        key_signature: master_sign(&_sks1, &pk1),
        public_key_set: set1.clone(),
        secret_key_share: vec![],
        key_index: 1,
    };
    assert!(matches!(state.apply(bad), Err(ChainError::InvalidKeySignature)));
    assert_eq!(state.last_key(), &pk0);
    let ev = ConsensusEvent::SectionInfo {
        elders_info: info(),
        key_signature: master_sign(&sks0, &pk1),
        public_key_set: set1,
        secret_key_share: vec![],
        key_index: 1,
    };
    match state.apply(ev) {
        Ok(Some(Event::EldersChanged { key, elders, .. })) => {
            assert_eq!(key, pk1);
            assert_eq!(elders.len(), 2);
        }
        other => panic!("unexpected {:?}", other),
    }
    assert_eq!(state.last_key(), &pk1);
    assert_eq!(state.history.len(), 2);
    assert_eq!(state.elders.len(), 2);
    assert!(state.apply(ConsensusEvent::ParsecPrune).unwrap().is_none());
    assert_eq!(state.parsec_version, 1);
    assert!(matches!(
        state.apply(ConsensusEvent::Online { name: vec![9; 32], age: 4 }),
        Ok(Some(Event::MemberJoined { age: 4, .. }))
    ));
    assert_eq!(state.members.len(), 1);
    assert!(matches!(
        state.apply(ConsensusEvent::Offline { name: vec![9; 32] }),
        Ok(Some(Event::MemberLeft { age: 4, .. }))
    ));
    assert!(state.apply(ConsensusEvent::Offline { name: vec![8; 32] }).unwrap().is_none());
    assert!(state.apply(ConsensusEvent::TheirKnowledge { prefix: Prefix::default_prefix(), knowledge: 1 }).unwrap().is_none());
    let proof = state.proof_chain_for(&Prefix::default_prefix());
    assert_eq!(proof.len(), 1);
    assert_eq!(proof.last_key(), &pk1);
}

#[test]
fn trusted_peer_key_moves_forward() {
    let (_s, set0, _pk0) = key_set();
    let mut state = ChainState::genesis(vec![], set0, vec![], 0).unwrap();
    let keys: Vec<threshold_crypto::SecretKey> = (0..3).map(|_| threshold_crypto::SecretKey::random()).collect();
    let pk = |k: &threshold_crypto::SecretKey| k.public_key().to_bytes().to_vec();
    let mut chain = routing::chain::SectionProofChain::new(pk(&keys[0]));
    assert!(chain.push(pk(&keys[1]), keys[0].sign(&pk(&keys[1])).to_bytes().to_vec()));
    assert!(chain.push(pk(&keys[2]), keys[1].sign(&pk(&keys[2])).to_bytes().to_vec()));
    let p = Prefix { bit_count: 1, name: vec![0x80] };
    assert!(!state.update_trusted_key(&p, &chain));
    state.add_trusted_key(Prefix { bit_count: 1, name: vec![0x80] }, pk(&keys[1]));
    assert!(state.update_trusted_key(&p, &chain));
    assert_eq!(state.trusted_peer_keys[0].1, pk(&keys[2]));
    // A chain that does not reach the trusted key leaves it.
    let other = routing::chain::SectionProofChain::new(pk(&keys[0]));
    assert!(!state.update_trusted_key(&p, &other));
    assert_eq!(state.trusted_peer_keys[0].1, pk(&keys[2]));
}
