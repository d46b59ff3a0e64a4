use rand::RngCore;
use routing::bounce::{decide_incoming, handle_bounced_untrusted, bounce_untrusted, IncomingAction};
use routing::chain::SectionProofChain;
use routing::location::{DstLocation, Prefix};
use routing::message::{CreateError, Error, ExtendProofChainError, Message, Node, PlainMessage, VerifyStatus};
use routing::variant::{EldersInfo, Proven, Variant};
use threshold_crypto::SecretKey;

fn gen_node() -> Node {
    let mut secret = vec![0u8; 32];
    rand::thread_rng().fill_bytes(&mut secret);
    Node::new(secret, 5)
}

fn pk(sk: &SecretKey) -> Vec<u8> {
    sk.public_key().to_bytes().to_vec()
}

fn link(prev: &SecretKey, next: &SecretKey) -> Vec<u8> {
    prev.sign(&pk(next)).to_bytes().to_vec()
}

fn anchors(key: &[u8]) -> Vec<(Prefix, Vec<u8>)> {
    vec![(Prefix::default_prefix(), key.to_vec())]
}

fn gen_elders_info(count: u8) -> EldersInfo {
    EldersInfo {
        prefix: Prefix::default_prefix(),
        elders: (0..count).map(|i| vec![i; 32]).collect(),
    }
}

fn proven(sk: &SecretKey, value: EldersInfo) -> Proven {
    let mut bytes = vec![];
    value.encode(&mut bytes);
    let signature = sk.sign(&bytes).to_bytes().to_vec();
    Proven { value, public_key: pk(sk), signature }
}

fn chain_of(keys: &[SecretKey]) -> SectionProofChain {
    let mut chain = SectionProofChain::new(pk(&keys[0]));
    for w in keys.windows(2) {
        assert!(chain.push(pk(&w[1]), link(&w[0], &w[1])));
    }
    chain
}

fn plain(dst_key: Vec<u8>, content: &[u8]) -> PlainMessage {
    PlainMessage {
        src: Prefix::default_prefix(),
        dst: DstLocation::Section(vec![7; 32]),
        dst_key,
        variant: Variant::UserMessage(content.to_vec()),
    }
}

fn section_message(signer: &SecretKey, chain: SectionProofChain, dst_key: Vec<u8>) -> Message {
    let plain = plain(dst_key, b"hello");
    let sig = signer.sign(&plain.signable_bytes()).to_bytes().to_vec();
    Message::section_src(plain, sig, chain)
}

#[test]
fn extend_proof_chain() {
    let node = gen_node();

    let sk0 = SecretKey::random();
    let pk0 = pk(&sk0);

    let sk1 = SecretKey::random();
    let pk1 = pk(&sk1);

    let mut full_proof_chain = SectionProofChain::new(pk0.clone());
    let pk1_sig = link(&sk0, &sk1);
    assert!(full_proof_chain.push(pk1.clone(), pk1_sig));

    let elders_info = proven(&sk1, gen_elders_info(3));

    let variant = Variant::NodeApproval(elders_info);
    let message = Message::single_src(
        &node,
        DstLocation::Direct,
        variant,
        Some(full_proof_chain.slice(1)),
        Some(pk1.clone()),
    );

    assert_eq!(message.verify(&anchors(&pk1)).unwrap(), VerifyStatus::Full);
    assert_eq!(message.verify(&anchors(&pk0)).unwrap(), VerifyStatus::Unknown);

    let message = message.extend_proof_chain(&pk0, &full_proof_chain).unwrap();

    assert_eq!(message.verify(&anchors(&pk0)).unwrap(), VerifyStatus::Full);
}

#[test]
fn round_trip_node_message() {
    let node = gen_node();
    let sk = SecretKey::random();
    let m = Message::single_src(
        &node,
        DstLocation::Node(vec![3; 32]),
        Variant::BouncedUnknownMessage { message: vec![1, 2, 3], parsec_version: 9 },
        Some(SectionProofChain::new(pk(&sk))),
        None,
    );
    let back = Message::from_bytes(&m.to_bytes()).unwrap();
    assert_eq!(back, m);
    assert_eq!(back.hash(), m.hash());
    assert_eq!(m.hash(), &routing::crypto::sha3_256(&m.to_bytes()));
}

#[test]
fn round_trip_section_message() {
    let keys: Vec<SecretKey> = (0..3).map(|_| SecretKey::random()).collect();
    let m = section_message(&keys[2], chain_of(&keys), pk(&keys[0]));
    let back = Message::from_bytes(&m.to_bytes()).unwrap();
    assert_eq!(back, m);
    assert!(matches!(back.variant(), Variant::UserMessage(b) if b == b"hello"));
}

#[test]
fn from_bytes_rejects_garbage_and_bad_signature() {
    assert_eq!(Message::from_bytes(&[0]).unwrap_err(), CreateError::Decode);
    assert_eq!(Message::from_bytes(&[]).unwrap_err(), CreateError::Decode);
    let keys: Vec<SecretKey> = (0..2).map(|_| SecretKey::random()).collect();
    // Signed by the first key, but the chain ends at the second.
    let m = section_message(&keys[0], chain_of(&keys), pk(&keys[0]));
    assert_eq!(Message::from_bytes(&m.to_bytes()).unwrap_err(), CreateError::FailedSignature);
    let mut bytes = section_message(&keys[1], chain_of(&keys), pk(&keys[0])).to_bytes();
    bytes.push(0);
    assert_eq!(Message::from_bytes(&bytes).unwrap_err(), CreateError::Decode);
}

#[test]
fn invalid_section_signature() {
    let sk0 = SecretKey::random();
    let sk1 = SecretKey::random();
    let chain = chain_of(&[sk0, SecretKey::random()]);
    let p = plain(pk(&sk1), b"hello");
    let sig = sk1.sign(b"other bytes").to_bytes().to_vec();
    let m = Message::section_src(p, sig, chain);
    assert_eq!(m.verify(&anchors(&pk(&sk1))), Err(Error::FailedSignature));
}

#[test]
fn invalid_link_inside_chain() {
    let sk0 = SecretKey::random();
    let sk1 = SecretKey::random();
    let unrelated = SecretKey::random();
    let mut chain = SectionProofChain::new(pk(&sk0));
    assert!(!chain.push(pk(&sk1), link(&unrelated, &sk1)));
    let chain = SectionProofChain {
        keys: vec![pk(&sk0), pk(&sk1)],
        sigs: vec![link(&unrelated, &sk1)],
    };
    let m = section_message(&sk1, chain, pk(&sk0));
    assert_eq!(m.verify(&anchors(&pk(&sk0))), Err(Error::UntrustedMessage));
    assert_eq!(m.verify(&vec![]), Err(Error::UntrustedMessage));
}

#[test]
fn section_message_without_chain_is_invalid() {
    let sk = SecretKey::random();
    let p = plain(pk(&sk), b"hello");
    let sig = sk.sign(&p.signable_bytes()).to_bytes().to_vec();
    let m = Message::new_signed(
        routing::message::SrcAuthority::Section { prefix: Prefix::default_prefix(), signature: sig },
        p.dst,
        p.variant,
        None,
        Some(p.dst_key),
    );
    assert_eq!(m.verify(&anchors(&pk(&sk))), Err(Error::InvalidMessage));
    assert_eq!(Message::from_bytes(&m.to_bytes()).unwrap_err(), CreateError::FailedSignature);
    assert_eq!(m.proof_chain().unwrap_err(), Error::InvalidMessage);

    let node = gen_node();
    let n = Message::single_src(&node, DstLocation::Direct, Variant::UserMessage(vec![1]), None, None);
    assert_eq!(n.verify(&vec![]), Ok(VerifyStatus::Full));
    let approval = Message::single_src(
        &node,
        DstLocation::Direct,
        Variant::NodeApproval(proven(&sk, gen_elders_info(2))),
        None,
        None,
    );
    assert_eq!(approval.verify(&anchors(&pk(&sk))), Err(Error::InvalidMessage));
}

#[test]
fn node_message_with_wrong_signature_fails() {
    let node = gen_node();
    let other = gen_node();
    let m = Message::single_src(&node, DstLocation::Direct, Variant::UserMessage(vec![1]), None, None);
    let forged = Message::new_signed(
        routing::message::SrcAuthority::Node { public_key: other.public_key.clone(), age: 5, signature: match m.src() {
            routing::message::SrcAuthority::Node { signature, .. } => signature.clone(),
            _ => unreachable!(),
        } },
        DstLocation::Direct,
        Variant::UserMessage(vec![1]),
        None,
        None,
    );
    assert_eq!(forged.verify(&vec![]), Err(Error::FailedSignature));
    assert_eq!(Message::from_bytes(&forged.to_bytes()).unwrap_err(), CreateError::FailedSignature);
}

#[test]
fn extend_errors() {
    let node = gen_node();
    let keys: Vec<SecretKey> = (0..3).map(|_| SecretKey::random()).collect();
    let full = chain_of(&keys);
    let m = Message::single_src(&node, DstLocation::Direct, Variant::UserMessage(vec![1]), None, None);
    assert_eq!(m.extend_proof_chain(&pk(&keys[0]), &full).unwrap_err(), ExtendProofChainError::NoProofChain);
    let m = section_message(&keys[1], full.slice(0).slice(0), pk(&keys[0]));
    let m2 = section_message(&keys[2], full.slice(2), pk(&keys[0]));
    let unknown = SecretKey::random();
    assert_eq!(
        m2.extend_proof_chain(&pk(&unknown), &full).unwrap_err(),
        ExtendProofChainError::Extend(routing::chain::ExtendError::KeyNotFound)
    );
    let m3 = section_message(&keys[2], full.slice(1), pk(&keys[0]));
    let short = full.slice(2);
    assert_eq!(
        m3.extend_proof_chain(&pk(&keys[2]), &short).unwrap_err(),
        ExtendProofChainError::Extend(routing::chain::ExtendError::KeyNotFound)
    );
    let m4 = section_message(&keys[2], full.slice(1), pk(&keys[0]));
    assert_eq!(
        m4.extend_proof_chain(&pk(&keys[2]), &full).unwrap_err(),
        ExtendProofChainError::Extend(routing::chain::ExtendError::Incompatible)
    );
    drop(m);
}

#[test]
fn bounce_repair() {
    let keys: Vec<SecretKey> = (0..4).map(|_| SecretKey::random()).collect();
    let history = chain_of(&keys);
    let elder_a = gen_node();
    let peer_b = gen_node();

    // A sends a section message whose proof starts at its latest key.
    let m = section_message(&keys[3], history.slice(3), pk(&keys[1]));
    let received = Message::from_bytes(&m.to_bytes()).unwrap();

    // B trusts an older key of A's section.
    let b_anchors = anchors(&pk(&keys[1]));
    let status = received.verify(&b_anchors);
    assert_eq!(status, Ok(VerifyStatus::Unknown));
    assert_eq!(decide_incoming(status, true, false), IncomingAction::BounceUntrusted);
    let bounce = bounce_untrusted(&peer_b, &received, DstLocation::Node(elder_a.name()), pk(&keys[1]));
    let bounce = Message::from_bytes(&bounce.to_bytes()).unwrap();

    // A repairs and resends.
    let resent = handle_bounced_untrusted(&bounce, &history).unwrap();
    let resent = Message::from_bytes(&resent.to_bytes()).unwrap();
    assert_eq!(resent.verify(&b_anchors), Ok(VerifyStatus::Full));
    assert_eq!(resent.proof_chain().unwrap().len(), 3);
    assert_eq!(decide_incoming(resent.verify(&b_anchors), true, false), IncomingAction::Handle);
}

#[test]
fn incoming_actions() {
    assert_eq!(decide_incoming(Ok(VerifyStatus::Full), false, false), IncomingAction::Relay);
    assert_eq!(decide_incoming(Ok(VerifyStatus::Unknown), false, false), IncomingAction::Relay);
    assert_eq!(decide_incoming(Ok(VerifyStatus::Unknown), true, true), IncomingAction::Drop);
    assert_eq!(decide_incoming(Err(Error::FailedSignature), true, false), IncomingAction::Drop);
}

#[test]
fn bounce_unknown_round_trip() {
    let a = gen_node();
    let b = gen_node();
    let sent = Message::single_src(&a, DstLocation::Node(b.name()), Variant::UserMessage(vec![4]), None, None);
    let bounce = routing::bounce::bounce_unknown(&b, sent.to_bytes(), 12, DstLocation::Node(a.name()));
    let bounce = Message::from_bytes(&bounce.to_bytes()).unwrap();
    let (bytes, version) = routing::bounce::handle_bounced_unknown(&bounce).unwrap();
    assert_eq!(bytes, sent.to_bytes());
    assert_eq!(version, 12);
    assert_eq!(
        routing::bounce::handle_bounced_unknown(&sent).unwrap_err(),
        routing::bounce::BounceError::NotABounce
    );
}

#[test]
fn bounce_of_bounce_is_dropped() {
    let a = gen_node();
    let b = gen_node();
    let sk = SecretKey::random();
    let history = SectionProofChain::new(pk(&sk));
    let sent = Message::single_src(&a, DstLocation::Direct, Variant::UserMessage(vec![4]), None, None);
    let first = bounce_untrusted(&b, &sent, DstLocation::Node(a.name()), pk(&sk));
    let second = bounce_untrusted(&a, &first, DstLocation::Node(b.name()), pk(&sk));
    assert_eq!(
        handle_bounced_untrusted(&second, &history).unwrap_err(),
        routing::bounce::BounceError::BounceOfBounce
    );
    assert_eq!(
        handle_bounced_untrusted(&sent, &history).unwrap_err(),
        routing::bounce::BounceError::NotABounce
    );
    // A node message has no proof chain to extend.
    assert_eq!(
        handle_bounced_untrusted(&first, &history).unwrap_err(),
        routing::bounce::BounceError::Extend(ExtendProofChainError::NoProofChain)
    );
}

#[test]
fn errors_and_last_key() {
    assert_eq!(CreateError::Decode.to_error(), Error::Serialisation);
    assert_eq!(CreateError::FailedSignature.to_error(), Error::FailedSignature);
    let keys: Vec<SecretKey> = (0..2).map(|_| SecretKey::random()).collect();
    let m = section_message(&keys[1], chain_of(&keys), pk(&keys[0]));
    assert_eq!(m.proof_chain_last_key().unwrap(), &pk(&keys[1]));
    let node = gen_node();
    let n = Message::single_src(&node, DstLocation::Direct, Variant::UserMessage(vec![]), None, None);
    assert_eq!(n.proof_chain_last_key().unwrap_err(), Error::InvalidMessage);
    assert!(DstLocation::Node(node.name()).matches(&node.name(), &Prefix::default_prefix()));
    assert!(!DstLocation::Direct.matches(&node.name(), &Prefix::default_prefix()));
    assert!(DstLocation::Section(vec![0x80; 32]).matches(&node.name(), &Prefix { bit_count: 1, name: vec![0x80] }));
    assert!(!DstLocation::Section(vec![0x00; 32]).matches(&node.name(), &Prefix { bit_count: 1, name: vec![0x80] }));
}
