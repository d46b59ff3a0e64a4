use routing::chain::{ExtendError, SectionProofChain, TrustStatus};
use threshold_crypto::SecretKey;

fn pk(sk: &SecretKey) -> Vec<u8> {
    sk.public_key().to_bytes().to_vec()
}

fn chain_of(keys: &[SecretKey]) -> SectionProofChain {
    let mut chain = SectionProofChain::new(pk(&keys[0]));
    for w in keys.windows(2) {
        assert!(chain.push(pk(&w[1]), w[0].sign(&pk(&w[1])).to_bytes().to_vec()));
    }
    chain
}

#[test]
fn trust_status() {
    let keys: Vec<SecretKey> = (0..3).map(|_| SecretKey::random()).collect();
    let chain = chain_of(&keys);
    assert_eq!(chain.check_trust(&vec![pk(&keys[0])]), TrustStatus::Trusted);
    assert_eq!(chain.check_trust(&vec![pk(&keys[2])]), TrustStatus::Trusted);
    assert_eq!(chain.check_trust(&vec![]), TrustStatus::Unknown);
    assert_eq!(chain.check_trust(&vec![pk(&SecretKey::random())]), TrustStatus::Unknown);
    // A larger trusted set keeps the chain trusted.
    assert_eq!(
        chain.check_trust(&vec![pk(&keys[2]), pk(&keys[1]), pk(&SecretKey::random())]),
        TrustStatus::Trusted
    );
}

#[test]
fn broken_link_before_trusted_key() {
    let keys: Vec<SecretKey> = (0..3).map(|_| SecretKey::random()).collect();
    let good = chain_of(&keys);
    let chain = SectionProofChain {
        keys: good.keys.clone(),
        sigs: vec![SecretKey::random().sign(&pk(&keys[1])).to_bytes().to_vec(), good.sigs[1].clone()],
    };
    assert_eq!(chain.check_trust(&vec![pk(&keys[1])]), TrustStatus::Trusted);
    assert_eq!(chain.check_trust(&vec![pk(&keys[0])]), TrustStatus::Invalid);
    assert_eq!(chain.check_trust(&vec![]), TrustStatus::Invalid);
}

#[test]
fn extend_and_slice() {
    let keys: Vec<SecretKey> = (0..4).map(|_| SecretKey::random()).collect();
    let full = chain_of(&keys);
    let mut tail = full.slice(2);
    assert_eq!(tail.len(), 2);
    assert_eq!(tail.first_key(), &pk(&keys[2]));
    assert_eq!(tail.extend(&pk(&keys[2]), &full), Ok(()));
    assert_eq!(tail.len(), 2);
    assert_eq!(tail.extend(&pk(&keys[0]), &full), Ok(()));
    assert_eq!(tail.len(), 4);
    assert_eq!(tail.keys, full.keys);
    assert_eq!(tail.sigs, full.sigs);
    assert_eq!(tail.last_key(), &pk(&keys[3]));
    let mut t2 = full.slice(1);
    assert_eq!(t2.extend(&pk(&keys[3]), &full), Err(ExtendError::Incompatible));
    assert_eq!(t2.extend(&pk(&SecretKey::random()), &full), Err(ExtendError::KeyNotFound));
    assert!(t2.has_key(&pk(&keys[1])));
    assert!(!t2.has_key(&pk(&keys[0])));
    assert_eq!(t2.index_of(&pk(&keys[3])), Some(2));
}
