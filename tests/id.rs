use routing::chain::SectionProofChain;
use routing::id::{FullId, P2pNode, PeerAddr};
use routing::member_info::{to_sign, MemberInfo, MemberState, Proof};
use threshold_crypto::SecretKey;

fn enc_secret() -> (Vec<u8>, Vec<u8>) {
    let sk = SecretKey::random();
    let bytes = bincode::serialize(&threshold_crypto::serde_impl::SerdeSecret(&sk)).unwrap();
    (bytes, sk.public_key().to_bytes().to_vec())
}

fn full_id(seed: u8) -> FullId {
    FullId::gen(vec![seed; 32], enc_secret().0).unwrap()
}

#[test]
fn name_is_public_signing_key() {
    let (enc, enc_public) = enc_secret();
    let id = FullId::gen(vec![4; 32], enc).unwrap();
    assert_eq!(id.public_id().name(), &id.public_id().public_signing_key().to_bytes());
    assert_eq!(id.public_id().name().len(), 32);
    assert_eq!(id.public_id().public_encryption_key(), &enc_public);
    assert!(FullId::gen(vec![4; 32], vec![0xff; 32]).is_none());
    let mut id = id;
    let before = id.public_id().name().clone();
    assert_eq!(id.public_id_mut().name(), &before);
    let sig = id.sign(b"msg");
    assert!(id.public_id().verify(b"msg", &sig));
    assert!(!id.public_id().verify(b"other", &sig));
}

#[test]
fn within_range_picks_first_fitting_candidate() {
    let candidates: Vec<Vec<u8>> = (0..20u8).map(|i| vec![i; 32]).collect();
    let all = FullId::within_range(&candidates, &[0u8; 32], &[0xff; 32], enc_secret().0).unwrap();
    assert_eq!(all.public_id().name(), full_id(0).public_id().name());
    let none = FullId::within_range(&candidates, &[0xff; 32], &[0xff; 32], enc_secret().0);
    assert!(none.is_none());
    assert!(FullId::within_range(&candidates, &[0u8; 32], &[0xff; 32], vec![1]).is_none());
}

#[test]
fn member_info_ages_and_proof() {
    let sk = SecretKey::random();
    let key = sk.public_key().to_bytes().to_vec();
    let id = full_id(9);
    let name = id.public_id().name().clone();
    let signature = sk.sign(&to_sign(&name, MemberState::Joined)).to_bytes().to_vec();
    let node = P2pNode::new(full_id(9).public_id().duplicate(), PeerAddr { ip: vec![127, 0, 0, 1], port: 5000 });
    let mut info = MemberInfo::new(2, node, Proof { public_key: key.clone(), signature });
    assert_eq!(info.age(), 4);
    assert!(!info.is_mature());
    info.increment_age();
    assert_eq!(info.age(), 5);
    assert!(info.is_mature());
    info.set_age(6);
    assert_eq!(info.age_counter_value(), 64);
    assert!(!info.increment_age_counter());
    assert!(info.verify(&SectionProofChain::new(key)));
    assert!(!info.verify(&SectionProofChain::new(SecretKey::random().public_key().to_bytes().to_vec())));
    info.state = MemberState::Left;
    assert!(!info.verify(&SectionProofChain::new(sk.public_key().to_bytes().to_vec())));
}
