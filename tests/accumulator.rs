use routing::accumulator::{AccumulatingMessage, ProofShare, SignatureAccumulator};
use routing::chain::SectionProofChain;
use routing::member_info::Proof;
use routing::location::{DstLocation, Prefix};
use routing::message::{PlainMessage, SrcAuthority, VerifyStatus};
use routing::variant::Variant;
use threshold_crypto::{SecretKeySet, SecretKeyShare};

const ELDERS: usize = 7;

fn plain(dst_key: &[u8]) -> PlainMessage {
    PlainMessage {
        src: Prefix::default_prefix(),
        dst: DstLocation::Section(vec![5; 32]),
        dst_key: dst_key.to_vec(),
        variant: Variant::UserMessage(b"payload".to_vec()),
    }
}

struct Section {
    set_bytes: Vec<u8>,
    shares: Vec<SecretKeyShare>,
    public_key: Vec<u8>,
}

fn section(threshold: usize, n: usize) -> Section {
    let sks = SecretKeySet::random(threshold, &mut rand::thread_rng());
    let pks = sks.public_keys();
    Section {
        set_bytes: bincode::serialize(&pks).unwrap(),
        shares: (0..n).map(|i| sks.secret_key_share(i)).collect(),
        public_key: pks.public_key().to_bytes().to_vec(),
    }
}

fn share_msg(s: &Section, index: usize) -> AccumulatingMessage {
    let content = plain(&s.public_key);
    let bytes = content.signable_bytes();
    let signature_share = s.shares[index].sign(&bytes).to_bytes().to_vec();
    AccumulatingMessage {
        content,
        proof_chain: SectionProofChain::new(s.public_key.clone()),
        proof_share: ProofShare {
            public_key_set: s.set_bytes.clone(),
            index: index as u64,
            signature_share,
        },
    }
}

#[test]
fn accumulator_threshold_seven_elders() {
    let s = section(4, 7);
    let mut acc = SignatureAccumulator::new();
    for i in 0..4 {
        assert!(acc.add(share_msg(&s, i), ELDERS, 0).is_none());
    }
    assert_eq!(acc.len(), 1);
    let msg = acc.add(share_msg(&s, 4), ELDERS, 0).expect("five shares combine");
    assert_eq!(acc.len(), 0);
    let sig = match msg.src() {
        SrcAuthority::Section { signature, .. } => signature.clone(),
        _ => panic!("not a section message"),
    };
    let signable = plain(&s.public_key).signable_bytes();
    assert!(Proof { public_key: s.public_key.clone(), signature: sig }.verify(&signable));
    assert_eq!(
        msg.verify(&vec![(Prefix::default_prefix(), s.public_key.clone())]),
        Ok(VerifyStatus::Full)
    );
    // A sixth share is dropped.
    assert!(acc.add(share_msg(&s, 5), ELDERS, 0).is_none());
    assert_eq!(acc.len(), 0);
}

#[test]
fn duplicate_share_is_idempotent() {
    let s = section(2, 4);
    let mut acc = SignatureAccumulator::new();
    assert!(acc.add(share_msg(&s, 0), ELDERS, 0).is_none());
    assert!(acc.add(share_msg(&s, 0), ELDERS, 0).is_none());
    assert!(acc.add(share_msg(&s, 1), ELDERS, 0).is_none());
    assert!(acc.add(share_msg(&s, 1), ELDERS, 0).is_none());
    assert_eq!(acc.entries[0].shares.len(), 2);
    assert!(acc.add(share_msg(&s, 2), ELDERS, 0).is_some());
    assert!(acc.add(share_msg(&s, 2), ELDERS, 0).is_none());
}

#[test]
fn invalid_share_is_discarded() {
    let s = section(2, 4);
    let mut acc = SignatureAccumulator::new();
    let mut bad = share_msg(&s, 0);
    bad.proof_share.index = 1;
    assert!(acc.add(bad, ELDERS, 0).is_none());
    assert_eq!(acc.len(), 0);
    let mut out_of_bound = share_msg(&s, 3);
    out_of_bound.proof_share.index = 4;
    assert!(acc.add(out_of_bound, ELDERS, 0).is_none());
    assert_eq!(acc.len(), 0);
}

#[test]
fn idle_entries_are_evicted() {
    let s = section(2, 4);
    let mut acc = SignatureAccumulator::new();
    assert!(acc.add(share_msg(&s, 0), ELDERS, 10).is_none());
    acc.evict_idle(15, 10);
    assert_eq!(acc.len(), 1);
    acc.evict_idle(20, 10);
    assert_eq!(acc.len(), 0);
}

#[test]
fn share_from_outside_the_elders_is_discarded() {
    let s = section(4, 7);
    let mut acc = SignatureAccumulator::new();
    assert!(acc.add(share_msg(&s, 5), 5, 0).is_none());
    assert_eq!(acc.len(), 0);
    assert!(acc.add(share_msg(&s, 4), 5, 0).is_none());
    assert_eq!(acc.len(), 1);
}

#[test]
fn empty_key_set_is_refused() {
    let s = section(1, 3);
    let mut msg = share_msg(&s, 0);
    msg.proof_share.public_key_set = vec![0; 8];
    let mut acc = SignatureAccumulator::new();
    assert!(acc.add(msg, ELDERS, 0).is_none());
    assert_eq!(acc.len(), 0);
}
