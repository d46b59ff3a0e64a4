use routing::crypto::{sha3_256, sign};
use routing::id::{FullId, PublicKey, Signature};

fn enc_secret() -> Vec<u8> {
    let sk = threshold_crypto::SecretKey::random();
    bincode::serialize(&threshold_crypto::serde_impl::SerdeSecret(&sk)).unwrap()
}

#[test]
fn ensure_same_data_hashes_same() {
    let data: &[u8] = b"Some data";
    assert!(sha3_256(data) == sha3_256(data));
}

#[test]
fn ensure_different_data_hashes_different() {
    let data: &[u8] = b"Some data";
    let not_data: &[u8] = b"Some data.";
    assert!(sha3_256(data) != sha3_256(not_data));
}

#[test]
fn sha3_of_empty_input() {
    let d = sha3_256(b"");
    assert_eq!(d.len(), 32);
    assert_eq!(&d[..4], &[0xa7, 0xff, 0xc6, 0xf8]);
}

#[test]
fn check_sig_validate() {
    let secret = vec![9u8; 32];
    let id = FullId::gen(secret.clone(), enc_secret()).unwrap();
    let pub_key = id.public_id().public_signing_key();
    let msg: &[u8] = b"test message";
    let sig = Signature(sign(msg, &secret));
    let sig2 = id.sign(msg);
    assert_eq!(sig.0, sig2.0);
    assert_eq!(sig.0.len(), 64);
    assert!(pub_key.verify(msg, &sig));
    assert!(!pub_key.verify(b"other", &sig));
    assert!(!PublicKey(vec![0; 3]).verify(msg, &sig));
}

#[test]
fn check_pub_key_is_32_bytes() {
    let id = FullId::gen(vec![1u8; 32], enc_secret()).unwrap();
    let pub_key = id.public_id().public_signing_key();
    assert!(pub_key.to_bytes().len() == 32);
    assert_ne!(pub_key.to_bytes(), vec![1u8; 32]);
}
