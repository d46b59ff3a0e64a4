//! Cryptographic primitives: the SHA3-256 digest, Ed25519 node signatures and BLS section
//! signatures. Keys and signatures travel through the library as plain bytes; every
//! computation on them is a call into the outside crate, whose result is named here.
use vstd::prelude::*;
use ed25519_dalek::{Signer, Verifier};
use tiny_keccak::Hasher;
use vstd::bytes::{spec_u64_from_le_bytes, u64_from_le_bytes};
use vstd::slice::slice_subrange;

verus! {

/// Length of a SHA3-256 digest.
pub const DIGEST_LEN: usize = 32;

/// Length of a public Ed25519 key, and of a node's name.
pub const PUBLIC_KEY_LENGTH: usize = 32;

/// Length of a secret Ed25519 key.
pub const SECRET_KEY_LENGTH: usize = 32;

/// Length of an Ed25519 signature.
pub const SIGNATURE_LENGTH: usize = 64;

/// Length of a compressed BLS public key.
pub const BLS_KEY_LENGTH: usize = 48;

/// Length of a compressed BLS signature or signature share.
pub const BLS_SIG_LENGTH: usize = 96;

/// The SHA3-256 digest of `data`.
pub uninterp spec fn sha3_256_of(data: Seq<u8>) -> Seq<u8>;

/// Whether `sig` is a valid Ed25519 signature of `msg` under the public key `key`.
pub uninterp spec fn ed25519_valid(key: Seq<u8>, msg: Seq<u8>, sig: Seq<u8>) -> bool;

/// The Ed25519 signature of `msg` by the secret key `secret`.
pub uninterp spec fn ed25519_signature_of(secret: Seq<u8>, msg: Seq<u8>) -> Seq<u8>;

/// The public Ed25519 key of the secret key `secret`.
pub uninterp spec fn ed25519_public_of(secret: Seq<u8>) -> Seq<u8>;

/// The public BLS key of the serialised BLS secret key `secret`, if it decodes.
pub uninterp spec fn bls_public_of_secret(secret: Seq<u8>) -> Option<Seq<u8>>;

/// Whether `sig` is a valid BLS signature of `msg` under the public key `key`.
pub uninterp spec fn bls_valid(key: Seq<u8>, sig: Seq<u8>, msg: Seq<u8>) -> bool;

/// Whether `share` is a valid signature share of `msg` by share number `index` of the
/// public key set whose serialised form is `set`.
pub uninterp spec fn bls_share_valid(set: Seq<u8>, index: int, share: Seq<u8>, msg: Seq<u8>) -> bool;

/// What combining the indexed signature `shares` under the public key set `set` gives:
/// `None` where the set or a share does not decode, or where the shares are fewer than the
/// threshold plus one or the first threshold-plus-one of them repeat an index.
pub uninterp spec fn bls_combined_of(set: Seq<u8>, shares: Seq<(u64, Seq<u8>)>) -> Option<Seq<u8>>;

/// The threshold of the public key set whose serialised form is `set`, if it decodes.
pub uninterp spec fn bls_set_threshold_of(set: Seq<u8>) -> Option<usize>;

/// The main public key of the public key set whose serialised form is `set`, if it decodes.
pub uninterp spec fn bls_set_public_key_of(set: Seq<u8>) -> Option<Seq<u8>>;

/// Whether the serialised public key set `set` has a commitment with at least one
/// coefficient. bincode (fixed-size integers, little-endian) writes a `PublicKeySet` as the
/// length of its commitment's coefficient list in 8 bytes, then the coefficients; a set
/// whose first 8 bytes are not 0 decodes, if at all, to a commitment with coefficients.
pub open spec fn key_set_nonempty(set: Seq<u8>) -> bool {
    set.len() >= 8 && spec_u64_from_le_bytes(set.subrange(0, 8)) != 0
}

/// Returns whether the serialised key set has a commitment with coefficients.
pub fn key_set_is_nonempty(set: &[u8]) -> (r: bool)
    ensures
        r == key_set_nonempty(set@),
{
    if set.len() < 8 {
        return false;
    }
    let head = slice_subrange(set, 0, 8);
    u64_from_le_bytes(head) != 0
}

/// The threshold of a serialised key set: `None` when it does not decode or has no
/// coefficients.
pub open spec fn set_threshold_of(set: Seq<u8>) -> Option<usize> {
    if key_set_nonempty(set) { bls_set_threshold_of(set) } else { None }
}

/// The main public key of a serialised key set: `None` when it does not decode or has no
/// coefficients.
pub open spec fn set_public_key_of(set: Seq<u8>) -> Option<Seq<u8>> {
    if key_set_nonempty(set) { bls_set_public_key_of(set) } else { None }
}

/// The combination of `shares` under a serialised key set: `None` when the set has no
/// coefficients or combining fails.
pub open spec fn combined_of(set: Seq<u8>, shares: Seq<(u64, Seq<u8>)>) -> Option<Seq<u8>> {
    if key_set_nonempty(set) { bls_combined_of(set, shares) } else { None }
}

/// Returns the threshold of a serialised key set.
pub fn set_threshold(set: &[u8]) -> (r: Option<usize>)
    ensures
        r == set_threshold_of(set@),
{
    if !key_set_is_nonempty(set) {
        return None;
    }
    bls_set_threshold(set)
}

/// Returns the main public key of a serialised key set.
pub fn set_public_key(set: &[u8]) -> (r: Option<Vec<u8>>)
    ensures
        r matches Some(k) ==> set_public_key_of(set@) == Some(k@) && k@.len() == BLS_KEY_LENGTH,
        r is None ==> set_public_key_of(set@) is None,
{
    if !key_set_is_nonempty(set) {
        return None;
    }
    bls_set_public_key(set)
}

/// Returns the combination of indexed shares under a serialised key set.
pub fn combine(set: &[u8], shares: &Vec<(u64, Vec<u8>)>) -> (r: Option<Vec<u8>>)
    ensures
        r matches Some(s) ==> combined_of(set@, shares@.map_values(|p: (u64, Vec<u8>)| (p.0, p.1@))) == Some(s@),
        r is None ==> combined_of(set@, shares@.map_values(|p: (u64, Vec<u8>)| (p.0, p.1@))) is None,
{
    if !key_set_is_nonempty(set) {
        return None;
    }
    bls_combine(set, shares)
}

/// SHA3-256 digest of `input`.
///
/// Relies on tiny_keccak's `Sha3::v256`, `update` and `finalize`: a 32-byte digest that
/// depends on the input alone.
#[verifier::external_body]
pub fn sha3_256(input: &[u8]) -> (r: Vec<u8>)
    ensures
        r@ == sha3_256_of(input@),
        r@.len() == DIGEST_LEN,
{
    let mut hasher = tiny_keccak::Sha3::v256();
    let mut output = [0u8; 32];
    hasher.update(input);
    hasher.finalize(&mut output);
    output.to_vec()
}

/// Checks an Ed25519 signature.
///
/// Relies on ed25519_dalek's `PublicKey::verify`; a key or signature that does not decode
/// counts as invalid.
#[verifier::external_body]
pub(crate) fn ed25519_verify(key: &[u8], msg: &[u8], sig: &[u8]) -> (r: bool)
    ensures
        r == ed25519_valid(key@, msg@, sig@),
{
    match (ed25519_dalek::PublicKey::from_bytes(key), ed25519_dalek::Signature::from_bytes(sig)) {
        (Ok(key), Ok(sig)) => key.verify(msg, &sig).is_ok(),
        _ => false,
    }
}

/// Derives the public Ed25519 key of a secret key.
///
/// Relies on ed25519_dalek's `SecretKey::from_bytes`, which accepts any 32 bytes, and on
/// `PublicKey::from`.
#[verifier::external_body]
pub(crate) fn ed25519_public_key(secret: &[u8]) -> (r: Vec<u8>)
    requires
        secret@.len() == SECRET_KEY_LENGTH,
    ensures
        r@ == ed25519_public_of(secret@),
        r@.len() == PUBLIC_KEY_LENGTH,
{
    let secret = ed25519_dalek::SecretKey::from_bytes(secret).unwrap();
    ed25519_dalek::PublicKey::from(&secret).to_bytes().to_vec()
}

/// Signs `msg` with an Ed25519 secret key.
///
/// Relies on ed25519_dalek's `Keypair::sign` (deterministic Ed25519), with the key pair
/// made of the secret key and its public key; such a signature verifies under that public
/// key (Ed25519 correctness, which `PublicKey::verify` checks).
#[verifier::external_body]
pub fn sign(msg: &[u8], secret: &[u8]) -> (r: Vec<u8>)
    requires
        secret@.len() == SECRET_KEY_LENGTH,
    ensures
        r@ == ed25519_signature_of(secret@, msg@),
        r@.len() == SIGNATURE_LENGTH,
        ed25519_valid(ed25519_public_of(secret@), msg@, r@),
{
    let secret = ed25519_dalek::SecretKey::from_bytes(secret).unwrap();
    let public = ed25519_dalek::PublicKey::from(&secret);
    let keypair = ed25519_dalek::Keypair { secret, public };
    keypair.sign(msg).to_bytes().to_vec()
}

/// Derives the public key of a BLS secret key that bincode serialised.
///
/// Relies on threshold_crypto's `Deserialize` for `SecretKey`, which fails on a number
/// outside the prime field, and on `SecretKey::public_key`.
#[verifier::external_body]
pub(crate) fn bls_public_key_of_secret(secret: &[u8]) -> (r: Option<Vec<u8>>)
    ensures
        r matches Some(k) ==> bls_public_of_secret(secret@) == Some(k@),
        r is None ==> bls_public_of_secret(secret@) is None,
{
    let secret: threshold_crypto::SecretKey = bincode::deserialize(secret).ok()?;
    Some(secret.public_key().to_bytes().to_vec())
}

/// Checks a BLS signature.
///
/// Relies on threshold_crypto's `PublicKey::verify`; a key or signature that does not
/// decode counts as invalid.
#[verifier::external_body]
pub(crate) fn bls_verify(key: &[u8], sig: &[u8], msg: &[u8]) -> (r: bool)
    ensures
        r == bls_valid(key@, sig@, msg@),
{
    let key = <[u8; 48]>::try_from(key).ok().and_then(|b| threshold_crypto::PublicKey::from_bytes(b).ok());
    let sig = <[u8; 96]>::try_from(sig).ok().and_then(|b| threshold_crypto::Signature::from_bytes(b).ok());
    match (key, sig) {
        (Some(key), Some(sig)) => key.verify(&sig, msg),
        _ => false,
    }
}

/// Checks a BLS signature share against share number `index` of a public key set.
///
/// Relies on threshold_crypto's `PublicKeySet::public_key_share` and
/// `PublicKeyShare::verify`; a set or share that does not decode counts as invalid.
#[verifier::external_body]
pub(crate) fn bls_verify_share(set: &[u8], index: u64, share: &[u8], msg: &[u8]) -> (r: bool)
    ensures
        r == bls_share_valid(set@, index as int, share@, msg@),
{
    let set: Option<threshold_crypto::PublicKeySet> = bincode::deserialize(set).ok();
    let share = <[u8; 96]>::try_from(share).ok().and_then(|b| threshold_crypto::SignatureShare::from_bytes(b).ok());
    match (set, share) {
        (Some(set), Some(share)) => set.public_key_share(index).verify(&share, msg),
        _ => false,
    }
}

/// Combines indexed signature shares into a full signature.
///
/// Relies on threshold_crypto's `PublicKeySet::combine_signatures`, which fails on too
/// few shares or a repeated index and does not check the shares. It reads the commitment's
/// degree, which underflows on a set with no coefficients: `requires` leaves those out.
#[verifier::external_body]
pub(crate) fn bls_combine(set: &[u8], shares: &Vec<(u64, Vec<u8>)>) -> (r: Option<Vec<u8>>)
    requires
        key_set_nonempty(set@),
    ensures
        r matches Some(s) ==> bls_combined_of(set@, shares@.map_values(|p: (u64, Vec<u8>)| (p.0, p.1@))) == Some(s@),
        r is None ==> bls_combined_of(set@, shares@.map_values(|p: (u64, Vec<u8>)| (p.0, p.1@))) is None,
{
    let set: threshold_crypto::PublicKeySet = bincode::deserialize(set).ok()?;
    let mut decoded = Vec::new();
    for (i, s) in shares {
        decoded.push((*i, threshold_crypto::SignatureShare::from_bytes(<[u8; 96]>::try_from(&s[..]).ok()?).ok()?));
    }
    let sig = set.combine_signatures(decoded.iter().map(|(i, s)| (*i, s))).ok()?;
    Some(sig.to_bytes().to_vec())
}

/// The threshold of a serialised public key set.
///
/// Relies on threshold_crypto's `PublicKeySet::threshold`, after bincode decodes the set.
/// The threshold is the commitment's length minus one, which underflows on a set with no
/// coefficients: `requires` leaves those out.
#[verifier::external_body]
pub(crate) fn bls_set_threshold(set: &[u8]) -> (r: Option<usize>)
    requires
        key_set_nonempty(set@),
    ensures
        r == bls_set_threshold_of(set@),
{
    let set: threshold_crypto::PublicKeySet = bincode::deserialize(set).ok()?;
    Some(set.threshold())
}

/// The main public key of a serialised public key set.
///
/// Relies on threshold_crypto's `PublicKeySet::public_key`, after bincode decodes the set.
/// It reads the commitment's first coefficient, which a set with no coefficients lacks:
/// `requires` leaves those out.
#[verifier::external_body]
pub(crate) fn bls_set_public_key(set: &[u8]) -> (r: Option<Vec<u8>>)
    requires
        key_set_nonempty(set@),
    ensures
        r matches Some(k) ==> bls_set_public_key_of(set@) == Some(k@) && k@.len() == BLS_KEY_LENGTH,
        r is None ==> bls_set_public_key_of(set@) is None,
{
    let set: threshold_crypto::PublicKeySet = bincode::deserialize(set).ok()?;
    Some(set.public_key().to_bytes().to_vec())
}

} // verus!
