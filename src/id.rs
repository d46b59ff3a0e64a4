//! Node identities: signing keys, names and network addresses.
use vstd::prelude::*;
use crate::bytes::copy_bytes;
use crate::crypto::{bls_public_key_of_secret, bls_public_of_secret, ed25519_public_key, ed25519_public_of, sign, ed25519_signature_of, ed25519_valid, ed25519_verify, SECRET_KEY_LENGTH};
use crate::location::XorName;

verus! {

/// A public Ed25519 signing key.
#[derive(Debug)]
pub struct PublicKey(pub Vec<u8>);

/// An Ed25519 signature.
#[derive(Debug)]
pub struct Signature(pub Vec<u8>);

impl PublicKey {
    /// Returns whether `signature` is a valid signature of `message` by this key.
    pub fn verify(&self, message: &[u8], signature: &Signature) -> (r: bool)
        ensures
            r == ed25519_valid(self.0@, message@, signature.0@),
    {
        ed25519_verify(self.0.as_slice(), message, signature.0.as_slice())
    }

    /// The key's bytes.
    pub fn to_bytes(&self) -> (r: Vec<u8>)
        ensures
            r@ == self.0@,
    {
        copy_bytes(self.0.as_slice())
    }
}

/// The name of the node with this public signing key: its bytes.
pub fn name_from_key(public_key: &PublicKey) -> (r: XorName)
    ensures
        r@ == public_key.0@,
{
    public_key.to_bytes()
}

/// Whether the name of the secret signing key `secret` lies in `[start, end]`.
pub open spec fn fits(secret: Seq<u8>, start: Seq<u8>, end: Seq<u8>) -> bool {
    crate::location::lex_le(start, ed25519_public_of(secret)) && crate::location::lex_le(ed25519_public_of(secret), end)
}

/// A node's public identity: its name and its public keys.
#[derive(Debug)]
pub struct PublicId {
    pub name: XorName,
    pub public_signing_key: PublicKey,
    pub public_encryption_key: Vec<u8>,
}

impl PublicId {
    /// The name is the public signing key.
    pub open spec fn wf(&self) -> bool {
        self.name@ == self.public_signing_key.0@
    }

    pub open spec fn name_view(&self) -> Seq<u8> {
        self.name@
    }

    pub open spec fn signing_key_view(&self) -> Seq<u8> {
        self.public_signing_key.0@
    }

    pub open spec fn encryption_key_view(&self) -> Seq<u8> {
        self.public_encryption_key@
    }

    fn new(public_signing_key: PublicKey, public_encryption_key: Vec<u8>) -> (r: Self)
        ensures
            r.wf(),
            r.signing_key_view() == public_signing_key.0@,
            r.encryption_key_view() == public_encryption_key@,
    {
        PublicId { name: name_from_key(&public_signing_key), public_signing_key, public_encryption_key }
    }

    /// The node's name.
    pub fn name(&self) -> (r: &XorName)
        ensures
            r@ == self.name_view(),
    {
        &self.name
    }

    /// Returns whether `sig` is this node's signature of `message`.
    pub fn verify(&self, message: &[u8], sig: &Signature) -> (r: bool)
        ensures
            r == ed25519_valid(self.signing_key_view(), message@, sig.0@),
    {
        self.public_signing_key.verify(message, sig)
    }

    /// The public signing key.
    pub fn public_signing_key(&self) -> (r: &PublicKey)
        ensures
            r.0@ == self.signing_key_view(),
    {
        &self.public_signing_key
    }

    /// The public encryption key.
    pub fn public_encryption_key(&self) -> (r: &Vec<u8>)
        ensures
            r@ == self.encryption_key_view(),
    {
        &self.public_encryption_key
    }

    /// Returns a copy.
    pub fn duplicate(&self) -> (r: Self)
        ensures
            r.name_view() == self.name_view(),
            r.signing_key_view() == self.signing_key_view(),
            r.encryption_key_view() == self.encryption_key_view(),
            r.wf() == self.wf(),
    {
        PublicId {
            name: copy_bytes(self.name.as_slice()),
            public_signing_key: PublicKey(copy_bytes(self.public_signing_key.0.as_slice())),
            public_encryption_key: copy_bytes(self.public_encryption_key.as_slice()),
        }
    }
}

/// A node's full identity: its public identity and its secret keys.
#[derive(Debug)]
pub struct FullId {
    pub public_id: PublicId,
    pub secret_signing_key: Vec<u8>,
    pub secret_encryption_key: Vec<u8>,
}

impl FullId {
    /// The public signing key is the one of the secret signing key.
    pub open spec fn wf(&self) -> bool {
        &&& self.public_id.wf()
        &&& self.secret_signing_key@.len() == SECRET_KEY_LENGTH
        &&& self.public_id.signing_key_view() == ed25519_public_of(self.secret_signing_key@)
    }

    pub open spec fn secret_view(&self) -> Seq<u8> {
        self.secret_signing_key@
    }

    /// The secret encryption key.
    pub open spec fn encryption_secret_view(&self) -> Seq<u8> {
        self.secret_encryption_key@
    }

    fn make(secret_signing_key: Vec<u8>, secret_encryption_key: Vec<u8>, public_encryption_key: Vec<u8>) -> (r: Self)
        requires
            secret_signing_key@.len() == SECRET_KEY_LENGTH,
        ensures
            r.wf(),
            r.secret_view() == secret_signing_key@,
            r.encryption_secret_view() == secret_encryption_key@,
            r.public_id.name_view() == ed25519_public_of(secret_signing_key@),
            r.public_id.encryption_key_view() == public_encryption_key@,
    {
        let public_signing_key = PublicKey(ed25519_public_key(secret_signing_key.as_slice()));
        let public_id = PublicId::new(public_signing_key, public_encryption_key);
        FullId { public_id, secret_signing_key, secret_encryption_key }
    }

    /// Makes the identity of a 32-byte secret signing key and a serialised BLS secret
    /// encryption key, both drawn at random by the caller. `None` when the encryption key
    /// does not decode.
    pub fn gen(secret_signing_key: Vec<u8>, secret_encryption_key: Vec<u8>) -> (r: Option<Self>)
        requires
            secret_signing_key@.len() == SECRET_KEY_LENGTH,
        ensures
            r is Some <==> bls_public_of_secret(secret_encryption_key@) is Some,
            r matches Some(id) ==> id.wf() && id.secret_view() == secret_signing_key@
                && id.encryption_secret_view() == secret_encryption_key@
                && id.public_id.name_view() == ed25519_public_of(secret_signing_key@)
                && Some(id.public_id.encryption_key_view()) == bls_public_of_secret(secret_encryption_key@),
    {
        let public_encryption_key = match bls_public_key_of_secret(secret_encryption_key.as_slice()) {
            Some(k) => k,
            None => return None,
        };
        Some(FullId::make(secret_signing_key, secret_encryption_key, public_encryption_key))
    }

    /// Makes the identity of the first candidate secret signing key whose name lies in
    /// `[start, end]` (byte-wise order), if any, with the given encryption key. `None` also
    /// when the encryption key does not decode.
    pub fn within_range(
        candidates: &Vec<Vec<u8>>,
        start: &[u8],
        end: &[u8],
        secret_encryption_key: Vec<u8>,
    ) -> (r: Option<Self>)
        requires
            forall|i: int| 0 <= i < candidates@.len() ==> (#[trigger] candidates@[i])@.len() == SECRET_KEY_LENGTH,
        ensures
            r matches Some(id) ==> id.wf() && fits(id.secret_view(), start@, end@)
                && Some(id.public_id.encryption_key_view()) == bls_public_of_secret(secret_encryption_key@),
            r matches Some(id) ==> crate::bytes::seqs_of(candidates@).contains(id.secret_view()),
            bls_public_of_secret(secret_encryption_key@) is None ==> r is None,
            r is None && bls_public_of_secret(secret_encryption_key@) is Some
                ==> forall|i: int| 0 <= i < candidates@.len() ==> !fits(#[trigger] candidates@[i]@, start@, end@),
    {
        let public_encryption_key = match bls_public_key_of_secret(secret_encryption_key.as_slice()) {
            Some(k) => k,
            None => return None,
        };
        let mut i: usize = 0;
        while i < candidates.len()
            invariant
                i <= candidates@.len(),
                forall|j: int| 0 <= j < candidates@.len() ==> (#[trigger] candidates@[j])@.len() == SECRET_KEY_LENGTH,
                forall|j: int| 0 <= j < i ==> !fits(#[trigger] candidates@[j]@, start@, end@),
                Some(public_encryption_key@) == bls_public_of_secret(secret_encryption_key@),
            decreases candidates@.len() - i,
        {
            let public = ed25519_public_key(candidates[i].as_slice());
            if crate::location::lex_le_exec(start, public.as_slice()) && crate::location::lex_le_exec(public.as_slice(), end) {
                let id = FullId::make(copy_bytes(candidates[i].as_slice()), secret_encryption_key, public_encryption_key);
                assert(crate::bytes::seqs_of(candidates@)[i as int] == id.secret_view());
                return Some(id);
            }
            i = i + 1;
        }
        None
    }

    /// The public identity.
    pub fn public_id(&self) -> (r: &PublicId)
        ensures
            r == self.public_id,
    {
        &self.public_id
    }

    /// The public identity, to change.
    pub fn public_id_mut(&mut self) -> (r: &mut PublicId)
        ensures
            *r == old(self).public_id,
    {
        &mut self.public_id
    }

    /// Signs `message` with the secret signing key.
    pub fn sign(&self, message: &[u8]) -> (r: Signature)
        requires
            self.wf(),
        ensures
            r.0@ == ed25519_signature_of(self.secret_view(), message@),
    {
        Signature(sign(message, self.secret_signing_key.as_slice()))
    }
}

/// A network address: IP bytes (4 or 16) and port.
#[derive(Debug)]
pub struct PeerAddr {
    pub ip: Vec<u8>,
    pub port: u16,
}

/// A peer we know by identity and address.
#[derive(Debug)]
pub struct P2pNode {
    pub public_id: PublicId,
    pub peer_addr: PeerAddr,
}

impl P2pNode {
    /// Creates a peer from its identity and address.
    pub fn new(public_id: PublicId, addr: PeerAddr) -> (r: Self)
        ensures
            r.public_id == public_id,
            r.peer_addr == addr,
    {
        P2pNode { public_id, peer_addr: addr }
    }

    /// The identity.
    pub fn public_id(&self) -> (r: &PublicId)
        ensures
            r == self.public_id,
    {
        &self.public_id
    }

    /// The name of the identity.
    pub fn name(&self) -> (r: &XorName)
        ensures
            r@ == self.public_id.name_view(),
    {
        self.public_id.name()
    }

    /// The address.
    pub fn peer_addr(&self) -> (r: &PeerAddr)
        ensures
            r == self.peer_addr,
    {
        &self.peer_addr
    }
}

} // verus!
