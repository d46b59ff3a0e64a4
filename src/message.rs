//! The message envelope: source, destination, payload, proof chain and destination key,
//! with its wire form, its signature checks and its trust verification.
use vstd::prelude::*;
use crate::bytes::{bytes_eq, copy_bytes, seqs_of};
use crate::chain::{ExtendError, SectionKey, SectionProofChain, TrustStatus};
use crate::codec::{enc_bytes, enc_opt_bytes, get_bytes, get_u8, holds_at, lemma_holds_split, put_bytes, put_opt_bytes, put_u8};
use crate::crypto::{bls_valid, bls_verify, ed25519_public_key, ed25519_public_of, sign, ed25519_signature_of, ed25519_valid, ed25519_verify, sha3_256, sha3_256_of, SECRET_KEY_LENGTH};
use crate::location::{DstLocation, Prefix, SrcLocation};
use crate::variant::Variant;

verus! {

/// Errors of message handling.
#[derive(Clone, Copy, Debug, PartialEq, Eq, Structural)]
pub enum Error {
    /// A frame does not decode.
    Serialisation,
    /// The outer signature does not verify.
    FailedSignature,
    /// The proof chain has a link that does not verify.
    UntrustedMessage,
    /// A required field is missing, such as the proof chain of a section message.
    InvalidMessage,
}

/// Why a message could not be made from bytes.
#[derive(Clone, Copy, Debug, PartialEq, Eq, Structural)]
pub enum CreateError {
    /// The bytes are not the encoding of a message.
    Decode,
    /// The message's own signature does not verify.
    FailedSignature,
}

impl CreateError {
    /// The message-handling error for this one.
    pub fn to_error(self) -> (r: Error)
        ensures
            self == CreateError::Decode ==> r == Error::Serialisation,
            self == CreateError::FailedSignature ==> r == Error::FailedSignature,
    {
        match self {
            CreateError::Decode => Error::Serialisation,
            CreateError::FailedSignature => Error::FailedSignature,
        }
    }
}

/// Why `Message::extend_proof_chain` failed.
#[derive(Clone, Copy, Debug, PartialEq, Eq, Structural)]
pub enum ExtendProofChainError {
    /// The message has no proof chain.
    NoProofChain,
    /// The proof chain could not be extended.
    Extend(ExtendError),
}

/// How far a message could be verified.
#[derive(Clone, Copy, Debug, PartialEq, Eq, Structural)]
pub enum VerifyStatus {
    /// Signed and trusted.
    Full,
    /// Signed, with a valid proof chain that no trusted key anchors; to be relayed.
    Unknown,
}

/// What to do with an incoming message.
#[derive(Clone, Copy, Debug, PartialEq, Eq, Structural)]
pub enum MessageStatus {
    /// To be handled.
    Useful,
    /// To be dropped.
    Useless,
    /// Its trust cannot be established.
    Untrusted,
    /// It cannot be handled in our current state.
    Unknown,
}

/// The attestation of a message's source.
#[derive(Debug)]
pub enum SrcAuthority {
    /// A single node, which signed with Ed25519.
    Node { public_key: Vec<u8>, age: u8, signature: Vec<u8> },
    /// A section, which signed with the last key of the proof chain.
    Section { prefix: Prefix, signature: Vec<u8> },
}

impl SrcAuthority {
    /// Encoding: a tag byte, then the fields.
    pub open spec fn enc(&self) -> Seq<u8> {
        match self {
            SrcAuthority::Node { public_key, age, signature } =>
                seq![0u8] + enc_bytes(public_key@) + seq![*age] + enc_bytes(signature@),
            SrcAuthority::Section { prefix, signature } =>
                seq![1u8] + prefix.enc() + enc_bytes(signature@),
        }
    }

    /// Field-wise equality.
    pub open spec fn same(&self, o: &SrcAuthority) -> bool {
        match (self, o) {
            (SrcAuthority::Node { public_key: k1, age: a1, signature: s1 }, SrcAuthority::Node { public_key: k2, age: a2, signature: s2 }) =>
                k1@ == k2@ && a1 == a2 && s1@ == s2@,
            (SrcAuthority::Section { prefix: p1, signature: s1 }, SrcAuthority::Section { prefix: p2, signature: s2 }) =>
                p1.enc() == p2.enc() && s1@ == s2@,
            _ => false,
        }
    }

    /// Where the message comes from: a node is named by its public key.
    pub fn src_location(&self) -> (r: SrcLocation)
        ensures
            self matches SrcAuthority::Node { public_key, .. } ==> r matches SrcLocation::Node(n) && n@ == public_key@,
            self matches SrcAuthority::Section { prefix, .. } ==> r matches SrcLocation::Section(p) && p.enc() == prefix.enc(),
    {
        match self {
            SrcAuthority::Node { public_key, .. } => SrcLocation::Node(copy_bytes(public_key.as_slice())),
            SrcAuthority::Section { prefix, .. } => SrcLocation::Section(prefix.duplicate()),
        }
    }

    pub fn encode(&self, out: &mut Vec<u8>)
        ensures
            final(out)@ == old(out)@ + self.enc(),
    {
        let ghost o = out@;
        match self {
            SrcAuthority::Node { public_key, age, signature } => {
                put_u8(out, 0);
                put_bytes(out, public_key.as_slice());
                put_u8(out, *age);
                put_bytes(out, signature.as_slice());
            },
            SrcAuthority::Section { prefix, signature } => {
                put_u8(out, 1);
                prefix.encode(out);
                put_bytes(out, signature.as_slice());
            },
        }
        assert(out@ =~= o + self.enc());
    }

    pub fn decode(buf: &[u8], pos: usize) -> (r: Option<(SrcAuthority, usize)>)
        ensures
            r matches Some((v, p)) ==> p == pos + v.enc().len() && holds_at(buf@, pos as int, v.enc()),
            forall|w: SrcAuthority| #[trigger] holds_at(buf@, pos as int, w.enc()) ==> (r matches Some((v, _)) && v.same(&w)),
    {
        let (tag, p1) = match get_u8(buf, pos) {
            Some(x) => x,
            None => {
                proof {
                    assert forall|w: SrcAuthority| !#[trigger] holds_at(buf@, pos as int, w.enc()) by {
                        lemma_holds_split(buf@, pos as int, seq![w.enc()[0]], w.enc().subrange(1, w.enc().len() as int));
                        assert(seq![w.enc()[0]] + w.enc().subrange(1, w.enc().len() as int) =~= w.enc());
                    }
                }
                return None;
            },
        };
        if tag == 0 {
            proof {
                assert forall|w: SrcAuthority| #[trigger] holds_at(buf@, pos as int, w.enc()) implies
                    w matches SrcAuthority::Node { public_key, age, signature } &&
                    holds_at(buf@, pos + 1, enc_bytes(public_key@)) &&
                    holds_at(buf@, pos + 1 + enc_bytes(public_key@).len(), seq![age]) &&
                    holds_at(buf@, pos + 2 + enc_bytes(public_key@).len(), enc_bytes(signature@)) by {
                    assert(w.enc()[0] == buf@[pos as int]);
                    if let SrcAuthority::Node { public_key, age, signature } = w {
                        let a = seq![0u8];
                        let b = enc_bytes(public_key@);
                        let c = seq![age];
                        let d = enc_bytes(signature@);
                        assert(w.enc() == a + b + c + d);
                        lemma_holds_split(buf@, pos as int, a + b + c, d);
                        lemma_holds_split(buf@, pos as int, a + b, c);
                        lemma_holds_split(buf@, pos as int, a, b);
                    }
                }
            }
            let (public_key, p2) = match get_bytes(buf, p1) {
                Some(x) => x,
                None => return None,
            };
            let (age, p3) = match get_u8(buf, p2) {
                Some(x) => x,
                None => return None,
            };
            let (signature, p4) = match get_bytes(buf, p3) {
                Some(x) => x,
                None => return None,
            };
            let ghost (k, s) = (public_key@, signature@);
            let v = SrcAuthority::Node { public_key, age, signature };
            proof {
                let a = seq![0u8];
                let b = enc_bytes(k);
                let c = seq![age];
                let d = enc_bytes(s);
                assert(v.enc() == a + b + c + d);
                lemma_holds_split(buf@, pos as int, a, b);
                lemma_holds_split(buf@, pos as int, a + b, c);
                lemma_holds_split(buf@, pos as int, a + b + c, d);
            }
            Some((v, p4))
        } else if tag == 1 {
            proof {
                assert forall|w: SrcAuthority| #[trigger] holds_at(buf@, pos as int, w.enc()) implies
                    w matches SrcAuthority::Section { prefix, signature } &&
                    holds_at(buf@, pos + 1, prefix.enc()) &&
                    holds_at(buf@, pos + 1 + prefix.enc().len(), enc_bytes(signature@)) by {
                    assert(w.enc()[0] == buf@[pos as int]);
                    if let SrcAuthority::Section { prefix, signature } = w {
                        let a = seq![1u8];
                        let b = prefix.enc();
                        let d = enc_bytes(signature@);
                        assert(w.enc() == a + b + d);
                        lemma_holds_split(buf@, pos as int, a + b, d);
                        lemma_holds_split(buf@, pos as int, a, b);
                    }
                }
            }
            let (prefix, p2) = match Prefix::decode(buf, p1) {
                Some(x) => x,
                None => return None,
            };
            let (signature, p3) = match get_bytes(buf, p2) {
                Some(x) => x,
                None => return None,
            };
            let ghost (pe, s) = (prefix.enc(), signature@);
            let v = SrcAuthority::Section { prefix, signature };
            proof {
                let a = seq![1u8];
                let d = enc_bytes(s);
                assert(v.enc() == a + pe + d);
                lemma_holds_split(buf@, pos as int, a, pe);
                lemma_holds_split(buf@, pos as int, a + pe, d);
            }
            Some((v, p3))
        } else {
            proof {
                assert forall|w: SrcAuthority| !#[trigger] holds_at(buf@, pos as int, w.enc()) by {
                    if holds_at(buf@, pos as int, w.enc()) {
                        assert(w.enc()[0] == buf@[pos as int]);
                    }
                }
            }
            None
        }
    }
}

/// Encoding of an optional proof chain: a tag byte, then the chain if there is one.
pub open spec fn enc_opt_chain(c: Option<SectionProofChain>) -> Seq<u8> {
    match c {
        Some(c) => seq![1u8] + c.enc(),
        None => seq![0u8],
    }
}

/// The view of an optional key.
pub open spec fn opt_view(k: Option<SectionKey>) -> Option<Seq<u8>> {
    match k {
        Some(k) => Some(k@),
        None => None,
    }
}

/// Field-wise equality of optional proof chains.
pub open spec fn same_chain(a: Option<SectionProofChain>, b: Option<SectionProofChain>) -> bool {
    match (a, b) {
        (Some(a), Some(b)) => a.keys_view() == b.keys_view() && a.sigs_view() == b.sigs_view(),
        (None, None) => true,
        _ => false,
    }
}

/// The bytes that every signer and verifier of a message uses: its destination, its
/// destination key and its payload. The source is left out, as it carries its own
/// attestation.
pub open spec fn signable(dst: DstLocation, dst_key: Option<SectionKey>, variant: Variant) -> Seq<u8> {
    dst.enc() + enc_opt_bytes(opt_view(dst_key)) + variant.enc()
}

/// Returns the signable bytes of a message's parts.
pub fn signable_bytes(dst: &DstLocation, dst_key: &Option<SectionKey>, variant: &Variant) -> (r: Vec<u8>)
    ensures
        r@ == signable(*dst, *dst_key, *variant),
{
    let mut out: Vec<u8> = Vec::new();
    dst.encode(&mut out);
    put_opt_bytes(&mut out, dst_key);
    variant.encode(&mut out);
    assert(out@ =~= signable(*dst, *dst_key, *variant));
    out
}

/// The content that a section's elders sign together.
#[derive(Debug)]
pub struct PlainMessage {
    /// The prefix of the sending section.
    pub src: Prefix,
    /// Destination location.
    pub dst: DstLocation,
    /// The sender's knowledge of the destination section's key.
    pub dst_key: SectionKey,
    /// The payload.
    pub variant: Variant,
}

impl PlainMessage {
    /// The bytes the elders sign: those of the message it becomes.
    pub open spec fn signable_view(&self) -> Seq<u8> {
        signable(self.dst, Some(self.dst_key), self.variant)
    }

    /// Encoding: the source prefix, then the signable bytes.
    pub open spec fn enc(&self) -> Seq<u8> {
        self.src.enc() + self.signable_view()
    }

    /// Returns the signable bytes.
    pub fn signable_bytes(&self) -> (r: Vec<u8>)
        ensures
            r@ == self.signable_view(),
    {
        let mut out: Vec<u8> = Vec::new();
        self.dst.encode(&mut out);
        put_u8(&mut out, 1);
        put_bytes(&mut out, self.dst_key.as_slice());
        self.variant.encode(&mut out);
        assert(out@ =~= self.signable_view());
        out
    }

    /// Returns the encoding.
    pub fn to_bytes(&self) -> (r: Vec<u8>)
        ensures
            r@ == self.enc(),
    {
        let mut out: Vec<u8> = Vec::new();
        self.src.encode(&mut out);
        let s = self.signable_bytes();
        crate::codec::put_raw(&mut out, s.as_slice());
        assert(out@ =~= self.enc());
        out
    }
}

/// A node's signing identity and age.
#[derive(Debug)]
pub struct Node {
    pub secret_key: Vec<u8>,
    pub public_key: Vec<u8>,
    pub age: u8,
}

impl Node {
    /// The public key is the one of the secret key.
    pub open spec fn wf(&self) -> bool {
        self.secret_key@.len() == SECRET_KEY_LENGTH && self.public_key@ == ed25519_public_of(self.secret_key@)
    }

    /// Creates a node from its 32-byte secret signing key.
    pub fn new(secret_key: Vec<u8>, age: u8) -> (r: Self)
        requires
            secret_key@.len() == SECRET_KEY_LENGTH,
        ensures
            r.wf(),
            r.secret_key@ == secret_key@,
            r.age == age,
    {
        let public_key = ed25519_public_key(secret_key.as_slice());
        Node { secret_key, public_key, age }
    }

    /// The node's name: its public signing key.
    pub fn name(&self) -> (r: Vec<u8>)
        ensures
            r@ == self.public_key@,
    {
        copy_bytes(self.public_key.as_slice())
    }
}

/// A message sent over the network.
#[derive(Debug)]
pub struct Message {
    /// Source authority.
    pub src: SrcAuthority,
    /// Destination location.
    pub dst: DstLocation,
    /// The payload.
    pub variant: Variant,
    /// Proof chain that anchors the message's trust; required for section messages.
    pub proof_chain: Option<SectionProofChain>,
    /// The source's knowledge of the destination section's key.
    pub dst_key: Option<SectionKey>,
    /// The wire form.
    pub serialized: Vec<u8>,
    /// The digest of the wire form.
    pub hash: Vec<u8>,
}

/// The outcome of a trust check, as a verification result.
pub open spec fn status_of(t: TrustStatus) -> Result<VerifyStatus, Error> {
    match t {
        TrustStatus::Trusted => Ok(VerifyStatus::Full),
        TrustStatus::Unknown => Ok(VerifyStatus::Unknown),
        TrustStatus::Invalid => Err(Error::UntrustedMessage),
    }
}

/// The keys of the anchors whose prefix matches `name`, in order.
pub open spec fn anchor_keys_for_name(anchors: Seq<(Prefix, SectionKey)>, name: Seq<u8>) -> Seq<Seq<u8>>
    decreases anchors.len(),
{
    if anchors.len() == 0 {
        Seq::empty()
    } else {
        let rest = anchor_keys_for_name(anchors.drop_last(), name);
        if anchors.last().0.matches_spec(name) { rest.push(anchors.last().1@) } else { rest }
    }
}

/// The keys of the anchors whose prefix is compatible with `prefix`, in order.
pub open spec fn anchor_keys_for_prefix(anchors: Seq<(Prefix, SectionKey)>, prefix: Prefix) -> Seq<Seq<u8>>
    decreases anchors.len(),
{
    if anchors.len() == 0 {
        Seq::empty()
    } else {
        let rest = anchor_keys_for_prefix(anchors.drop_last(), prefix);
        if prefix.compatible_spec(&anchors.last().0) { rest.push(anchors.last().1@) } else { rest }
    }
}

/// The variant-specific part of the verification of a node's message.
pub open spec fn variant_verify(variant: Variant, chain: Option<SectionProofChain>, trusted: Seq<Seq<u8>>) -> Result<VerifyStatus, Error> {
    match variant {
        Variant::NodeApproval(p) => proven_verify(p, chain, trusted),
        Variant::GenesisUpdate(p) => proven_verify(p, chain, trusted),
        _ => Ok(VerifyStatus::Full),
    }
}

/// Verification of a proven value against the attached chain.
pub open spec fn proven_verify(p: crate::variant::Proven, chain: Option<SectionProofChain>, trusted: Seq<Seq<u8>>) -> Result<VerifyStatus, Error> {
    match chain {
        None => Err(Error::InvalidMessage),
        Some(c) => if !p.self_verifies() {
            Err(Error::FailedSignature)
        } else if !c.keys_view().contains(p.public_key@) {
            Err(Error::UntrustedMessage)
        } else {
            status_of(c.trust_view(trusted))
        },
    }
}

impl Message {
    /// Encoding: source, destination, payload, proof chain, destination key.
    pub open spec fn enc(&self) -> Seq<u8> {
        self.src.enc() + self.dst.enc() + self.variant.enc() + enc_opt_chain(self.proof_chain) + enc_opt_bytes(opt_view(self.dst_key))
    }

    /// The signable bytes of this message.
    pub open spec fn signable_view(&self) -> Seq<u8> {
        signable(self.dst, self.dst_key, self.variant)
    }

    /// The attached proof chain, if any, is well formed.
    pub open spec fn chain_wf(&self) -> bool {
        self.proof_chain matches Some(c) ==> c.wf()
    }

    /// The wire form and the digest are those of the fields.
    pub open spec fn wf(&self) -> bool {
        &&& self.chain_wf()
        &&& self.serialized@ == self.enc()
        &&& self.hash@ == sha3_256_of(self.serialized@)
    }

    /// The check on receipt: a node's Ed25519 signature, or a section's BLS signature by the
    /// last key of the proof chain; a section's message without a proof chain fails it.
    pub open spec fn sig_ok(&self) -> bool {
        match self.src {
            SrcAuthority::Node { public_key, signature, .. } => ed25519_valid(public_key@, self.signable_view(), signature@),
            SrcAuthority::Section { signature, .. } => match self.proof_chain {
                Some(c) => bls_valid(c.last_key_view(), signature@, self.signable_view()),
                None => false,
            },
        }
    }

    /// Field-wise equality, leaving out the wire form and the digest.
    pub open spec fn same(&self, o: &Message) -> bool {
        &&& self.src.same(&o.src)
        &&& self.dst.enc() == o.dst.enc()
        &&& self.variant.enc() == o.variant.enc()
        &&& same_chain(self.proof_chain, o.proof_chain)
        &&& opt_view(self.dst_key) == opt_view(o.dst_key)
    }

    /// What `verify` returns under the trust anchors `anchors`.
    pub open spec fn verify_spec(&self, anchors: Seq<(Prefix, SectionKey)>) -> Result<VerifyStatus, Error> {
        match self.src {
            SrcAuthority::Node { public_key, signature, .. } =>
                if !ed25519_valid(public_key@, self.signable_view(), signature@) {
                    Err(Error::FailedSignature)
                } else {
                    variant_verify(self.variant, self.proof_chain, anchor_keys_for_name(anchors, public_key@))
                },
            SrcAuthority::Section { prefix, signature } => match self.proof_chain {
                None => Err(Error::InvalidMessage),
                Some(c) => if !bls_valid(c.last_key_view(), signature@, self.signable_view()) {
                    Err(Error::FailedSignature)
                } else {
                    status_of(c.trust_view(anchor_keys_for_prefix(anchors, prefix)))
                },
            },
        }
    }
}

/// Appends the encoding of an optional chain.
fn put_opt_chain(out: &mut Vec<u8>, c: &Option<SectionProofChain>)
    ensures
        final(out)@ == old(out)@ + enc_opt_chain(*c),
{
    let ghost o = out@;
    match c {
        Some(c) => {
            put_u8(out, 1);
            c.encode(out);
        },
        None => put_u8(out, 0),
    }
    assert(out@ =~= o + enc_opt_chain(*c));
}

/// Reads an optional well-formed chain at `pos`.
fn get_opt_chain(buf: &[u8], pos: usize) -> (r: Option<(Option<SectionProofChain>, usize)>)
    ensures
        r matches Some((v, p)) ==> (v matches Some(c) ==> c.wf()) && p == pos + enc_opt_chain(v).len() && holds_at(buf@, pos as int, enc_opt_chain(v)),
        forall|w: Option<SectionProofChain>| #[trigger] holds_at(buf@, pos as int, enc_opt_chain(w)) && (w matches Some(c) ==> c.wf())
            ==> (r matches Some((v, _)) && same_chain(v, w)),
{
    proof {
        assert forall|w: Option<SectionProofChain>| #[trigger] holds_at(buf@, pos as int, enc_opt_chain(w)) implies
            holds_at(buf@, pos as int, seq![enc_opt_chain(w)[0]]) && (w matches Some(c) ==> holds_at(buf@, pos + 1, c.enc()) && enc_opt_chain(w)[0] == 1)
            && (w is None ==> enc_opt_chain(w)[0] == 0) by {
            match w {
                Some(c) => { lemma_holds_split(buf@, pos as int, seq![1u8], c.enc()); },
                None => { assert(buf@.subrange(pos as int, pos + 1) =~= seq![enc_opt_chain(w)[0]]); },
            }
        }
    }
    let (tag, p1) = match get_u8(buf, pos) {
        Some(x) => x,
        None => return None,
    };
    if tag == 0 {
        return Some((None, p1));
    }
    if tag != 1 {
        return None;
    }
    let (c, p2) = match SectionProofChain::decode(buf, p1) {
        Some(x) => x,
        None => return None,
    };
    let ghost ce = c.enc();
    let v = Some(c);
    proof {
        lemma_holds_split(buf@, pos as int, seq![1u8], ce);
    }
    Some((v, p2))
}

/// Reads an optional byte string at `pos`.
fn get_opt_bytes(buf: &[u8], pos: usize) -> (r: Option<(Option<Vec<u8>>, usize)>)
    ensures
        r matches Some((v, p)) ==> p == pos + enc_opt_bytes(opt_view(v)).len() && holds_at(buf@, pos as int, enc_opt_bytes(opt_view(v))),
        forall|w: Option<Seq<u8>>| #[trigger] holds_at(buf@, pos as int, enc_opt_bytes(w)) ==> (r matches Some((v, _)) && opt_view(v) == w),
{
    proof {
        assert forall|w: Option<Seq<u8>>| #[trigger] holds_at(buf@, pos as int, enc_opt_bytes(w)) implies
            holds_at(buf@, pos as int, seq![enc_opt_bytes(w)[0]]) && (w matches Some(b) ==> holds_at(buf@, pos + 1, enc_bytes(b)) && enc_opt_bytes(w)[0] == 1)
            && (w is None ==> enc_opt_bytes(w)[0] == 0) by {
            match w {
                Some(b) => { lemma_holds_split(buf@, pos as int, seq![1u8], enc_bytes(b)); },
                None => { assert(buf@.subrange(pos as int, pos + 1) =~= seq![enc_opt_bytes(w)[0]]); },
            }
        }
    }
    let (tag, p1) = match get_u8(buf, pos) {
        Some(x) => x,
        None => return None,
    };
    if tag == 0 {
        return Some((None, p1));
    }
    if tag != 1 {
        return None;
    }
    let (b, p2) = match get_bytes(buf, p1) {
        Some(x) => x,
        None => return None,
    };
    let ghost be = b@;
    proof {
        lemma_holds_split(buf@, pos as int, seq![1u8], enc_bytes(be));
    }
    Some((Some(b), p2))
}

impl Message {
    /// Appends the encoding of the fields.
    fn encode_fields(&self, out: &mut Vec<u8>)
        ensures
            final(out)@ == old(out)@ + self.enc(),
    {
        let ghost o = out@;
        self.src.encode(out);
        self.dst.encode(out);
        self.variant.encode(out);
        put_opt_chain(out, &self.proof_chain);
        put_opt_bytes(out, &self.dst_key);
        assert(out@ =~= o + self.enc());
    }

    /// Creates a message from its fields, with its wire form and digest; the signature in
    /// `src` is taken as it is.
    pub fn new_signed(
        src: SrcAuthority,
        dst: DstLocation,
        variant: Variant,
        proof_chain: Option<SectionProofChain>,
        dst_key: Option<SectionKey>,
    ) -> (r: Message)
        requires
            proof_chain matches Some(c) ==> c.wf(),
        ensures
            r.wf(),
            r.src == src,
            r.dst == dst,
            r.variant == variant,
            r.proof_chain == proof_chain,
            r.dst_key == dst_key,
    {
        let mut msg = Message { src, dst, variant, proof_chain, dst_key, serialized: Vec::new(), hash: Vec::new() };
        let mut out: Vec<u8> = Vec::new();
        msg.encode_fields(&mut out);
        assert(out@ =~= msg.enc());
        let hash = sha3_256(out.as_slice());
        msg.serialized = out;
        msg.hash = hash;
        msg
    }

    /// Reads the fields of a message that fill `bytes` exactly.
    fn decode_fields(bytes: &[u8]) -> (r: Option<Message>)
        ensures
            r matches Some(m) ==> m.chain_wf() && m.enc() == bytes@,
            forall|w: Message| #[trigger] w.enc() == bytes@ && w.chain_wf() ==> (r matches Some(m) && m.same(&w)),
    {
        proof {
            assert forall|w: Message| #[trigger] w.enc() == bytes@ && w.chain_wf() implies ({
                let a = w.src.enc();
                let b = w.dst.enc();
                let c = w.variant.enc();
                let d = enc_opt_chain(w.proof_chain);
                let e = enc_opt_bytes(opt_view(w.dst_key));
                &&& holds_at(bytes@, 0, a)
                &&& holds_at(bytes@, a.len() as int, b)
                &&& holds_at(bytes@, (a + b).len() as int, c)
                &&& holds_at(bytes@, (a + b + c).len() as int, d)
                &&& holds_at(bytes@, (a + b + c + d).len() as int, e)
            }) by {
                let a = w.src.enc();
                let b = w.dst.enc();
                let c = w.variant.enc();
                let d = enc_opt_chain(w.proof_chain);
                let e = enc_opt_bytes(opt_view(w.dst_key));
                assert(bytes@.subrange(0, bytes@.len() as int) =~= bytes@);
                assert(holds_at(bytes@, 0, a + b + c + d + e));
                lemma_holds_split(bytes@, 0, a + b + c + d, e);
                lemma_holds_split(bytes@, 0, a + b + c, d);
                lemma_holds_split(bytes@, 0, a + b, c);
                lemma_holds_split(bytes@, 0, a, b);
            }
        }
        let (src, p1) = match SrcAuthority::decode(bytes, 0) {
            Some(x) => x,
            None => return None,
        };
        let (dst, p2) = match DstLocation::decode(bytes, p1) {
            Some(x) => x,
            None => return None,
        };
        let (variant, p3) = match Variant::decode(bytes, p2) {
            Some(x) => x,
            None => return None,
        };
        let (proof_chain, p4) = match get_opt_chain(bytes, p3) {
            Some(x) => x,
            None => return None,
        };
        let (dst_key, p5) = match get_opt_bytes(bytes, p4) {
            Some(x) => x,
            None => return None,
        };
        if p5 != bytes.len() {
            proof {
                assert forall|w: Message| !(#[trigger] w.enc() == bytes@ && w.chain_wf()) by {
                    if w.enc() == bytes@ && w.chain_wf() {
                        assert(src.same(&w.src));
                    }
                }
            }
            return None;
        }
        let m = Message { src, dst, variant, proof_chain, dst_key, serialized: Vec::new(), hash: Vec::new() };
        proof {
            let a = m.src.enc();
            let b = m.dst.enc();
            let c = m.variant.enc();
            let d = enc_opt_chain(m.proof_chain);
            let e = enc_opt_bytes(opt_view(m.dst_key));
            lemma_holds_split(bytes@, 0, a, b);
            lemma_holds_split(bytes@, 0, a + b, c);
            lemma_holds_split(bytes@, 0, a + b + c, d);
            lemma_holds_split(bytes@, 0, a + b + c + d, e);
            assert(bytes@.subrange(0, bytes@.len() as int) =~= bytes@);
        }
        Some(m)
    }
}

/// Copies the keys of the anchors whose prefix matches `name`.
fn keys_for_name(anchors: &Vec<(Prefix, SectionKey)>, name: &[u8]) -> (r: Vec<SectionKey>)
    ensures
        seqs_of(r@) == anchor_keys_for_name(anchors@, name@),
{
    let mut r: Vec<SectionKey> = Vec::new();
    let mut i: usize = 0;
    while i < anchors.len()
        invariant
            i <= anchors@.len(),
            seqs_of(r@) == anchor_keys_for_name(anchors@.subrange(0, i as int), name@),
        decreases anchors@.len() - i,
    {
        let ghost before = r@;
        proof {
            assert(anchors@.subrange(0, i + 1).drop_last() =~= anchors@.subrange(0, i as int));
        }
        if anchors[i].0.matches(name) {
            let k = copy_bytes(anchors[i].1.as_slice());
            r.push(k);
            assert(seqs_of(r@) =~= seqs_of(before).push(anchors@[i as int].1@));
        }
        i = i + 1;
    }
    assert(anchors@.subrange(0, anchors@.len() as int) =~= anchors@);
    r
}

/// Copies the keys of the anchors whose prefix is compatible with `prefix`.
fn keys_for_prefix(anchors: &Vec<(Prefix, SectionKey)>, prefix: &Prefix) -> (r: Vec<SectionKey>)
    ensures
        seqs_of(r@) == anchor_keys_for_prefix(anchors@, *prefix),
{
    let mut r: Vec<SectionKey> = Vec::new();
    let mut i: usize = 0;
    while i < anchors.len()
        invariant
            i <= anchors@.len(),
            seqs_of(r@) == anchor_keys_for_prefix(anchors@.subrange(0, i as int), *prefix),
        decreases anchors@.len() - i,
    {
        let ghost before = r@;
        proof {
            assert(anchors@.subrange(0, i + 1).drop_last() =~= anchors@.subrange(0, i as int));
        }
        if prefix.is_compatible(&anchors[i].0) {
            let k = copy_bytes(anchors[i].1.as_slice());
            r.push(k);
            assert(seqs_of(r@) =~= seqs_of(before).push(anchors@[i as int].1@));
        }
        i = i + 1;
    }
    assert(anchors@.subrange(0, anchors@.len() as int) =~= anchors@);
    r
}

/// Turns a trust status into a verification result.
fn status_from(t: TrustStatus) -> (r: Result<VerifyStatus, Error>)
    ensures
        r == status_of(t),
{
    match t {
        TrustStatus::Trusted => Ok(VerifyStatus::Full),
        TrustStatus::Unknown => Ok(VerifyStatus::Unknown),
        TrustStatus::Invalid => Err(Error::UntrustedMessage),
    }
}

/// Verifies a proven value against the attached chain.
fn verify_proven(p: &crate::variant::Proven, chain: &Option<SectionProofChain>, trusted: &Vec<SectionKey>) -> (r: Result<VerifyStatus, Error>)
    requires
        chain matches Some(c) ==> c.wf(),
    ensures
        r == proven_verify(*p, *chain, seqs_of(trusted@)),
{
    match chain {
        None => Err(Error::InvalidMessage),
        Some(c) => {
            if !p.self_verify() {
                Err(Error::FailedSignature)
            } else if !c.has_key(p.public_key.as_slice()) {
                Err(Error::UntrustedMessage)
            } else {
                status_from(c.check_trust(trusted))
            }
        },
    }
}

/// What `from_bytes` promises for `bytes` and its result `r`: a message comes back exactly
/// when the bytes encode one whose signature checks, and it is that message.
pub open spec fn from_bytes_post(bytes: Seq<u8>, r: Result<Message, CreateError>) -> bool {
    &&& r matches Ok(m) ==> m.wf() && m.serialized@ == bytes && m.sig_ok()
    &&& r == Err::<Message, CreateError>(CreateError::Decode) ==> forall|w: Message| !(#[trigger] w.enc() == bytes && w.chain_wf())
    &&& r == Err::<Message, CreateError>(CreateError::FailedSignature) ==> exists|w: Message| #[trigger] w.enc() == bytes && w.chain_wf() && !w.sig_ok()
    &&& forall|w: Message| #[trigger] w.enc() == bytes && w.chain_wf() ==> (if w.sig_ok() {
            r matches Ok(m) && m.same(&w)
        } else {
            r == Err::<Message, CreateError>(CreateError::FailedSignature)
        })
}

/// Field-wise equal messages have the same signature check.
pub proof fn lemma_same_sig_ok(a: Message, b: Message)
    requires
        a.same(&b),
    ensures
        a.sig_ok() == b.sig_ok(),
        a.signable_view() == b.signable_view(),
{
    assert(a.signable_view() == b.signable_view());
}

impl Message {
    /// Reads a received message and checks its own signature: Ed25519 for a node's
    /// message, BLS by the last key of the proof chain for a section's. A section's message
    /// must carry a proof chain.
    pub fn from_bytes(bytes: &[u8]) -> (r: Result<Message, CreateError>)
        ensures
            from_bytes_post(bytes@, r),
    {
        let m = match Message::decode_fields(bytes) {
            Some(m) => m,
            None => return Err(CreateError::Decode),
        };
        let signed = signable_bytes(&m.dst, &m.dst_key, &m.variant);
        let ok = match &m.src {
            SrcAuthority::Node { public_key, signature, .. } =>
                ed25519_verify(public_key.as_slice(), signed.as_slice(), signature.as_slice()),
            SrcAuthority::Section { signature, .. } => match &m.proof_chain {
                Some(c) => bls_verify(c.last_key().as_slice(), signature.as_slice(), signed.as_slice()),
                None => false,
            },
        };
        proof {
            assert forall|w: Message| #[trigger] w.enc() == bytes@ && w.chain_wf() implies m.same(&w) && m.sig_ok() == w.sig_ok() by {
                lemma_same_sig_ok(m, w);
            }
        }
        if !ok {
            proof {
                assert(m.enc() == bytes@ && m.chain_wf() && !m.sig_ok());
            }
            return Err(CreateError::FailedSignature);
        }
        let serialized = copy_bytes(bytes);
        let hash = sha3_256(bytes);
        let Message { src, dst, variant, proof_chain, dst_key, .. } = m;
        let r = Message { src, dst, variant, proof_chain, dst_key, serialized, hash };
        proof {
            assert forall|w: Message| #[trigger] w.enc() == bytes@ && w.chain_wf() implies r.same(&w) by {
                lemma_same_sig_ok(m, w);
            }
        }
        Ok(r)
    }

    /// The wire form, to send.
    pub fn to_bytes(&self) -> (r: Vec<u8>)
        ensures
            r@ == self.serialized@,
    {
        copy_bytes(self.serialized.as_slice())
    }

    /// Creates a message signed by a single node, with Ed25519 over the signable bytes.
    pub fn single_src(
        node: &Node,
        dst: DstLocation,
        variant: Variant,
        proof_chain: Option<SectionProofChain>,
        dst_key: Option<SectionKey>,
    ) -> (r: Message)
        requires
            node.wf(),
            proof_chain matches Some(c) ==> c.wf(),
        ensures
            r.wf(),
            r.sig_ok(),
            r.src matches SrcAuthority::Node { public_key, age, signature } && public_key@ == node.public_key@
                && age == node.age && signature@ == ed25519_signature_of(node.secret_key@, signable(dst, dst_key, variant)),
            r.dst == dst,
            r.variant == variant,
            r.proof_chain == proof_chain,
            r.dst_key == dst_key,
    {
        let signed = signable_bytes(&dst, &dst_key, &variant);
        let signature = sign(signed.as_slice(), node.secret_key.as_slice());
        let src = SrcAuthority::Node { public_key: copy_bytes(node.public_key.as_slice()), age: node.age, signature };
        Message::new_signed(src, dst, variant, proof_chain, dst_key)
    }

    /// Creates a message from a section, with `signature` already combined and not checked
    /// here.
    pub fn section_src(plain: PlainMessage, signature: Vec<u8>, proof_chain: SectionProofChain) -> (r: Message)
        requires
            proof_chain.wf(),
        ensures
            r.wf(),
            r.src matches SrcAuthority::Section { prefix, signature: s } && prefix == plain.src && s@ == signature@,
            r.dst == plain.dst,
            r.variant == plain.variant,
            r.proof_chain == Some(proof_chain),
            r.dst_key == Some(plain.dst_key),
    {
        let PlainMessage { src, dst, dst_key, variant } = plain;
        Message::new_signed(SrcAuthority::Section { prefix: src, signature }, dst, variant, Some(proof_chain), Some(dst_key))
    }

    /// Verifies that this message is properly signed, and how far it can be trusted from
    /// the trust anchors `anchors`.
    pub fn verify(&self, anchors: &Vec<(Prefix, SectionKey)>) -> (r: Result<VerifyStatus, Error>)
        requires
            self.chain_wf(),
        ensures
            r == self.verify_spec(anchors@),
    {
        let bytes = signable_bytes(&self.dst, &self.dst_key, &self.variant);
        match &self.src {
            SrcAuthority::Node { public_key, signature, .. } => {
                if !ed25519_verify(public_key.as_slice(), bytes.as_slice(), signature.as_slice()) {
                    return Err(Error::FailedSignature);
                }
                let trusted = keys_for_name(anchors, public_key.as_slice());
                match &self.variant {
                    Variant::NodeApproval(p) => verify_proven(p, &self.proof_chain, &trusted),
                    Variant::GenesisUpdate(p) => verify_proven(p, &self.proof_chain, &trusted),
                    _ => Ok(VerifyStatus::Full),
                }
            },
            SrcAuthority::Section { prefix, signature } => {
                let chain = match &self.proof_chain {
                    Some(c) => c,
                    None => return Err(Error::InvalidMessage),
                };
                if !bls_verify(chain.last_key().as_slice(), signature.as_slice(), bytes.as_slice()) {
                    return Err(Error::FailedSignature);
                }
                let trusted = keys_for_prefix(anchors, prefix);
                status_from(chain.check_trust(&trusted))
            },
        }
    }

    /// Extends the proof chain so that it starts at `new_first_key`, with keys taken from
    /// `section_chain`, keeping its last key and therefore the signature.
    pub fn extend_proof_chain(self, new_first_key: &[u8], section_chain: &SectionProofChain) -> (r: Result<Message, ExtendProofChainError>)
        requires
            self.chain_wf(),
            section_chain.wf(),
        ensures
            self.proof_chain is None ==> r == Err::<Message, ExtendProofChainError>(ExtendProofChainError::NoProofChain),
            self.proof_chain matches Some(c) ==> match crate::chain::extend_result(c.keys_view(), section_chain.keys_view(), new_first_key@) {
                Err(e) => r == Err::<Message, ExtendProofChainError>(ExtendProofChainError::Extend(e)),
                Ok(_) => r matches Ok(m) && extended(self, new_first_key@, *section_chain, m),
            },
    {
        let Message { src, dst, variant, proof_chain, dst_key, .. } = self;
        let mut chain = match proof_chain {
            Some(c) => c,
            None => return Err(ExtendProofChainError::NoProofChain),
        };
        match chain.extend(new_first_key, section_chain) {
            Ok(()) => {},
            Err(e) => return Err(ExtendProofChainError::Extend(e)),
        }
        Ok(Message::new_signed(src, dst, variant, Some(chain), dst_key))
    }

    /// The destination.
    pub fn dst(&self) -> (r: &DstLocation)
        ensures
            r == self.dst,
    {
        &self.dst
    }

    /// The payload.
    pub fn variant(&self) -> (r: &Variant)
        ensures
            r == self.variant,
    {
        &self.variant
    }

    /// The source authority.
    pub fn src(&self) -> (r: &SrcAuthority)
        ensures
            r == self.src,
    {
        &self.src
    }

    /// The source's knowledge of the destination key.
    pub fn dst_key(&self) -> (r: &Option<SectionKey>)
        ensures
            r == self.dst_key,
    {
        &self.dst_key
    }

    /// The digest of the wire form.
    pub fn hash(&self) -> (r: &Vec<u8>)
        ensures
            r == self.hash,
    {
        &self.hash
    }

    /// The attached proof chain; a message without one is invalid here.
    pub fn proof_chain(&self) -> (r: Result<&SectionProofChain, Error>)
        ensures
            self.proof_chain matches Some(c) ==> r == Ok::<&SectionProofChain, Error>(&c),
            self.proof_chain is None ==> r == Err::<&SectionProofChain, Error>(Error::InvalidMessage),
    {
        match &self.proof_chain {
            Some(c) => Ok(c),
            None => Err(Error::InvalidMessage),
        }
    }

    /// The last key of the attached proof chain.
    pub fn proof_chain_last_key(&self) -> (r: Result<&SectionKey, Error>)
        requires
            self.chain_wf(),
        ensures
            self.proof_chain matches Some(c) ==> r matches Ok(k) && k@ == c.last_key_view(),
            self.proof_chain is None ==> r == Err::<&SectionKey, Error>(Error::InvalidMessage),
    {
        match &self.proof_chain {
            Some(c) => Ok(c.last_key()),
            None => Err(Error::InvalidMessage),
        }
    }
}

/// `m2` is `m` with its proof chain extended to start at `k`, with keys of `donor`.
pub open spec fn extended(m: Message, k: Seq<u8>, donor: SectionProofChain, m2: Message) -> bool {
    &&& m2.wf()
    &&& m2.src == m.src
    &&& m2.dst == m.dst
    &&& m2.variant == m.variant
    &&& m2.dst_key == m.dst_key
    &&& m.proof_chain matches Some(c) && m2.proof_chain matches Some(c2) && ({
        let ks = c.keys_view();
        let i = if k == ks[0] { 0 } else { crate::bytes::first_index(donor.keys_view(), k)->0 };
        let j = if k == ks[0] { 0 } else { crate::bytes::first_index(donor.keys_view(), ks[0])->0 };
        &&& c2.wf()
        &&& c2.keys_view() == donor.keys_view().subrange(i, j) + ks
        &&& c2.sigs_view() == donor.sigs_view().subrange(i, j) + c.sigs_view()
    })
}

/// Round trip: a well-formed message whose own signature checks reads back from its wire
/// form as a message equal to it on every field.
pub proof fn lemma_round_trip(m: Message, r: Result<Message, CreateError>)
    requires
        m.wf(),
        m.sig_ok(),
        from_bytes_post(m.serialized@, r),
    ensures
        r matches Ok(m2) && m2.same(&m) && m2.enc() == m.enc() && m2.serialized@ == m.serialized@ && m2.wf(),
{
    assert(m.enc() == m.serialized@ && m.chain_wf());
    lemma_same_enc(r->Ok_0, m);
}

/// Extending the proof chain of a section's message keeps it verifiable under the same trust
/// anchors, with at least the same status: a message verified as `Full` stays `Full`, one
/// verified as `Unknown` stays verified. This holds when the message's chain and the donor
/// chain have only valid links; otherwise a broken link that the first check skipped can
/// come to matter once an earlier key is trusted.
pub proof fn lemma_extend_keeps_trust(
    m: Message,
    k: Seq<u8>,
    donor: SectionProofChain,
    m2: Message,
    anchors: Seq<(Prefix, SectionKey)>,
)
    requires
        m.src is Section,
        m.chain_wf(),
        m.proof_chain matches Some(c) && c.self_verifies()
            && crate::chain::extend_result(c.keys_view(), donor.keys_view(), k) is Ok,
        donor.wf(),
        donor.self_verifies(),
        m.verify_spec(anchors) is Ok,
        extended(m, k, donor, m2),
    ensures
        m2.verify_spec(anchors) is Ok,
        m.verify_spec(anchors) == Ok::<VerifyStatus, Error>(VerifyStatus::Full) ==> m2.verify_spec(anchors) == Ok::<VerifyStatus, Error>(VerifyStatus::Full),
{
    let c = m.proof_chain->0;
    let c2 = m2.proof_chain->0;
    let ks = c.keys_view();
    let dk = donor.keys_view();
    let i = if k == ks[0] { 0 } else { crate::bytes::first_index(dk, k)->0 };
    let j = if k == ks[0] { 0 } else { crate::bytes::first_index(dk, ks[0])->0 };
    if k != ks[0] {
        crate::bytes::lemma_first_index_some(dk, k);
        crate::bytes::lemma_first_index_some(dk, ks[0]);
    }
    assert(m2.signable_view() == m.signable_view());
    if let SrcAuthority::Section { prefix, signature } = m.src {
        let t = anchor_keys_for_prefix(anchors, prefix);
        crate::chain::lemma_stitch(c, donor, i, j, c2, t);
    }
}

/// Field-wise equal messages have the same encoding.
pub proof fn lemma_same_enc(a: Message, b: Message)
    requires
        a.same(&b),
    ensures
        a.enc() == b.enc(),
{
    assert(a.src.enc() == b.src.enc());
    assert(enc_opt_chain(a.proof_chain) == enc_opt_chain(b.proof_chain));
}

impl PartialEq for Message {
    /// Messages are equal when their fields are, whatever their stored wire form.
    fn eq(&self, o: &Message) -> (r: bool) {
        let mut a: Vec<u8> = Vec::new();
        self.encode_fields(&mut a);
        let mut b: Vec<u8> = Vec::new();
        o.encode_fields(&mut b);
        assert(a@ =~= self.enc());
        assert(b@ =~= o.enc());
        bytes_eq(a.as_slice(), b.as_slice())
    }
}

impl vstd::std_specs::cmp::PartialEqSpecImpl for Message {
    open spec fn obeys_eq_spec() -> bool {
        true
    }

    open spec fn eq_spec(&self, o: &Message) -> bool {
        self.enc() == o.enc()
    }
}

} // verus!
