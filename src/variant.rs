//! Message payloads and their wire form.
use vstd::prelude::*;
use crate::bytes::{copy_bytes, copy_range, seqs_of};
use crate::chain::SectionKey;
use crate::codec::{enc_bytes, enc_list, enc_u64, get_bytes, get_list, get_u64, get_u8, holds_at, lemma_enc_u64_len, lemma_holds_split, put_bytes, put_list, put_u64, put_u8};
use crate::crypto::{bls_valid, bls_verify};
use crate::location::{Prefix, XorName};

verus! {

/// The elders of a section, with its prefix.
#[derive(Debug)]
pub struct EldersInfo {
    pub prefix: Prefix,
    pub elders: Vec<XorName>,
}

/// A value signed by a section key: `signature` is by `public_key` over the value's encoding.
#[derive(Debug)]
pub struct Proven {
    pub value: EldersInfo,
    pub public_key: SectionKey,
    pub signature: Vec<u8>,
}

/// The answer to a bootstrap request.
#[derive(Debug)]
pub enum BootstrapResponse {
    /// The requester may join the section of these elders.
    Join(EldersInfo),
    /// The requester should bootstrap again to one of these addresses.
    Rebootstrap(Vec<Vec<u8>>),
}

/// The payload of a message.
#[derive(Debug)]
pub enum Variant {
    /// Bytes for the application.
    UserMessage(Vec<u8>),
    /// A request to bootstrap, with the requester's name.
    BootstrapRequest(XorName),
    /// The answer to a bootstrap request.
    BootstrapResponse(BootstrapResponse),
    /// A request to join, with the section key the joiner knows.
    JoinRequest(SectionKey),
    /// Approval of a joining node, with the proven elders of its section.
    NodeApproval(Proven),
    /// A consensus gossip request: engine version and payload.
    ParsecRequest(u64, Vec<u8>),
    /// A consensus gossip response: engine version and payload.
    ParsecResponse(u64, Vec<u8>),
    /// A message the receiver could not handle yet, sent back with its consensus version.
    BouncedUnknownMessage { message: Vec<u8>, parsec_version: u64 },
    /// A message whose proof chain the receiver could not trust, sent back whole.
    BouncedUntrustedMessage(Vec<u8>),
    /// The proven elders of a section, sent by an elder to the adults.
    GenesisUpdate(Proven),
}

impl EldersInfo {
    /// Encoding: the prefix, then the list of elder names.
    pub open spec fn enc(&self) -> Seq<u8> {
        self.prefix.enc() + enc_list(seqs_of(self.elders@))
    }

    pub fn encode(&self, out: &mut Vec<u8>)
        ensures
            final(out)@ == old(out)@ + self.enc(),
    {
        let ghost o = out@;
        self.prefix.encode(out);
        put_list(out, &self.elders);
        assert(out@ =~= o + self.enc());
    }

    pub fn decode(buf: &[u8], pos: usize) -> (r: Option<(EldersInfo, usize)>)
        ensures
            r matches Some((v, p)) ==> p == pos + v.enc().len() && holds_at(buf@, pos as int, v.enc()),
            forall|w: EldersInfo| #[trigger] holds_at(buf@, pos as int, w.enc()) ==> (r matches Some((v, _)) && v.enc() == w.enc()),
    {
        proof {
            assert forall|w: EldersInfo| #[trigger] holds_at(buf@, pos as int, w.enc()) implies
                holds_at(buf@, pos as int, w.prefix.enc()) && holds_at(buf@, pos + w.prefix.enc().len(), enc_list(seqs_of(w.elders@))) by {
                lemma_holds_split(buf@, pos as int, w.prefix.enc(), enc_list(seqs_of(w.elders@)));
            }
        }
        let (prefix, p1) = match Prefix::decode(buf, pos) {
            Some(x) => x,
            None => return None,
        };
        let (elders, p2) = match get_list(buf, p1) {
            Some(x) => x,
            None => return None,
        };
        let v = EldersInfo { prefix, elders };
        proof {
            lemma_holds_split(buf@, pos as int, v.prefix.enc(), enc_list(seqs_of(v.elders@)));
        }
        Some((v, p2))
    }

    pub fn duplicate(&self) -> (r: Self)
        ensures
            r.enc() == self.enc(),
    {
        let elders = copy_range(&self.elders, 0, self.elders.len());
        assert(seqs_of(self.elders@).subrange(0, self.elders@.len() as int) =~= seqs_of(self.elders@));
        EldersInfo { prefix: self.prefix.duplicate(), elders }
    }
}

impl Proven {
    /// Encoding: the value, the key, then the signature.
    pub open spec fn enc(&self) -> Seq<u8> {
        self.value.enc() + enc_bytes(self.public_key@) + enc_bytes(self.signature@)
    }

    /// Whether the signature is valid under the key over the value's encoding.
    pub open spec fn self_verifies(&self) -> bool {
        bls_valid(self.public_key@, self.signature@, self.value.enc())
    }

    /// Returns whether the signature is valid under the key over the value's encoding.
    pub fn self_verify(&self) -> (r: bool)
        ensures
            r == self.self_verifies(),
    {
        let mut bytes: Vec<u8> = Vec::new();
        self.value.encode(&mut bytes);
        assert(bytes@ =~= self.value.enc());
        bls_verify(self.public_key.as_slice(), self.signature.as_slice(), bytes.as_slice())
    }

    pub fn encode(&self, out: &mut Vec<u8>)
        ensures
            final(out)@ == old(out)@ + self.enc(),
    {
        let ghost o = out@;
        self.value.encode(out);
        put_bytes(out, self.public_key.as_slice());
        put_bytes(out, self.signature.as_slice());
        assert(out@ =~= o + self.enc());
    }

    pub fn decode(buf: &[u8], pos: usize) -> (r: Option<(Proven, usize)>)
        ensures
            r matches Some((v, p)) ==> p == pos + v.enc().len() && holds_at(buf@, pos as int, v.enc()),
            forall|w: Proven| #[trigger] holds_at(buf@, pos as int, w.enc()) ==> (r matches Some((v, _)) && v.enc() == w.enc()),
    {
        proof {
            assert forall|w: Proven| #[trigger] holds_at(buf@, pos as int, w.enc()) implies
                holds_at(buf@, pos as int, w.value.enc())
                && holds_at(buf@, pos + w.value.enc().len(), enc_bytes(w.public_key@))
                && holds_at(buf@, pos + w.value.enc().len() + enc_bytes(w.public_key@).len(), enc_bytes(w.signature@)) by {
                lemma_holds_split(buf@, pos as int, w.value.enc() + enc_bytes(w.public_key@), enc_bytes(w.signature@));
                lemma_holds_split(buf@, pos as int, w.value.enc(), enc_bytes(w.public_key@));
            }
        }
        let (value, p1) = match EldersInfo::decode(buf, pos) {
            Some(x) => x,
            None => return None,
        };
        let (public_key, p2) = match get_bytes(buf, p1) {
            Some(x) => x,
            None => return None,
        };
        let (signature, p3) = match get_bytes(buf, p2) {
            Some(x) => x,
            None => return None,
        };
        let v = Proven { value, public_key, signature };
        proof {
            lemma_holds_split(buf@, pos as int, v.value.enc(), enc_bytes(v.public_key@));
            lemma_holds_split(buf@, pos as int, v.value.enc() + enc_bytes(v.public_key@), enc_bytes(v.signature@));
        }
        Some((v, p3))
    }

    pub fn duplicate(&self) -> (r: Self)
        ensures
            r.enc() == self.enc(),
            r.public_key@ == self.public_key@,
            r.signature@ == self.signature@,
            r.value.enc() == self.value.enc(),
    {
        Proven {
            value: self.value.duplicate(),
            public_key: copy_bytes(self.public_key.as_slice()),
            signature: copy_bytes(self.signature.as_slice()),
        }
    }
}

/// The encoding of a tag byte followed by a byte string.
pub open spec fn enc_tagged_bytes(t: u8, b: Seq<u8>) -> Seq<u8> {
    seq![t] + enc_bytes(b)
}

/// The encoding of a tag byte, an integer and a byte string.
pub open spec fn enc_tagged_num_bytes(t: u8, n: u64, b: Seq<u8>) -> Seq<u8> {
    seq![t] + enc_u64(n) + enc_bytes(b)
}

impl Variant {
    /// Encoding: a tag byte, then the payload.
    pub open spec fn enc(&self) -> Seq<u8> {
        match self {
            Variant::UserMessage(b) => enc_tagged_bytes(0, b@),
            Variant::BootstrapRequest(b) => enc_tagged_bytes(1, b@),
            Variant::BootstrapResponse(BootstrapResponse::Join(info)) => seq![2u8] + info.enc(),
            Variant::BootstrapResponse(BootstrapResponse::Rebootstrap(l)) => seq![3u8] + enc_list(seqs_of(l@)),
            Variant::JoinRequest(b) => enc_tagged_bytes(4, b@),
            Variant::NodeApproval(p) => seq![5u8] + p.enc(),
            Variant::ParsecRequest(n, b) => enc_tagged_num_bytes(6, *n, b@),
            Variant::ParsecResponse(n, b) => enc_tagged_num_bytes(7, *n, b@),
            Variant::BouncedUnknownMessage { message, parsec_version } => enc_tagged_num_bytes(8, *parsec_version, message@),
            Variant::BouncedUntrustedMessage(b) => enc_tagged_bytes(9, b@),
            Variant::GenesisUpdate(p) => seq![10u8] + p.enc(),
        }
    }

    pub fn encode(&self, out: &mut Vec<u8>)
        ensures
            final(out)@ == old(out)@ + self.enc(),
    {
        let ghost o = out@;
        match self {
            Variant::UserMessage(b) => { put_u8(out, 0); put_bytes(out, b.as_slice()); },
            Variant::BootstrapRequest(b) => { put_u8(out, 1); put_bytes(out, b.as_slice()); },
            Variant::BootstrapResponse(BootstrapResponse::Join(info)) => { put_u8(out, 2); info.encode(out); },
            Variant::BootstrapResponse(BootstrapResponse::Rebootstrap(l)) => { put_u8(out, 3); put_list(out, l); },
            Variant::JoinRequest(b) => { put_u8(out, 4); put_bytes(out, b.as_slice()); },
            Variant::NodeApproval(p) => { put_u8(out, 5); p.encode(out); },
            Variant::ParsecRequest(n, b) => { put_u8(out, 6); put_u64(out, *n); put_bytes(out, b.as_slice()); },
            Variant::ParsecResponse(n, b) => { put_u8(out, 7); put_u64(out, *n); put_bytes(out, b.as_slice()); },
            Variant::BouncedUnknownMessage { message, parsec_version } => {
                put_u8(out, 8);
                put_u64(out, *parsec_version);
                put_bytes(out, message.as_slice());
            },
            Variant::BouncedUntrustedMessage(b) => { put_u8(out, 9); put_bytes(out, b.as_slice()); },
            Variant::GenesisUpdate(p) => { put_u8(out, 10); p.encode(out); },
        }
        assert(out@ =~= o + self.enc());
    }

    /// The tag byte of the encoding.
    pub open spec fn tag(&self) -> u8 {
        self.enc()[0]
    }

    /// The encoding without its tag byte.
    pub open spec fn payload(&self) -> Seq<u8> {
        self.enc().subrange(1, self.enc().len() as int)
    }

    pub proof fn lemma_tag_payload(&self)
        ensures
            self.enc() == seq![self.tag()] + self.payload(),
            self.tag() <= 10,
            self.tag() == 0 <==> self is UserMessage,
            self.tag() == 1 <==> self is BootstrapRequest,
            self.tag() == 2 <==> self matches Variant::BootstrapResponse(BootstrapResponse::Join(_)),
            self.tag() == 3 <==> self matches Variant::BootstrapResponse(BootstrapResponse::Rebootstrap(_)),
            self.tag() == 4 <==> self is JoinRequest,
            self.tag() == 5 <==> self is NodeApproval,
            self.tag() == 6 <==> self is ParsecRequest,
            self.tag() == 7 <==> self is ParsecResponse,
            self.tag() == 8 <==> self is BouncedUnknownMessage,
            self.tag() == 9 <==> self is BouncedUntrustedMessage,
            self.tag() == 10 <==> self is GenesisUpdate,
    {
        assert(self.enc() =~= seq![self.tag()] + self.payload());
    }

    pub fn decode(buf: &[u8], pos: usize) -> (r: Option<(Variant, usize)>)
        ensures
            r matches Some((v, p)) ==> p == pos + v.enc().len() && holds_at(buf@, pos as int, v.enc()),
            forall|w: Variant| #[trigger] holds_at(buf@, pos as int, w.enc()) ==> (r matches Some((v, _)) && v.enc() == w.enc()),
    {
        proof {
            assert forall|w: Variant| #[trigger] holds_at(buf@, pos as int, w.enc()) implies
                holds_at(buf@, pos as int, seq![w.tag()]) && holds_at(buf@, pos + 1, w.payload()) by {
                w.lemma_tag_payload();
                lemma_holds_split(buf@, pos as int, seq![w.tag()], w.payload());
            }
        }
        let (tag, p1) = match get_u8(buf, pos) {
            Some(x) => x,
            None => return None,
        };
        proof {
            assert forall|w: Variant| #[trigger] holds_at(buf@, pos as int, w.enc()) implies w.tag() == tag by {}
        }
        let r = Self::decode_payload(buf, tag, p1);
        proof {
            assert forall|w: Variant| #[trigger] holds_at(buf@, pos as int, w.enc()) implies (r matches Some((v, _)) && v.enc() == w.enc()) by {
                w.lemma_tag_payload();
                assert(holds_at(buf@, p1 as int, w.payload()));
                assert(r matches Some((v, _)) && v.payload() == w.payload() && v.tag() == w.tag());
                let (v, _) = r->0;
                v.lemma_tag_payload();
            }
            if r is Some {
                let (v, _) = r->0;
                v.lemma_tag_payload();
                lemma_holds_split(buf@, pos as int, seq![tag], v.payload());
            }
        }
        r
    }

    fn decode_payload(buf: &[u8], tag: u8, pos: usize) -> (r: Option<(Variant, usize)>)
        ensures
            r matches Some((v, p)) ==> v.tag() == tag && p == pos + v.payload().len() && holds_at(buf@, pos as int, v.payload()),
            forall|w: Variant| #[trigger] holds_at(buf@, pos as int, w.payload()) && w.tag() == tag ==> (r matches Some((v, _)) && v.payload() == w.payload()),
    {
        proof {
            assert forall|w: Variant| #[trigger] holds_at(buf@, pos as int, w.payload()) && w.tag() == tag implies
                match w {
                    Variant::UserMessage(b) => w.payload() == enc_bytes(b@),
                    Variant::BootstrapRequest(b) => w.payload() == enc_bytes(b@),
                    Variant::BootstrapResponse(BootstrapResponse::Join(info)) => w.payload() == info.enc(),
                    Variant::BootstrapResponse(BootstrapResponse::Rebootstrap(l)) => w.payload() == enc_list(seqs_of(l@)),
                    Variant::JoinRequest(b) => w.payload() == enc_bytes(b@),
                    Variant::NodeApproval(p) => w.payload() == p.enc(),
                    Variant::ParsecRequest(n, b) => w.payload() == enc_u64(n) + enc_bytes(b@),
                    Variant::ParsecResponse(n, b) => w.payload() == enc_u64(n) + enc_bytes(b@),
                    Variant::BouncedUnknownMessage { message, parsec_version } => w.payload() == enc_u64(parsec_version) + enc_bytes(message@),
                    Variant::BouncedUntrustedMessage(b) => w.payload() == enc_bytes(b@),
                    Variant::GenesisUpdate(p) => w.payload() == p.enc(),
                } by {
                w.lemma_tag_payload();
                match w {
                    Variant::UserMessage(b) => { assert(w.payload() =~= enc_bytes(b@)); },
                    Variant::BootstrapRequest(b) => { assert(w.payload() =~= enc_bytes(b@)); },
                    Variant::BootstrapResponse(BootstrapResponse::Join(info)) => { assert(w.payload() =~= info.enc()); },
                    Variant::BootstrapResponse(BootstrapResponse::Rebootstrap(l)) => { assert(w.payload() =~= enc_list(seqs_of(l@))); },
                    Variant::JoinRequest(b) => { assert(w.payload() =~= enc_bytes(b@)); },
                    Variant::NodeApproval(p) => { assert(w.payload() =~= p.enc()); },
                    Variant::ParsecRequest(n, b) => { assert(w.payload() =~= enc_u64(n) + enc_bytes(b@)); },
                    Variant::ParsecResponse(n, b) => { assert(w.payload() =~= enc_u64(n) + enc_bytes(b@)); },
                    Variant::BouncedUnknownMessage { message, parsec_version } => { assert(w.payload() =~= enc_u64(parsec_version) + enc_bytes(message@)); },
                    Variant::BouncedUntrustedMessage(b) => { assert(w.payload() =~= enc_bytes(b@)); },
                    Variant::GenesisUpdate(p) => { assert(w.payload() =~= p.enc()); },
                }
            }
        }
        if tag == 0 || tag == 1 || tag == 4 || tag == 9 {
            let (b, p) = match get_bytes(buf, pos) {
                Some(x) => x,
                None => return None,
            };
            let ghost bv = b@;
            let v = if tag == 0 {
                Variant::UserMessage(b)
            } else if tag == 1 {
                Variant::BootstrapRequest(b)
            } else if tag == 4 {
                Variant::JoinRequest(b)
            } else {
                Variant::BouncedUntrustedMessage(b)
            };
            proof {
                v.lemma_tag_payload();
                assert(v.payload() =~= enc_bytes(bv));
            }
            Some((v, p))
        } else if tag == 6 || tag == 7 || tag == 8 {
            proof {
                assert forall|w: Variant| #[trigger] holds_at(buf@, pos as int, w.payload()) && w.tag() == tag implies
                    holds_at(buf@, pos as int, enc_u64(w.num())) && holds_at(buf@, pos + 8, enc_bytes(w.data())) by {
                    w.lemma_tag_payload();
                    lemma_enc_u64_len(w.num());
                    lemma_holds_split(buf@, pos as int, enc_u64(w.num()), enc_bytes(w.data()));
                }
            }
            let (n, p1) = match get_u64(buf, pos) {
                Some(x) => x,
                None => return None,
            };
            let (b, p) = match get_bytes(buf, p1) {
                Some(x) => x,
                None => return None,
            };
            let ghost bv = b@;
            let v = if tag == 6 {
                Variant::ParsecRequest(n, b)
            } else if tag == 7 {
                Variant::ParsecResponse(n, b)
            } else {
                Variant::BouncedUnknownMessage { message: b, parsec_version: n }
            };
            proof {
                v.lemma_tag_payload();
                lemma_enc_u64_len(n);
                assert(v.payload() =~= enc_u64(n) + enc_bytes(bv));
                lemma_holds_split(buf@, pos as int, enc_u64(n), enc_bytes(bv));
            }
            Some((v, p))
        } else if tag == 2 {
            let (info, p) = match EldersInfo::decode(buf, pos) {
                Some(x) => x,
                None => return None,
            };
            let ghost ie = info.enc();
            let v = Variant::BootstrapResponse(BootstrapResponse::Join(info));
            proof {
                v.lemma_tag_payload();
                assert(v.payload() =~= ie);
            }
            Some((v, p))
        } else if tag == 3 {
            let (l, p) = match get_list(buf, pos) {
                Some(x) => x,
                None => return None,
            };
            let ghost lv = seqs_of(l@);
            let v = Variant::BootstrapResponse(BootstrapResponse::Rebootstrap(l));
            proof {
                v.lemma_tag_payload();
                assert(v.payload() =~= enc_list(lv));
            }
            Some((v, p))
        } else if tag == 5 || tag == 10 {
            let (pr, p) = match Proven::decode(buf, pos) {
                Some(x) => x,
                None => return None,
            };
            let ghost pe = pr.enc();
            let v = if tag == 5 { Variant::NodeApproval(pr) } else { Variant::GenesisUpdate(pr) };
            proof {
                v.lemma_tag_payload();
                assert(v.payload() =~= pe);
            }
            Some((v, p))
        } else {
            proof {
                assert forall|w: Variant| !(#[trigger] holds_at(buf@, pos as int, w.payload()) && w.tag() == tag) by {
                    w.lemma_tag_payload();
                }
            }
            None
        }
    }

    /// The integer of a payload that carries one.
    pub open spec fn num(&self) -> u64 {
        match self {
            Variant::ParsecRequest(n, _) => *n,
            Variant::ParsecResponse(n, _) => *n,
            Variant::BouncedUnknownMessage { parsec_version, .. } => *parsec_version,
            _ => 0,
        }
    }

    /// The byte string of a payload that carries an integer and bytes.
    pub open spec fn data(&self) -> Seq<u8> {
        match self {
            Variant::ParsecRequest(_, b) => b@,
            Variant::ParsecResponse(_, b) => b@,
            Variant::BouncedUnknownMessage { message, .. } => message@,
            _ => Seq::empty(),
        }
    }
}

} // verus!
