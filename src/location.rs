//! Names, prefixes and the source and destination locations of messages.
use vstd::prelude::*;
use crate::bytes::{bytes_eq, copy_bytes};
use crate::codec::{enc_bytes, enc_u64, get_bytes, get_u64, get_u8, holds_at, lemma_holds_split, lemma_enc_u64_len, put_bytes, put_u64, put_u8};

verus! {

/// The XOR-name of a node: the 32 bytes of its public signing key.
pub type XorName = Vec<u8>;

/// Bit `i` of a name, most significant bit of byte 0 first; bits past the end are 0.
pub open spec fn bit(name: Seq<u8>, i: int) -> bool {
    0 <= i && i / 8 < name.len() && (name[i / 8] >> ((7 - i % 8) as u8)) & 1u8 == 1u8
}

/// Whether two names agree on their first `n` bits.
pub open spec fn agree(a: Seq<u8>, b: Seq<u8>, n: int) -> bool {
    forall|i: int| 0 <= i < n ==> bit(a, i) == bit(b, i)
}

/// Returns bit `i` of `name`.
pub fn bit_at(name: &[u8], i: u64) -> (r: bool)
    ensures
        r == bit(name@, i as int),
{
    let k = i / 8;
    if k >= name.len() as u64 {
        return false;
    }
    let shift: u8 = (7 - i % 8) as u8;
    (name[k as usize] >> shift) & 1u8 == 1u8
}

/// Returns whether `a` and `b` agree on their first `n` bits.
pub fn agree_upto(a: &[u8], b: &[u8], n: u64) -> (r: bool)
    ensures
        r == agree(a@, b@, n as int),
{
    let mut i: u64 = 0;
    while i < n
        invariant
            i <= n,
            agree(a@, b@, i as int),
        decreases n - i,
    {
        if bit_at(a, i) != bit_at(b, i) {
            return false;
        }
        i = i + 1;
    }
    true
}

/// Byte-wise order of names: `a` is at most `b`.
pub open spec fn lex_le(a: Seq<u8>, b: Seq<u8>) -> bool
    decreases a.len(),
{
    if a.len() == 0 {
        true
    } else if b.len() == 0 {
        false
    } else if a[0] != b[0] {
        a[0] < b[0]
    } else {
        lex_le(a.drop_first(), b.drop_first())
    }
}

/// Returns whether `a` is at most `b` in byte-wise order.
pub fn lex_le_exec(a: &[u8], b: &[u8]) -> (r: bool)
    ensures
        r == lex_le(a@, b@),
{
    let mut i: usize = 0;
    assert(a@.subrange(0, a@.len() as int) =~= a@);
    assert(b@.subrange(0, b@.len() as int) =~= b@);
    assert(a@.subrange(0, 0) =~= b@.subrange(0, 0));
    while i < a.len()
        invariant
            i <= a@.len(),
            i <= b@.len(),
            a@.subrange(0, i as int) == b@.subrange(0, i as int),
            lex_le(a@, b@) == lex_le(a@.subrange(i as int, a@.len() as int), b@.subrange(i as int, b@.len() as int)),
        decreases a@.len() - i,
    {
        let ghost sa = a@.subrange(i as int, a@.len() as int);
        let ghost sb = b@.subrange(i as int, b@.len() as int);
        if i >= b.len() {
            assert(sb.len() == 0);
            return false;
        }
        if a[i] != b[i] {
            assert(sa[0] == a@[i as int] && sb[0] == b@[i as int]);
            return a[i] < b[i];
        }
        assert(sa.drop_first() =~= a@.subrange(i + 1, a@.len() as int));
        assert(sb.drop_first() =~= b@.subrange(i + 1, b@.len() as int));
        assert(a@.subrange(0, i + 1) =~= a@.subrange(0, i as int).push(a@[i as int]));
        assert(b@.subrange(0, i + 1) =~= b@.subrange(0, i as int).push(b@[i as int]));
        i = i + 1;
    }
    true
}

/// A section prefix: the first `bit_count` bits of `name`.
#[derive(Debug)]
pub struct Prefix {
    pub bit_count: u16,
    pub name: XorName,
}

impl Prefix {
    /// The prefix of length 0, which matches every name.
    pub fn default_prefix() -> (r: Self)
        ensures
            r.bit_count == 0,
    {
        Prefix { bit_count: 0, name: Vec::new() }
    }

    /// Returns a copy of this prefix.
    pub fn duplicate(&self) -> (r: Self)
        ensures
            r.bit_count == self.bit_count,
            r.name@ == self.name@,
    {
        Prefix { bit_count: self.bit_count, name: copy_bytes(self.name.as_slice()) }
    }

    /// Whether this prefix matches `name`.
    pub open spec fn matches_spec(&self, name: Seq<u8>) -> bool {
        agree(self.name@, name, self.bit_count as int)
    }

    /// Whether one of the two prefixes is a prefix of the other.
    pub open spec fn compatible_spec(&self, other: &Prefix) -> bool {
        agree(self.name@, other.name@, if self.bit_count <= other.bit_count { self.bit_count as int } else { other.bit_count as int })
    }

    /// Returns whether `name` starts with this prefix.
    pub fn matches(&self, name: &[u8]) -> (r: bool)
        ensures
            r == self.matches_spec(name@),
    {
        agree_upto(self.name.as_slice(), name, self.bit_count as u64)
    }

    /// Returns whether one of the two prefixes is a prefix of the other.
    pub fn is_compatible(&self, other: &Prefix) -> (r: bool)
        ensures
            r == self.compatible_spec(other),
    {
        let n: u16 = if self.bit_count <= other.bit_count { self.bit_count } else { other.bit_count };
        agree_upto(self.name.as_slice(), other.name.as_slice(), n as u64)
    }

    /// Encoding: the bit count, then the name.
    pub open spec fn enc(&self) -> Seq<u8> {
        enc_u64(self.bit_count as u64) + enc_bytes(self.name@)
    }

    /// Appends the encoding.
    pub fn encode(&self, out: &mut Vec<u8>)
        ensures
            final(out)@ == old(out)@ + self.enc(),
    {
        let ghost o = out@;
        put_u64(out, self.bit_count as u64);
        put_bytes(out, self.name.as_slice());
        assert(out@ =~= o + self.enc());
    }

    /// Reads a prefix at `pos`.
    pub fn decode(buf: &[u8], pos: usize) -> (r: Option<(Prefix, usize)>)
        ensures
            r matches Some((v, p)) ==> p == pos + v.enc().len() && holds_at(buf@, pos as int, v.enc()),
            forall|w: Prefix| #[trigger] holds_at(buf@, pos as int, w.enc()) ==> (r matches Some((v, _)) && v.enc() == w.enc()),
    {
        proof {
            assert forall|w: Prefix| #[trigger] holds_at(buf@, pos as int, w.enc()) implies
                holds_at(buf@, pos as int, enc_u64(w.bit_count as u64)) && holds_at(buf@, pos + 8, enc_bytes(w.name@)) by {
                lemma_holds_split(buf@, pos as int, enc_u64(w.bit_count as u64), enc_bytes(w.name@));
                lemma_enc_u64_len(w.bit_count as u64);
            }
        }
        let (n, p1) = match get_u64(buf, pos) {
            Some(x) => x,
            None => return None,
        };
        if n > u16::MAX as u64 {
            return None;
        }
        let (name, p2) = match get_bytes(buf, p1) {
            Some(x) => x,
            None => return None,
        };
        let v = Prefix { bit_count: n as u16, name };
        proof {
            lemma_enc_u64_len(n);
            lemma_holds_split(buf@, pos as int, enc_u64(v.bit_count as u64), enc_bytes(v.name@));
        }
        Some((v, p2))
    }
}

/// Where a message goes.
#[derive(Debug)]
pub enum DstLocation {
    /// A single node.
    Node(XorName),
    /// The section whose prefix matches the name.
    Section(XorName),
    /// A directly connected peer; not routed.
    Direct,
}

/// Where a message comes from.
#[derive(Debug)]
pub enum SrcLocation {
    /// A single node.
    Node(XorName),
    /// A section.
    Section(Prefix),
}

impl DstLocation {
    /// Whether a node named `name` in the section of prefix `our_prefix` is the destination.
    pub open spec fn matches_spec(&self, name: Seq<u8>, our_prefix: Prefix) -> bool {
        match self {
            DstLocation::Node(n) => n@ == name,
            DstLocation::Section(n) => our_prefix.matches_spec(n@),
            DstLocation::Direct => false,
        }
    }

    /// Returns whether a node named `name` in the section of prefix `our_prefix` is the
    /// destination.
    pub fn matches(&self, name: &[u8], our_prefix: &Prefix) -> (r: bool)
        ensures
            r == self.matches_spec(name@, *our_prefix),
    {
        match self {
            DstLocation::Node(n) => bytes_eq(n.as_slice(), name),
            DstLocation::Section(n) => our_prefix.matches(n.as_slice()),
            DstLocation::Direct => false,
        }
    }

    /// Returns a copy.
    pub fn duplicate(&self) -> (r: Self)
        ensures
            r.enc() == self.enc(),
    {
        match self {
            DstLocation::Node(n) => DstLocation::Node(copy_bytes(n.as_slice())),
            DstLocation::Section(n) => DstLocation::Section(copy_bytes(n.as_slice())),
            DstLocation::Direct => DstLocation::Direct,
        }
    }

    /// Encoding: a tag byte, then the name if there is one.
    pub open spec fn enc(&self) -> Seq<u8> {
        match self {
            DstLocation::Node(n) => seq![0u8] + enc_bytes(n@),
            DstLocation::Section(n) => seq![1u8] + enc_bytes(n@),
            DstLocation::Direct => seq![2u8],
        }
    }

    /// Appends the encoding.
    pub fn encode(&self, out: &mut Vec<u8>)
        ensures
            final(out)@ == old(out)@ + self.enc(),
    {
        let ghost o = out@;
        match self {
            DstLocation::Node(n) => {
                put_u8(out, 0);
                put_bytes(out, n.as_slice());
            },
            DstLocation::Section(n) => {
                put_u8(out, 1);
                put_bytes(out, n.as_slice());
            },
            DstLocation::Direct => {
                put_u8(out, 2);
            },
        }
        assert(out@ =~= o + self.enc());
    }

    /// Reads a destination at `pos`.
    pub fn decode(buf: &[u8], pos: usize) -> (r: Option<(DstLocation, usize)>)
        ensures
            r matches Some((v, p)) ==> p == pos + v.enc().len() && holds_at(buf@, pos as int, v.enc()),
            forall|w: DstLocation| #[trigger] holds_at(buf@, pos as int, w.enc()) ==> (r matches Some((v, _)) && v.enc() == w.enc()),
    {
        proof {
            assert forall|w: DstLocation| #[trigger] holds_at(buf@, pos as int, w.enc()) implies
                holds_at(buf@, pos as int, seq![w.enc()[0]]) && (w.enc().len() > 1 ==> holds_at(buf@, pos + 1, w.enc().subrange(1, w.enc().len() as int))) by {
                lemma_holds_split(buf@, pos as int, seq![w.enc()[0]], w.enc().subrange(1, w.enc().len() as int));
                assert(seq![w.enc()[0]] + w.enc().subrange(1, w.enc().len() as int) =~= w.enc());
            }
        }
        let (tag, p1) = match get_u8(buf, pos) {
            Some(x) => x,
            None => return None,
        };
        if tag == 2 {
            let v = DstLocation::Direct;
            proof {
                assert forall|w: DstLocation| #[trigger] holds_at(buf@, pos as int, w.enc()) implies v.enc() == w.enc() by {
                    assert(w.enc()[0] == tag);
                }
            }
            return Some((v, p1));
        }
        if tag > 2 {
            proof {
                assert forall|w: DstLocation| !#[trigger] holds_at(buf@, pos as int, w.enc()) by {
                    if holds_at(buf@, pos as int, w.enc()) {
                        assert(w.enc()[0] == tag);
                    }
                }
            }
            return None;
        }
        proof {
            assert forall|w: DstLocation| #[trigger] holds_at(buf@, pos as int, w.enc()) implies
                !(w is Direct) && holds_at(buf@, pos + 1, enc_bytes(match w { DstLocation::Node(n) => n@, DstLocation::Section(n) => n@, _ => Seq::empty() })) by {
                assert(w.enc()[0] == tag);
                match w {
                    DstLocation::Node(n) => { lemma_holds_split(buf@, pos as int, seq![0u8], enc_bytes(n@)); },
                    DstLocation::Section(n) => { lemma_holds_split(buf@, pos as int, seq![1u8], enc_bytes(n@)); },
                    _ => {},
                }
            }
        }
        let (name, p2) = match get_bytes(buf, p1) {
            Some(x) => x,
            None => return None,
        };
        let ghost nv = name@;
        let v = if tag == 0 { DstLocation::Node(name) } else { DstLocation::Section(name) };
        proof {
            lemma_holds_split(buf@, pos as int, seq![tag], enc_bytes(nv));
            assert(v.enc() =~= seq![tag] + enc_bytes(nv));
            assert forall|w: DstLocation| #[trigger] holds_at(buf@, pos as int, w.enc()) implies v.enc() == w.enc() by {
                assert(w.enc()[0] == tag);
            }
        }
        Some((v, p2))
    }
}

} // verus!
