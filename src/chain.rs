//! The section proof chain: a list of BLS section keys, each signed by its predecessor.
use vstd::prelude::*;
use crate::bytes::{append_copies, copy_bytes, copy_range, first_index, lemma_first_index_some, position, seqs_of};
use crate::codec::{enc_list, get_list, holds_at, lemma_holds_split, put_list};
use crate::crypto::{bls_valid, bls_verify};

verus! {

/// A BLS public key of a section, in its compressed byte form.
pub type SectionKey = Vec<u8>;

/// A chain of section keys. `sigs[i]` is the signature by `keys[i]` over the bytes of
/// `keys[i + 1]`.
#[derive(Debug)]
pub struct SectionProofChain {
    pub keys: Vec<SectionKey>,
    pub sigs: Vec<Vec<u8>>,
}

/// How far a proof chain can be trusted from a set of trusted keys.
#[derive(Clone, Copy, Debug, PartialEq, Eq, Structural)]
pub enum TrustStatus {
    /// The chain holds a trusted key and every link after the first such key verifies.
    Trusted,
    /// Every link verifies but no key of the chain is trusted.
    Unknown,
    /// A link that matters fails to verify.
    Invalid,
}

/// Why `SectionProofChain::extend` failed.
#[derive(Clone, Copy, Debug, PartialEq, Eq, Structural)]
pub enum ExtendError {
    /// The new first key, or the current first key, is not in the donor chain.
    KeyNotFound,
    /// The new first key comes after the current first key in the donor chain.
    Incompatible,
}

/// Whether link `i` of a chain (from `ks[i]` to `ks[i + 1]`) verifies.
pub open spec fn link_ok(ks: Seq<Seq<u8>>, ss: Seq<Seq<u8>>, i: int) -> bool {
    bls_valid(ks[i], ss[i], ks[i + 1])
}

/// Whether every link from key `start` to the last key verifies.
pub open spec fn links_ok_from(ks: Seq<Seq<u8>>, ss: Seq<Seq<u8>>, start: int) -> bool {
    forall|i: int| start <= i < ss.len() ==> #[trigger] link_ok(ks, ss, i)
}

/// The index of the first key of `ks` that `trusted` holds.
pub open spec fn first_trusted(ks: Seq<Seq<u8>>, trusted: Seq<Seq<u8>>) -> Option<int> {
    if exists|i: int| 0 <= i < ks.len() && trusted.contains(ks[i]) {
        Some(choose|i: int| 0 <= i < ks.len() && trusted.contains(ks[i]) && forall|j: int| 0 <= j < i ==> !trusted.contains(ks[j]))
    } else {
        None
    }
}

/// The trust status of a chain under a set of trusted keys.
pub open spec fn trust_of(ks: Seq<Seq<u8>>, ss: Seq<Seq<u8>>, trusted: Seq<Seq<u8>>) -> TrustStatus {
    match first_trusted(ks, trusted) {
        Some(e) => if links_ok_from(ks, ss, e) { TrustStatus::Trusted } else { TrustStatus::Invalid },
        None => if links_ok_from(ks, ss, 0) { TrustStatus::Unknown } else { TrustStatus::Invalid },
    }
}

pub proof fn lemma_first_trusted_some(ks: Seq<Seq<u8>>, trusted: Seq<Seq<u8>>)
    requires
        first_trusted(ks, trusted) is Some,
    ensures
        ({
            let e = first_trusted(ks, trusted)->0;
            0 <= e < ks.len() && trusted.contains(ks[e]) && forall|j: int| 0 <= j < e ==> !trusted.contains(ks[j])
        }),
{
    let w = choose|i: int| 0 <= i < ks.len() && trusted.contains(ks[i]);
    lemma_first_trusted_exists(ks, trusted, w);
}

proof fn lemma_first_trusted_exists(ks: Seq<Seq<u8>>, trusted: Seq<Seq<u8>>, w: int)
    requires
        0 <= w < ks.len(),
        trusted.contains(ks[w]),
    ensures
        exists|i: int| 0 <= i < ks.len() && trusted.contains(ks[i]) && forall|j: int| 0 <= j < i ==> !trusted.contains(ks[j]),
    decreases w,
{
    if exists|j: int| 0 <= j < w && trusted.contains(ks[j]) {
        let j = choose|j: int| 0 <= j < w && trusted.contains(ks[j]);
        lemma_first_trusted_exists(ks, trusted, j);
    } else {
        assert(forall|j: int| 0 <= j < w ==> !trusted.contains(ks[j]));
    }
}

proof fn lemma_first_trusted_at(ks: Seq<Seq<u8>>, trusted: Seq<Seq<u8>>, e: int)
    requires
        0 <= e < ks.len(),
        trusted.contains(ks[e]),
        forall|j: int| 0 <= j < e ==> !trusted.contains(ks[j]),
    ensures
        first_trusted(ks, trusted) == Some(e),
{
    lemma_first_trusted_some(ks, trusted);
    let f = first_trusted(ks, trusted)->0;
    assert(!(f < e));
    assert(!(e < f));
}

impl SectionProofChain {
    /// The keys, oldest first.
    pub open spec fn keys_view(&self) -> Seq<Seq<u8>> {
        seqs_of(self.keys@)
    }

    /// The link signatures: `sigs_view()[i]` links key `i` to key `i + 1`.
    pub open spec fn sigs_view(&self) -> Seq<Seq<u8>> {
        seqs_of(self.sigs@)
    }

    /// A chain holds at least one key and one signature per link.
    pub open spec fn wf(&self) -> bool {
        self.keys@.len() >= 1 && self.sigs@.len() + 1 == self.keys@.len()
    }

    /// The most recent key.
    pub open spec fn last_key_view(&self) -> Seq<u8> {
        self.keys_view().last()
    }

    /// The trust status of this chain under `trusted`.
    pub open spec fn trust_view(&self, trusted: Seq<Seq<u8>>) -> TrustStatus {
        trust_of(self.keys_view(), self.sigs_view(), trusted)
    }

    /// Whether every link of the chain verifies.
    pub open spec fn self_verifies(&self) -> bool {
        links_ok_from(self.keys_view(), self.sigs_view(), 0)
    }

    /// Creates a chain holding only `first`.
    pub fn new(first: SectionKey) -> (r: Self)
        ensures
            r.wf(),
            r.keys_view() == seq![first@],
            r.sigs_view() == Seq::<Seq<u8>>::empty(),
    {
        let mut keys: Vec<SectionKey> = Vec::new();
        keys.push(first);
        let r = SectionProofChain { keys, sigs: Vec::new() };
        assert(r.keys_view() =~= seq![first@]);
        assert(r.sigs_view() =~= Seq::<Seq<u8>>::empty());
        r
    }

    /// Returns a copy of this chain.
    pub fn duplicate(&self) -> (r: Self)
        ensures
            r.keys_view() == self.keys_view(),
            r.sigs_view() == self.sigs_view(),
            r.wf() == self.wf(),
    {
        let keys = copy_range(&self.keys, 0, self.keys.len());
        let sigs = copy_range(&self.sigs, 0, self.sigs.len());
        assert(self.keys_view().subrange(0, self.keys@.len() as int) =~= self.keys_view());
        assert(self.sigs_view().subrange(0, self.sigs@.len() as int) =~= self.sigs_view());
        SectionProofChain { keys, sigs }
    }

    /// Encoding: the list of keys, then the list of link signatures.
    pub open spec fn enc(&self) -> Seq<u8> {
        enc_list(self.keys_view()) + enc_list(self.sigs_view())
    }

    /// Appends the encoding.
    pub fn encode(&self, out: &mut Vec<u8>)
        ensures
            final(out)@ == old(out)@ + self.enc(),
    {
        let ghost o = out@;
        put_list(out, &self.keys);
        put_list(out, &self.sigs);
        assert(out@ =~= o + self.enc());
    }

    /// Reads a well-formed chain at `pos`.
    pub fn decode(buf: &[u8], pos: usize) -> (r: Option<(SectionProofChain, usize)>)
        ensures
            r matches Some((v, p)) ==> v.wf() && p == pos + v.enc().len() && holds_at(buf@, pos as int, v.enc()),
            forall|w: SectionProofChain| #[trigger] holds_at(buf@, pos as int, w.enc()) && w.wf() ==> (r matches Some((v, _))
                && v.keys_view() == w.keys_view() && v.sigs_view() == w.sigs_view()),
    {
        proof {
            assert forall|w: SectionProofChain| #[trigger] holds_at(buf@, pos as int, w.enc()) implies
                holds_at(buf@, pos as int, enc_list(w.keys_view())) && holds_at(buf@, pos + enc_list(w.keys_view()).len(), enc_list(w.sigs_view())) by {
                lemma_holds_split(buf@, pos as int, enc_list(w.keys_view()), enc_list(w.sigs_view()));
            }
        }
        let (keys, p1) = match get_list(buf, pos) {
            Some(x) => x,
            None => return None,
        };
        let (sigs, p2) = match get_list(buf, p1) {
            Some(x) => x,
            None => return None,
        };
        if keys.len() == 0 || sigs.len() != keys.len() - 1 {
            return None;
        }
        let v = SectionProofChain { keys, sigs };
        proof {
            lemma_holds_split(buf@, pos as int, enc_list(v.keys_view()), enc_list(v.sigs_view()));
        }
        Some((v, p2))
    }

    /// Number of keys.
    pub fn len(&self) -> (r: usize)
        ensures
            r == self.keys@.len(),
    {
        self.keys.len()
    }

    /// The first key.
    pub fn first_key(&self) -> (r: &SectionKey)
        requires
            self.wf(),
        ensures
            r@ == self.keys_view()[0],
    {
        &self.keys[0]
    }

    /// The most recent key.
    pub fn last_key(&self) -> (r: &SectionKey)
        requires
            self.wf(),
        ensures
            r@ == self.last_key_view(),
    {
        &self.keys[self.keys.len() - 1]
    }

    /// Whether the chain holds `key`.
    pub fn has_key(&self, key: &[u8]) -> (r: bool)
        ensures
            r == self.keys_view().contains(key@),
    {
        match position(&self.keys, key) {
            Some(i) => {
                proof { lemma_first_index_some(self.keys_view(), key@); }
                true
            },
            None => {
                assert(!self.keys_view().contains(key@));
                false
            },
        }
    }

    /// The index of `key` in the chain, if it is there.
    pub fn index_of(&self, key: &[u8]) -> (r: Option<usize>)
        ensures
            r matches Some(i) ==> first_index(self.keys_view(), key@) == Some(i as int),
            r is None ==> !self.keys_view().contains(key@),
    {
        let r = position(&self.keys, key);
        if r.is_none() {
            assert(!self.keys_view().contains(key@));
        }
        r
    }

    /// Appends `key` if `sig` is a valid signature by the last key over it; returns
    /// whether it was appended.
    pub fn push(&mut self, key: SectionKey, sig: Vec<u8>) -> (r: bool)
        requires
            old(self).wf(),
        ensures
            final(self).wf(),
            r == bls_valid(old(self).last_key_view(), sig@, key@),
            r ==> final(self).keys_view() == old(self).keys_view().push(key@)
                && final(self).sigs_view() == old(self).sigs_view().push(sig@),
            !r ==> final(self).keys_view() == old(self).keys_view()
                && final(self).sigs_view() == old(self).sigs_view(),
    {
        let ok = bls_verify(self.last_key().as_slice(), sig.as_slice(), key.as_slice());
        if ok {
            let ghost k0 = self.keys@;
            let ghost s0 = self.sigs@;
            let ghost kv = key@;
            let ghost sv = sig@;
            self.keys.push(key);
            self.sigs.push(sig);
            assert(self.keys_view() =~= seqs_of(k0).push(kv));
            assert(self.sigs_view() =~= seqs_of(s0).push(sv));
        }
        ok
    }

    /// The suffix of the chain from key `from` on.
    pub fn slice(&self, from: usize) -> (r: Self)
        requires
            self.wf(),
            from < self.keys@.len(),
        ensures
            r.wf(),
            r.keys_view() == self.keys_view().subrange(from as int, self.keys@.len() as int),
            r.sigs_view() == self.sigs_view().subrange(from as int, self.sigs@.len() as int),
    {
        let keys = copy_range(&self.keys, from, self.keys.len());
        let sigs = copy_range(&self.sigs, from, self.sigs.len());
        SectionProofChain { keys, sigs }
    }

    /// Checks link `i`.
    fn check_link(&self, i: usize) -> (r: bool)
        requires
            self.wf(),
            i < self.sigs@.len(),
        ensures
            r == link_ok(self.keys_view(), self.sigs_view(), i as int),
    {
        let _n = self.keys.len();
        let next: usize = i + 1;
        bls_verify(self.keys[i].as_slice(), self.sigs[i].as_slice(), self.keys[next].as_slice())
    }

    /// Checks every link from key `start` on.
    fn check_links_from(&self, start: usize) -> (r: bool)
        requires
            self.wf(),
            start < self.keys@.len(),
        ensures
            r == links_ok_from(self.keys_view(), self.sigs_view(), start as int),
    {
        let mut i: usize = start;
        while i < self.sigs.len()
            invariant
                self.wf(),
                start <= i,
                i <= self.sigs@.len(),
                forall|j: int| start <= j < i ==> #[trigger] link_ok(self.keys_view(), self.sigs_view(), j),
            decreases self.sigs@.len() - i,
        {
            if !self.check_link(i) {
                return false;
            }
            i = i + 1;
        }
        true
    }

    /// Classifies the chain against the keys in `trusted`: `Trusted` when it holds a trusted
    /// key and every link after the first such key verifies, `Unknown` when it holds none
    /// and every link verifies, and `Invalid` otherwise.
    pub fn check_trust(&self, trusted: &Vec<SectionKey>) -> (r: TrustStatus)
        requires
            self.wf(),
        ensures
            r == self.trust_view(seqs_of(trusted@)),
    {
        let ghost ks = self.keys_view();
        let ghost ts = seqs_of(trusted@);
        let mut i: usize = 0;
        while i < self.keys.len()
            invariant
                self.wf(),
                ks == self.keys_view(),
                ts == seqs_of(trusted@),
                i <= self.keys@.len(),
                forall|j: int| 0 <= j < i ==> !ts.contains(#[trigger] ks[j]),
            decreases self.keys@.len() - i,
        {
            let found = position(trusted, self.keys[i].as_slice());
            if found.is_some() {
                proof {
                    lemma_first_index_some(ts, ks[i as int]);
                    lemma_first_trusted_at(ks, ts, i as int);
                }
                if self.check_links_from(i) {
                    return TrustStatus::Trusted;
                } else {
                    return TrustStatus::Invalid;
                }
            }
            proof {
                if ts.contains(ks[i as int]) {
                    let k = choose|k: int| 0 <= k < ts.len() && ts[k] == ks[i as int];
                    assert(ts[k] == ks[i as int]);
                }
            }
            i = i + 1;
        }
        assert(first_trusted(ks, ts) is None);
        if self.check_links_from(0) {
            TrustStatus::Unknown
        } else {
            TrustStatus::Invalid
        }
    }

    /// Prepends keys of `donor` so that the chain starts at `new_first` and still ends at its
    /// last key. Nothing changes when `new_first` is already the first key. Fails with
    /// `KeyNotFound` when `new_first` or the current first key is not in `donor`, and with
    /// `Incompatible` when `new_first` comes after the current first key there.
    pub fn extend(&mut self, new_first: &[u8], donor: &SectionProofChain) -> (r: Result<(), ExtendError>)
        requires
            old(self).wf(),
            donor.wf(),
        ensures
            final(self).wf(),
            r == extend_result(old(self).keys_view(), donor.keys_view(), new_first@),
            r is Err ==> final(self).keys_view() == old(self).keys_view()
                && final(self).sigs_view() == old(self).sigs_view(),
            r is Ok ==> ({
                let i = if new_first@ == old(self).keys_view()[0] { 0 } else { first_index(donor.keys_view(), new_first@)->0 };
                let j = if new_first@ == old(self).keys_view()[0] { 0 } else { first_index(donor.keys_view(), old(self).keys_view()[0])->0 };
                &&& final(self).keys_view() == donor.keys_view().subrange(i, j) + old(self).keys_view()
                &&& final(self).sigs_view() == donor.sigs_view().subrange(i, j) + old(self).sigs_view()
            }),
    {
        let ghost k0 = self.keys_view();
        let ghost s0 = self.sigs_view();
        if crate::bytes::bytes_eq(new_first, self.keys[0].as_slice()) {
            assert(donor.keys_view().subrange(0, 0) + k0 =~= k0);
            assert(donor.sigs_view().subrange(0, 0) + s0 =~= s0);
            return Ok(());
        }
        let j = match position(&donor.keys, self.keys[0].as_slice()) {
            Some(j) => j,
            None => return Err(ExtendError::KeyNotFound),
        };
        let i = match position(&donor.keys, new_first) {
            Some(i) => i,
            None => return Err(ExtendError::KeyNotFound),
        };
        if i > j {
            return Err(ExtendError::Incompatible);
        }
        proof {
            lemma_first_index_some(donor.keys_view(), k0[0]);
        }
        let mut keys = copy_range(&donor.keys, i, j);
        let mut sigs = copy_range(&donor.sigs, i, j);
        append_copies(&mut keys, &self.keys);
        append_copies(&mut sigs, &self.sigs);
        self.keys = keys;
        self.sigs = sigs;
        Ok(())
    }
}

/// Trust grows with the set of trusted keys. If a chain is trusted under `t`, then under
/// every `t2` that holds all keys of `t` it is never `Unknown`, and it is trusted again
/// when every link of the chain verifies. (Without that, a broken link between the first
/// key of `t2` and the first key of `t` makes it `Invalid` under `t2`.)
pub proof fn lemma_trust_monotone(c: SectionProofChain, t: Seq<Seq<u8>>, t2: Seq<Seq<u8>>)
    requires
        c.wf(),
        c.trust_view(t) == TrustStatus::Trusted,
        forall|k: Seq<u8>| t.contains(k) ==> t2.contains(k),
    ensures
        c.trust_view(t2) != TrustStatus::Unknown,
        c.self_verifies() ==> c.trust_view(t2) == TrustStatus::Trusted,
{
    let ks = c.keys_view();
    let ss = c.sigs_view();
    lemma_first_trusted_some(ks, t);
    let e = first_trusted(ks, t)->0;
    assert(t2.contains(ks[e]));
    lemma_first_trusted_some(ks, t2);
    if c.self_verifies() {
        let e2 = first_trusted(ks, t2)->0;
        assert(links_ok_from(ks, ss, e2));
    }
}

proof fn lemma_stitch_links(ks: Seq<Seq<u8>>, cs: Seq<Seq<u8>>, dk: Seq<Seq<u8>>, ds: Seq<Seq<u8>>, i: int, j: int)
    requires
        ks.len() == cs.len() + 1,
        dk.len() == ds.len() + 1,
        links_ok_from(ks, cs, 0),
        links_ok_from(dk, ds, 0),
        0 <= i <= j,
        i < j ==> j < dk.len() && dk[j] == ks[0],
        j <= ds.len(),
    ensures
        links_ok_from(dk.subrange(i, j) + ks, ds.subrange(i, j) + cs, 0),
{
    let l = j - i;
    let k2 = dk.subrange(i, j) + ks;
    let s2 = ds.subrange(i, j) + cs;
    assert forall|x: int| 0 <= x < s2.len() implies #[trigger] link_ok(k2, s2, x) by {
        if x < l {
            assert(k2[x] == dk[i + x]);
            assert(s2[x] == ds[i + x]);
            if x + 1 < l {
                assert(k2[x + 1] == dk[i + x + 1]);
            } else {
                assert(k2[x + 1] == ks[0]);
            }
            assert(link_ok(dk, ds, i + x));
        } else {
            assert(k2[x] == ks[x - l]);
            assert(s2[x] == cs[x - l]);
            assert(k2[x + 1] == ks[x - l + 1]);
            assert(link_ok(ks, cs, x - l));
        }
    }
}

/// A chain whose links all verify is never `Invalid`, and is `Trusted` as soon as it holds a
/// trusted key.
pub proof fn lemma_valid_chain_trust(ks: Seq<Seq<u8>>, ss: Seq<Seq<u8>>, t: Seq<Seq<u8>>)
    requires
        links_ok_from(ks, ss, 0),
    ensures
        trust_of(ks, ss, t) != TrustStatus::Invalid,
        first_trusted(ks, t) is Some ==> trust_of(ks, ss, t) == TrustStatus::Trusted,
{
    if first_trusted(ks, t) is Some {
        lemma_first_trusted_some(ks, t);
    }
}

/// A chain stitched from `donor[i..j]` and a chain `c` that starts at `donor[j]` has only
/// valid links when both have, ends at the same key, and is trusted under every set of
/// keys that trusts a key of `c`.
pub proof fn lemma_stitch(c: SectionProofChain, donor: SectionProofChain, i: int, j: int, c2: SectionProofChain, t: Seq<Seq<u8>>)
    requires
        c.wf(),
        donor.wf(),
        c.self_verifies(),
        donor.self_verifies(),
        0 <= i <= j,
        i < j ==> j < donor.keys_view().len() && donor.keys_view()[j] == c.keys_view()[0],
        j <= donor.sigs_view().len(),
        c2.keys_view() == donor.keys_view().subrange(i, j) + c.keys_view(),
        c2.sigs_view() == donor.sigs_view().subrange(i, j) + c.sigs_view(),
    ensures
        c2.self_verifies(),
        c2.last_key_view() == c.last_key_view(),
        c2.trust_view(t) != TrustStatus::Invalid,
        first_trusted(c.keys_view(), t) is Some ==> c2.trust_view(t) == TrustStatus::Trusted,
{
    let ks = c.keys_view();
    let k2 = c2.keys_view();
    let l = j - i;
    lemma_stitch_links(ks, c.sigs_view(), donor.keys_view(), donor.sigs_view(), i, j);
    assert(k2.last() == ks.last());
    lemma_valid_chain_trust(k2, c2.sigs_view(), t);
    assert forall|x: int| 0 <= x < ks.len() implies k2[l + x] == ks[x] by {}
    lemma_suffix_trusted(ks, k2, l, t);
}

/// A chain that ends with the keys `ks` holds a trusted key whenever `ks` does.
proof fn lemma_suffix_trusted(ks: Seq<Seq<u8>>, k2: Seq<Seq<u8>>, l: int, t: Seq<Seq<u8>>)
    requires
        0 <= l,
        k2.len() == l + ks.len(),
        forall|x: int| 0 <= x < ks.len() ==> k2[l + x] == ks[x],
    ensures
        first_trusted(ks, t) is Some ==> first_trusted(k2, t) is Some,
{
    if first_trusted(ks, t) is Some {
        lemma_first_trusted_some(ks, t);
        let e = first_trusted(ks, t)->0;
        assert(k2[l + e] == ks[e]);
        lemma_first_trusted_exists(k2, t, l + e);
    }
}

/// Extending a suffix of a chain whose keys are distinct, with that chain as donor, to
/// start at an earlier key of it succeeds and gives the longer suffix: keys `a..` from keys
/// `b..`, and the link signatures likewise.
pub proof fn lemma_extend_suffix(h: SectionProofChain, a: int, b: int)
    requires
        h.wf(),
        0 <= a <= b < h.keys_view().len(),
        forall|x: int, y: int| 0 <= x < y < h.keys_view().len() ==> h.keys_view()[x] != h.keys_view()[y],
    ensures
        ({
            let ks = h.keys_view();
            let ss = h.sigs_view();
            let tail = ks.subrange(b, ks.len() as int);
            &&& extend_result(tail, ks, ks[a]) is Ok
            &&& (ks[a] == tail[0] <==> a == b)
            &&& a < b ==> first_index(ks, ks[a]) == Some(a) && first_index(ks, tail[0]) == Some(b)
            &&& ks.subrange(a, b) + tail == ks.subrange(a, ks.len() as int)
            &&& ss.subrange(a, b) + ss.subrange(b, ss.len() as int) == ss.subrange(a, ss.len() as int)
        }),
{
    let ks = h.keys_view();
    let ss = h.sigs_view();
    let tail = ks.subrange(b, ks.len() as int);
    assert(tail[0] == ks[b]);
    assert forall|j: int| 0 <= j < a implies ks[j] != ks[a] by {}
    assert forall|j: int| 0 <= j < b implies ks[j] != ks[b] by {}
    crate::bytes::lemma_first_index_at(ks, ks[a], a);
    crate::bytes::lemma_first_index_at(ks, ks[b], b);
    assert(ks.subrange(a, b) + tail =~= ks.subrange(a, ks.len() as int));
    assert(ss.subrange(a, b) + ss.subrange(b, ss.len() as int) =~= ss.subrange(a, ss.len() as int));
}

/// What `extend` returns for a chain with keys `ks`, a donor with keys `donor` and the new
/// first key `k`.
pub open spec fn extend_result(ks: Seq<Seq<u8>>, donor: Seq<Seq<u8>>, k: Seq<u8>) -> Result<(), ExtendError> {
    if k == ks[0] {
        Ok(())
    } else {
        match (first_index(donor, ks[0]), first_index(donor, k)) {
            (Some(j), Some(i)) => if i > j { Err(ExtendError::Incompatible) } else { Ok(()) },
            _ => Err(ExtendError::KeyNotFound),
        }
    }
}

} // verus!
