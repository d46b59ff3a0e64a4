//! Accumulation of BLS signature shares from a section's elders into one section signature.
use vstd::prelude::*;
use crate::bytes::{bytes_eq, copy_bytes, first_index, seqs_of};
use crate::chain::SectionProofChain;
use crate::crypto::{
    combine, combined_of, set_public_key, set_public_key_of, set_threshold,
    set_threshold_of, bls_share_valid, bls_valid, bls_verify, bls_verify_share, sha3_256,
    sha3_256_of,
};
use crate::message::{Message, PlainMessage, SrcAuthority};

verus! {

/// One elder's share of a section signature.
#[derive(Debug)]
pub struct ProofShare {
    /// The serialised public key set of the section.
    pub public_key_set: Vec<u8>,
    /// The elder's index in the key set.
    pub index: u64,
    /// The elder's signature share over the content's signable bytes.
    pub signature_share: Vec<u8>,
}

/// Content to be signed by the section, with one elder's share.
#[derive(Debug)]
pub struct AccumulatingMessage {
    pub content: PlainMessage,
    pub proof_chain: SectionProofChain,
    pub proof_share: ProofShare,
}

/// The shares collected for one accumulation key.
#[derive(Debug)]
pub struct Entry {
    /// Digest of the content.
    pub content_hash: Vec<u8>,
    /// Digest of the proof chain.
    pub chain_hash: Vec<u8>,
    /// The destination key of the content.
    pub dst_key: Vec<u8>,
    /// The serialised public key set the shares are for.
    pub public_key_set: Vec<u8>,
    /// Shares by elder index.
    pub shares: Vec<(u64, Vec<u8>)>,
}

/// An accumulation key: digest of the content, digest of the proof chain, destination key.
pub type KeyView = (Seq<u8>, Seq<u8>, Seq<u8>);

/// The view of an entry: its key, its key set and its shares.
pub type EntryView = (KeyView, Seq<u8>, Seq<(u64, Seq<u8>)>);

/// The view of the accumulator: open entries, and the keys already combined.
pub type AccView = (Seq<EntryView>, Seq<KeyView>);

/// The view of a share list.
pub open spec fn shares_view(s: Seq<(u64, Vec<u8>)>) -> Seq<(u64, Seq<u8>)> {
    s.map_values(|p: (u64, Vec<u8>)| (p.0, p.1@))
}

impl Entry {
    pub open spec fn key(&self) -> KeyView {
        (self.content_hash@, self.chain_hash@, self.dst_key@)
    }

    pub open spec fn view(&self) -> EntryView {
        (self.key(), self.public_key_set@, shares_view(self.shares@))
    }
}

/// The views of a list of entries.
pub open spec fn entries_view(s: Seq<Entry>) -> Seq<EntryView> {
    s.map_values(|e: Entry| e.view())
}

/// Collects signature shares until they can be combined.
#[derive(Debug)]
pub struct SignatureAccumulator {
    pub entries: Vec<Entry>,
    /// Accumulation keys already combined; later shares for them are dropped.
    pub completed: Vec<(Vec<u8>, Vec<u8>, Vec<u8>)>,
    /// When each entry last got a share, by position.
    pub touched: Vec<u64>,
}

/// The accumulation key of a message.
pub open spec fn acc_key(m: AccumulatingMessage) -> KeyView {
    (sha3_256_of(m.content.enc()), sha3_256_of(m.proof_chain.enc()), m.content.dst_key@)
}

/// Whether `shares` has a share at `index`.
pub open spec fn has_index(shares: Seq<(u64, Seq<u8>)>, index: u64) -> bool {
    exists|j: int| 0 <= j < shares.len() && shares[j].0 == index
}

/// The shares after adding `(index, share)`: unchanged when `index` is already there.
pub open spec fn add_share(shares: Seq<(u64, Seq<u8>)>, index: u64, share: Seq<u8>) -> Seq<(u64, Seq<u8>)> {
    if has_index(shares, index) { shares } else { shares.push((index, share)) }
}

/// Whether the indices of `shares` are distinct.
pub open spec fn distinct_indices(shares: Seq<(u64, Seq<u8>)>) -> bool {
    forall|a: int, b: int| 0 <= a < b < shares.len() ==> shares[a].0 != shares[b].0
}

/// The index of the entry with key `k`.
pub open spec fn find(es: Seq<EntryView>, k: KeyView) -> Option<int> {
    if exists|i: int| 0 <= i < es.len() && es[i].0 == k {
        Some(choose|i: int| 0 <= i < es.len() && es[i].0 == k)
    } else {
        None
    }
}

/// Whether the public key of set `new` comes after that of set `old` in `chain`.
pub open spec fn later_in(chain: Seq<Seq<u8>>, new: Seq<u8>, old: Seq<u8>) -> bool {
    match (set_public_key_of(new), set_public_key_of(old)) {
        (Some(kn), Some(ko)) => match (first_index(chain, kn), first_index(chain, ko)) {
            (Some(i), Some(j)) => i > j,
            _ => false,
        },
        _ => false,
    }
}

/// Whether an index is within the bound of a key set of threshold `t` (`index <= t * 3 / 2`)
/// and within the `elders` of the sending section.
pub open spec fn index_in_bound(index: u64, t: usize, elders: usize) -> bool {
    2 * (index as int) <= 3 * (t as int) && (index as int) < (elders as int)
}

/// The shares an entry for `k` starts from when a share for key set `set` arrives, or
/// `None` when the share is to be dropped because the entry accumulates under another set
/// that `set` does not supersede.
pub open spec fn base_shares(es: Seq<EntryView>, k: KeyView, set: Seq<u8>, chain: Seq<Seq<u8>>) -> Option<Seq<(u64, Seq<u8>)>> {
    match find(es, k) {
        None => Some(Seq::empty()),
        Some(i) => if es[i].1 == set {
            Some(es[i].2)
        } else if later_in(chain, set, es[i].1) {
            Some(Seq::empty())
        } else {
            None
        },
    }
}

/// The entries with the entry for `k` set to `e` (added at the end when there is none).
pub open spec fn put_entry(es: Seq<EntryView>, k: KeyView, e: EntryView) -> Seq<EntryView> {
    match find(es, k) {
        None => es.push(e),
        Some(i) => es.update(i, e),
    }
}

/// The entries without the entry for `k`.
pub open spec fn drop_entry(es: Seq<EntryView>, k: KeyView) -> Seq<EntryView> {
    match find(es, k) {
        None => es,
        Some(i) => es.remove(i),
    }
}

/// The combined signature that completes the shares, when there are more than the
/// threshold and their combination verifies under the set's public key.
pub open spec fn completion(set: Seq<u8>, t: usize, shares: Seq<(u64, Seq<u8>)>, signable: Seq<u8>) -> Option<Seq<u8>> {
    if shares.len() > t {
        match (combined_of(set, shares), set_public_key_of(set)) {
            (Some(sig), Some(pk)) => if bls_valid(pk, sig, signable) { Some(sig) } else { None },
            _ => None,
        }
    } else {
        None
    }
}

/// One step of the accumulator: the new view and the combined signature, if the share
/// `(index, share)` for key set `set` completes the content with key `k`.
pub open spec fn step(
    v: AccView,
    k: KeyView,
    set: Seq<u8>,
    index: u64,
    elders: usize,
    share: Seq<u8>,
    signable: Seq<u8>,
    chain: Seq<Seq<u8>>,
) -> (AccView, Option<Seq<u8>>) {
    if v.1.contains(k) || !bls_share_valid(set, index as int, share, signable) {
        (v, None)
    } else {
        match set_threshold_of(set) {
            None => (v, None),
            Some(t) => if !index_in_bound(index, t, elders) {
                (v, None)
            } else {
                match base_shares(v.0, k, set, chain) {
                    None => (v, None),
                    Some(base) => {
                        let shares = add_share(base, index, share);
                        match completion(set, t, shares, signable) {
                            Some(sig) => ((drop_entry(v.0, k), v.1.push(k)), Some(sig)),
                            None => ((put_entry(v.0, k, (k, set, shares)), v.1), None),
                        }
                    },
                }
            },
        }
    }
}

/// An accumulator view is well formed when its keys are distinct and so are the share
/// indices of each entry.
pub open spec fn acc_wf(v: AccView) -> bool {
    keys_distinct(v.0) && shares_distinct(v.0)
}

/// The keys of the entries are distinct.
pub open spec fn keys_distinct(es: Seq<EntryView>) -> bool {
    forall|a: int, b: int| 0 <= a < b < es.len() ==> es[a].0 != es[b].0
}

/// The share indices of each entry are distinct.
pub open spec fn shares_distinct(es: Seq<EntryView>) -> bool {
    forall|a: int| 0 <= a < es.len() ==> distinct_indices(#[trigger] es[a].2)
}

proof fn lemma_find_unique(es: Seq<EntryView>, k: KeyView, i: int)
    requires
        forall|a: int, b: int| 0 <= a < b < es.len() ==> es[a].0 != es[b].0,
        0 <= i < es.len(),
        es[i].0 == k,
    ensures
        find(es, k) == Some(i),
{
    let j = choose|j: int| 0 <= j < es.len() && es[j].0 == k;
    assert(0 <= j < es.len() && es[j].0 == k);
    if j < i {
        assert(es[j].0 != es[i].0);
    } else if i < j {
        assert(es[i].0 != es[j].0);
    }
}

proof fn lemma_add_share_has(shares: Seq<(u64, Seq<u8>)>, index: u64, share: Seq<u8>)
    ensures
        has_index(add_share(shares, index, share), index),
        add_share(add_share(shares, index, share), index, share) == add_share(shares, index, share),
        distinct_indices(shares) ==> distinct_indices(add_share(shares, index, share)),
        add_share(shares, index, share).len() >= shares.len(),
{
    let s2 = add_share(shares, index, share);
    if !has_index(shares, index) {
        assert(s2[shares.len() as int].0 == index);
    }
}

proof fn lemma_put_entry(es: Seq<EntryView>, k: KeyView, e: EntryView)
    requires
        forall|a: int, b: int| 0 <= a < b < es.len() ==> es[a].0 != es[b].0,
        e.0 == k,
    ensures
        ({
            let es2 = put_entry(es, k, e);
            &&& forall|a: int, b: int| 0 <= a < b < es2.len() ==> es2[a].0 != es2[b].0
            &&& find(es2, k) matches Some(i) && es2[i] == e
            &&& put_entry(es2, k, e) == es2
            &&& forall|a: int| 0 <= a < es2.len() && es2[a].0 != k ==> exists|b: int| 0 <= b < es.len() && es[b] == #[trigger] es2[a]
        }),
{
    let es2 = put_entry(es, k, e);
    match find(es, k) {
        None => {
            assert forall|a: int| 0 <= a < es.len() implies es[a].0 != k by {
                if es[a].0 == k {
                    assert(exists|i: int| 0 <= i < es.len() && es[i].0 == k);
                }
            }
            lemma_find_unique(es2, k, es.len() as int);
            assert(es2.update(es.len() as int, e) =~= es2);
            assert forall|a: int| 0 <= a < es2.len() && es2[a].0 != k implies exists|b: int| 0 <= b < es.len() && es[b] == #[trigger] es2[a] by {
                assert(es[a] == es2[a]);
            }
        },
        Some(i) => {
            lemma_find_unique(es2, k, i);
            assert(es2.update(i, e) =~= es2);
            assert forall|a: int| 0 <= a < es2.len() && es2[a].0 != k implies exists|b: int| 0 <= b < es.len() && es[b] == #[trigger] es2[a] by {
                assert(es[a] == es2[a]);
            }
        },
    }
}

/// Accumulation is idempotent: submitting the same share a second time changes nothing and
/// yields nothing, whatever the first submission did.
pub proof fn lemma_idempotent(
    v: AccView,
    k: KeyView,
    set: Seq<u8>,
    index: u64,
    elders: usize,
    share: Seq<u8>,
    signable: Seq<u8>,
    chain: Seq<Seq<u8>>,
)
    requires
        acc_wf(v),
    ensures
        ({
            let v1 = step(v, k, set, index, elders, share, signable, chain).0;
            step(v1, k, set, index, elders, share, signable, chain) == (v1, None::<Seq<u8>>)
        }),
{
    let (v1, out) = step(v, k, set, index, elders, share, signable, chain);
    if v.1.contains(k) || !bls_share_valid(set, index as int, share, signable) {
    } else {
        match set_threshold_of(set) {
            None => {},
            Some(t) => if index_in_bound(index, t, elders) {
                match base_shares(v.0, k, set, chain) {
                    None => {},
                    Some(base) => {
                        let shares = add_share(base, index, share);
                        lemma_add_share_has(base, index, share);
                        match completion(set, t, shares, signable) {
                            Some(sig) => {
                                assert(v1.1.contains(k)) by {
                                    assert(v1.1[v.1.len() as int] == k);
                                }
                            },
                            None => {
                                lemma_put_entry(v.0, k, (k, set, shares));
                                let i = find(v1.0, k)->0;
                                assert(base_shares(v1.0, k, set, chain) == Some(shares));
                            },
                        }
                    },
                }
            },
        }
    }
}

/// Threshold: a share that passes the checks completes the content exactly when, once it is
/// added, the entry holds more than the threshold of shares, at distinct indices, and their
/// combination verifies under the set's public key.
pub proof fn lemma_threshold(
    v: AccView,
    k: KeyView,
    set: Seq<u8>,
    index: u64,
    elders: usize,
    share: Seq<u8>,
    signable: Seq<u8>,
    chain: Seq<Seq<u8>>,
)
    requires
        acc_wf(v),
        !v.1.contains(k),
        bls_share_valid(set, index as int, share, signable),
        set_threshold_of(set) is Some,
        index_in_bound(index, set_threshold_of(set)->0, elders),
        base_shares(v.0, k, set, chain) is Some,
    ensures
        ({
            let t = set_threshold_of(set)->0;
            let shares = add_share(base_shares(v.0, k, set, chain)->0, index, share);
            &&& step(v, k, set, index, elders, share, signable, chain).1 is Some <==> (shares.len() >= t + 1
                && completion(set, t, shares, signable) is Some)
            &&& distinct_indices(shares)
        }),
{
    let base = base_shares(v.0, k, set, chain)->0;
    lemma_add_share_has(base, index, share);
    match find(v.0, k) {
        Some(i) => {
            assert(distinct_indices(v.0[i].2));
        },
        None => {},
    }
}

/// The view of a completed key.
pub open spec fn key_view(c: (Vec<u8>, Vec<u8>, Vec<u8>)) -> KeyView {
    (c.0@, c.1@, c.2@)
}

/// Returns a copy of a share list.
fn copy_shares(s: &Vec<(u64, Vec<u8>)>) -> (r: Vec<(u64, Vec<u8>)>)
    ensures
        shares_view(r@) == shares_view(s@),
{
    let mut r: Vec<(u64, Vec<u8>)> = Vec::new();
    let mut i: usize = 0;
    while i < s.len()
        invariant
            i <= s@.len(),
            shares_view(r@) =~= shares_view(s@).subrange(0, i as int),
        decreases s@.len() - i,
    {
        let ghost before = r@;
        let item = (s[i].0, copy_bytes(s[i].1.as_slice()));
        r.push(item);
        assert(shares_view(r@) =~= shares_view(before).push(shares_view(s@)[i as int]));
        i = i + 1;
    }
    assert(shares_view(s@).subrange(0, s@.len() as int) =~= shares_view(s@));
    r
}

/// Adds `(index, share)` to `shares` unless `index` is already there.
fn add_share_exec(shares: &mut Vec<(u64, Vec<u8>)>, index: u64, share: &[u8])
    ensures
        shares_view(final(shares)@) == add_share(shares_view(old(shares)@), index, share@),
{
    let ghost sv = shares_view(shares@);
    let mut i: usize = 0;
    while i < shares.len()
        invariant
            sv == shares_view(shares@),
            i <= shares@.len(),
            forall|j: int| 0 <= j < i ==> sv[j].0 != index,
        decreases shares@.len() - i,
    {
        if shares[i].0 == index {
            assert(sv[i as int].0 == index);
            return;
        }
        i = i + 1;
    }
    let ghost before = shares@;
    shares.push((index, copy_bytes(share)));
    assert(shares_view(shares@) =~= sv.push((index, share@)));
}

/// Returns whether the public key of set `new` comes after that of set `old` in `chain`.
fn later_in_exec(chain: &SectionProofChain, new: &[u8], old: &[u8]) -> (r: bool)
    ensures
        r == later_in(chain.keys_view(), new@, old@),
{
    let kn = match set_public_key(new) {
        Some(k) => k,
        None => return false,
    };
    let ko = match set_public_key(old) {
        Some(k) => k,
        None => return false,
    };
    match (chain.index_of(kn.as_slice()), chain.index_of(ko.as_slice())) {
        (Some(i), Some(j)) => i > j,
        (None, _) => {
            proof {
                if first_index(chain.keys_view(), kn@) is Some {
                    crate::bytes::lemma_first_index_some(chain.keys_view(), kn@);
                }
            }
            false
        },
        (_, None) => {
            proof {
                if first_index(chain.keys_view(), ko@) is Some {
                    crate::bytes::lemma_first_index_some(chain.keys_view(), ko@);
                }
            }
            false
        },
    }
}

impl SignatureAccumulator {
    /// The open entries and the completed keys.
    pub open spec fn view(&self) -> AccView {
        (entries_view(self.entries@), self.completed@.map_values(|c: (Vec<u8>, Vec<u8>, Vec<u8>)| key_view(c)))
    }

    /// Keys are distinct, and so are the share indices of each entry.
    pub open spec fn wf(&self) -> bool {
        acc_wf(self.view()) && self.touched@.len() == self.entries@.len()
    }

    /// Creates an empty accumulator.
    pub fn new() -> (r: Self)
        ensures
            r.wf(),
            r.view().0 == Seq::<EntryView>::empty(),
            r.view().1 == Seq::<KeyView>::empty(),
    {
        let r = SignatureAccumulator { entries: Vec::new(), completed: Vec::new(), touched: Vec::new() };
        assert(r.view().0 =~= Seq::<EntryView>::empty());
        assert(r.view().1 =~= Seq::<KeyView>::empty());
        r
    }

    /// Number of open entries.
    pub fn len(&self) -> (r: usize)
        ensures
            r == self.view().0.len(),
    {
        self.entries.len()
    }

    /// Returns whether the key has been combined already.
    fn is_completed(&self, k: &(Vec<u8>, Vec<u8>, Vec<u8>)) -> (r: bool)
        ensures
            r == self.view().1.contains(key_view(*k)),
    {
        let mut i: usize = 0;
        while i < self.completed.len()
            invariant
                i <= self.completed@.len(),
                forall|j: int| 0 <= j < i ==> self.view().1[j] != key_view(*k),
            decreases self.completed@.len() - i,
        {
            let c = &self.completed[i];
            if bytes_eq(c.0.as_slice(), k.0.as_slice()) && bytes_eq(c.1.as_slice(), k.1.as_slice()) && bytes_eq(c.2.as_slice(), k.2.as_slice()) {
                assert(self.view().1[i as int] == key_view(*k));
                return true;
            }
            i = i + 1;
        }
        false
    }

    /// Returns the index of the entry with key `k`.
    fn find_entry(&self, k: &(Vec<u8>, Vec<u8>, Vec<u8>)) -> (r: Option<usize>)
        requires
            self.wf(),
        ensures
            r matches Some(i) ==> find(self.view().0, key_view(*k)) == Some(i as int),
            r is None ==> find(self.view().0, key_view(*k)) is None,
    {
        let mut i: usize = 0;
        while i < self.entries.len()
            invariant
                self.wf(),
                i <= self.entries@.len(),
                forall|j: int| 0 <= j < i ==> self.view().0[j].0 != key_view(*k),
            decreases self.entries@.len() - i,
        {
            let e = &self.entries[i];
            if bytes_eq(e.content_hash.as_slice(), k.0.as_slice()) && bytes_eq(e.chain_hash.as_slice(), k.1.as_slice()) && bytes_eq(e.dst_key.as_slice(), k.2.as_slice()) {
                proof {
                    lemma_find_unique(self.view().0, key_view(*k), i as int);
                }
                return Some(i);
            }
            i = i + 1;
        }
        None
    }
}

impl SignatureAccumulator {
    /// Adds one elder's share. Returns the section's message once the shares for its content
    /// combine into a signature that verifies; the entry is then closed and later shares
    /// for it are dropped. A share that fails to verify, is out of bound, or comes for a key
    /// set that does not supersede the one accumulated so far changes nothing. `now` is the
    /// time of the call, kept for idle eviction; `elders` is the number of elders of the
    /// sending section, which bounds the share index.
    pub fn add(&mut self, msg: AccumulatingMessage, elders: usize, now: u64) -> (r: Option<Message>)
        requires
            old(self).wf(),
            msg.proof_chain.wf(),
        ensures
            final(self).wf(),
            ({
                let (v, out) = step(
                    old(self).view(),
                    acc_key(msg),
                    msg.proof_share.public_key_set@,
                    msg.proof_share.index,
                    elders,
                    msg.proof_share.signature_share@,
                    msg.content.signable_view(),
                    msg.proof_chain.keys_view(),
                );
                &&& final(self).view() == v
                &&& out is Some <==> r is Some
                &&& r matches Some(m) ==> ({
                    &&& m.wf()
                    &&& m.src matches SrcAuthority::Section { prefix, signature } && prefix == msg.content.src && signature@ == out->0
                    &&& m.dst == msg.content.dst
                    &&& m.variant == msg.content.variant
                    &&& m.dst_key == Some(msg.content.dst_key)
                    &&& m.proof_chain == Some(msg.proof_chain)
                })
            }),
    {
        let ghost v0 = self.view();
        let ghost kv = acc_key(msg);
        let ghost chain = msg.proof_chain.keys_view();
        let content_bytes = msg.content.to_bytes();
        let mut chain_bytes: Vec<u8> = Vec::new();
        msg.proof_chain.encode(&mut chain_bytes);
        assert(chain_bytes@ =~= msg.proof_chain.enc());
        let k = (sha3_256(content_bytes.as_slice()), sha3_256(chain_bytes.as_slice()), copy_bytes(msg.content.dst_key.as_slice()));
        assert(key_view(k) == kv);
        if self.is_completed(&k) {
            return None;
        }
        let signable = msg.content.signable_bytes();
        let set = &msg.proof_share.public_key_set;
        let index = msg.proof_share.index;
        if !bls_verify_share(set.as_slice(), index, msg.proof_share.signature_share.as_slice(), signable.as_slice()) {
            return None;
        }
        let t = match set_threshold(set.as_slice()) {
            Some(t) => t,
            None => return None,
        };
        if 2 * (index as u128) > 3 * (t as u128) || index as u128 >= elders as u128 {
            return None;
        }
        let found = self.find_entry(&k);
        let mut shares: Vec<(u64, Vec<u8>)> = match found {
            None => Vec::new(),
            Some(i) => {
                if bytes_eq(self.entries[i].public_key_set.as_slice(), set.as_slice()) {
                    copy_shares(&self.entries[i].shares)
                } else if later_in_exec(&msg.proof_chain, set.as_slice(), self.entries[i].public_key_set.as_slice()) {
                    Vec::new()
                } else {
                    return None;
                }
            },
        };
        assert(Some(shares_view(shares@)) =~= base_shares(v0.0, kv, set@, chain));
        add_share_exec(&mut shares, index, msg.proof_share.signature_share.as_slice());
        let ghost sv = shares_view(shares@);
        proof {
            let base = base_shares(v0.0, kv, set@, chain)->0;
            lemma_add_share_has(base, index, msg.proof_share.signature_share@);
            if let Some(i) = find(v0.0, kv) {
                assert(distinct_indices(v0.0[i].2));
            }
        }
        let mut done: Option<Vec<u8>> = None;
        if shares.len() > t {
            match (combine(set.as_slice(), &shares), set_public_key(set.as_slice())) {
                (Some(sig), Some(pk)) => {
                    if bls_verify(pk.as_slice(), sig.as_slice(), signable.as_slice()) {
                        done = Some(sig);
                    }
                },
                _ => {},
            }
        }
        assert(shares_view(shares@) == sv);
        assert(match done { Some(sig) => Some(sig@), None => None::<Seq<u8>> } == completion(set@, t, sv, signable@));
        match done {
            Some(sig) => {
                match found {
                    Some(i) => {
                        let ghost es = self.entries@;
                        let _e = self.entries.remove(i);
                        let _t = self.touched.remove(i);
                        assert(self.view().0 =~= v0.0.remove(i as int));
                    },
                    None => {},
                }
                let ghost cs = self.completed@;
                self.completed.push(k);
                assert(self.view().1 =~= v0.1.push(kv));
                proof {
                    assert forall|a: int, b: int| 0 <= a < b < self.view().0.len() implies self.view().0[a].0 != self.view().0[b].0 by {
                        if let Some(i) = found {
                            let a0 = if a < i { a } else { a + 1 };
                            let b0 = if b < i { b } else { b + 1 };
                            assert(self.view().0[a] == v0.0[a0]);
                            assert(self.view().0[b] == v0.0[b0]);
                        }
                    }
                    assert forall|a: int| 0 <= a < self.view().0.len() implies distinct_indices(#[trigger] self.view().0[a].2) by {
                        if let Some(i) = found {
                            let a0 = if a < i { a } else { a + 1 };
                            assert(self.view().0[a] == v0.0[a0]);
                        }
                    }
                }
                let AccumulatingMessage { content, proof_chain, proof_share: _ } = msg;
                Some(Message::section_src(content, sig, proof_chain))
            },
            None => {
                let entry = Entry {
                    content_hash: copy_bytes(k.0.as_slice()),
                    chain_hash: copy_bytes(k.1.as_slice()),
                    dst_key: copy_bytes(k.2.as_slice()),
                    public_key_set: copy_bytes(set.as_slice()),
                    shares,
                };
                assert(entry.view() == (kv, set@, sv));
                proof {
                    lemma_put_entry(v0.0, kv, (kv, set@, sv));
                }
                match found {
                    Some(i) => {
                        self.entries.set(i, entry);
                        self.touched.set(i, now);
                        assert(self.view().0 =~= v0.0.update(i as int, (kv, set@, sv)));
                    },
                    None => {
                        self.entries.push(entry);
                        self.touched.push(now);
                        assert(self.view().0 =~= v0.0.push((kv, set@, sv)));
                    },
                }
                proof {
                    let es2 = self.view().0;
                    assert forall|a: int| 0 <= a < es2.len() implies distinct_indices(#[trigger] es2[a].2) by {
                        if es2[a].0 != kv {
                            let b = choose|b: int| 0 <= b < v0.0.len() && v0.0[b] == es2[a];
                            assert(distinct_indices(v0.0[b].2));
                        } else {
                            let i = find(es2, kv)->0;
                            lemma_find_unique(es2, kv, a);
                        }
                    }
                }
                None
            },
        }
    }
}

/// The entries whose last share came less than `window` before `now`, in order.
pub open spec fn recent(es: Seq<EntryView>, touched: Seq<u64>, now: u64, window: u64) -> Seq<EntryView>
    decreases es.len(),
{
    if es.len() == 0 || touched.len() != es.len() {
        Seq::empty()
    } else {
        let rest = recent(es.drop_last(), touched.drop_last(), now, window);
        if (now as int) - (touched.last() as int) < window as int { rest.push(es.last()) } else { rest }
    }
}

impl SignatureAccumulator {
    /// Evicts the entries that got no share during the last `window` before `now`; the
    /// others stay, in order.
    pub fn evict_idle(&mut self, now: u64, window: u64)
        requires
            old(self).wf(),
        ensures
            final(self).wf(),
            final(self).view().0 == recent(old(self).view().0, old(self).touched@, now, window),
            final(self).view().1 == old(self).view().1,
    {
        let ghost v0 = self.view();
        let ghost t0 = self.touched@;
        let _len = self.entries.len();
        let mut es: Vec<Entry> = Vec::new();
        let mut ts: Vec<u64> = Vec::new();
        std::mem::swap(&mut es, &mut self.entries);
        std::mem::swap(&mut ts, &mut self.touched);
        let mut kept: Vec<Entry> = Vec::new();
        let mut kept_t: Vec<u64> = Vec::new();
        let ghost n = v0.0.len();
        let mut i: usize = 0;
        proof {
            assert(entries_view(es@) == v0.0);
        }
        while es.len() > 0
            invariant
                es@.len() == ts@.len(),
                es@.len() + i == n,
                t0.len() == n,
                v0.0.len() == n,
                n <= usize::MAX,
                entries_view(es@) == v0.0.subrange(i as int, n as int),
                ts@ == t0.subrange(i as int, n as int),
                kept@.len() == kept_t@.len(),
                entries_view(kept@) == recent(v0.0.subrange(0, i as int), t0.subrange(0, i as int), now, window),
                self.completed@ == old(self).completed@,
            decreases es@.len(),
        {
            let ghost before = entries_view(kept@);
            let ghost eb = es@;
            let e = es.remove(0);
            let t = ts.remove(0);
            proof {
                assert(entries_view(eb)[0] == eb[0].view());
                assert(es@ == eb.remove(0));
                assert(e.view() == v0.0[i as int]);
                assert(t == t0[i as int]);
                assert(v0.0.subrange(0, i + 1).drop_last() =~= v0.0.subrange(0, i as int));
                assert(t0.subrange(0, i + 1).drop_last() =~= t0.subrange(0, i as int));
                assert forall|k: int| 0 <= k < es@.len() implies entries_view(es@)[k] == v0.0.subrange(i + 1, n as int)[k] by {
                    assert(es@[k] == eb[k + 1]);
                    assert(entries_view(eb)[k + 1] == eb[k + 1].view());
                    assert(entries_view(eb)[k + 1] == v0.0.subrange(i as int, n as int)[k + 1]);
                }
                assert(entries_view(es@) =~= v0.0.subrange(i + 1, n as int));
                assert(ts@ =~= t0.subrange(i + 1, n as int));
            }
            if (now as i128) - (t as i128) < window as i128 {
                kept.push(e);
                kept_t.push(t);
                assert(entries_view(kept@) =~= before.push(v0.0[i as int]));
            }
            i = i + 1;
        }
        proof {
            assert(v0.0.subrange(0, n as int) =~= v0.0);
            assert(t0.subrange(0, n as int) =~= t0);
            lemma_recent_sub(v0.0, t0, now, window);
        }
        self.entries = kept;
        self.touched = kept_t;
    }
}

/// The recent entries are among the entries, and keep their keys distinct.
proof fn lemma_recent_sub(es: Seq<EntryView>, touched: Seq<u64>, now: u64, window: u64)
    requires
        keys_distinct(es),
        shares_distinct(es),
    ensures
        keys_distinct(recent(es, touched, now, window)),
        shares_distinct(recent(es, touched, now, window)),
        forall|a: int| 0 <= a < recent(es, touched, now, window).len() ==> es.contains(#[trigger] recent(es, touched, now, window)[a]),
    decreases es.len(),
{
    if es.len() == 0 || touched.len() != es.len() {
    } else {
        let d = es.drop_last();
        assert forall|a: int, b: int| 0 <= a < b < d.len() implies d[a].0 != d[b].0 by {
            assert(d[a] == es[a] && d[b] == es[b]);
            assert(es[a].0 != es[b].0);
        }
        assert forall|a: int| 0 <= a < d.len() implies distinct_indices(#[trigger] d[a].2) by {
            assert(d[a] == es[a]);
            assert(distinct_indices(es[a].2));
        }
        lemma_recent_sub(d, touched.drop_last(), now, window);
        let rest = recent(d, touched.drop_last(), now, window);
        assert forall|a: int| 0 <= a < rest.len() implies es.contains(#[trigger] rest[a]) by {
            let j = choose|j: int| 0 <= j < d.len() && d[j] == rest[a];
            assert(es[j] == rest[a]);
        }
        if (now as int) - (touched.last() as int) < window as int {
            let r2 = rest.push(es.last());
            assert forall|a: int, b: int| 0 <= a < b < r2.len() implies r2[a].0 != r2[b].0 by {
                if b == rest.len() {
                    assert(es.contains(rest[a]));
                    let j = choose|j: int| 0 <= j < d.len() && d[j] == rest[a];
                    assert(es[j] == r2[a]);
                    assert(es[es.len() - 1] == r2[b]);
                    assert(j < es.len() - 1);
                } else {
                    assert(r2[a] == rest[a] && r2[b] == rest[b]);
                }
            }
            assert forall|a: int| 0 <= a < r2.len() implies es.contains(#[trigger] r2[a]) by {
                if a == rest.len() {
                    assert(es[es.len() - 1] == r2[a]);
                }
            }
            assert forall|a: int| 0 <= a < r2.len() implies distinct_indices(#[trigger] r2[a].2) by {
                assert(es.contains(r2[a]));
                let j = choose|j: int| 0 <= j < es.len() && es[j] == r2[a];
                assert(distinct_indices(es[j].2));
            }
        } else {
            assert forall|a: int| 0 <= a < rest.len() implies distinct_indices(#[trigger] rest[a].2) by {
                let j = choose|j: int| 0 <= j < d.len() && d[j] == rest[a];
                assert(distinct_indices(d[j].2));
            }
        }
    }
}

} // verus!
