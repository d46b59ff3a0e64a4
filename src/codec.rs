//! The canonical wire form: integers as 8 little-endian bytes, byte strings and lists
//! prefixed by their length. Every value has exactly one encoding, and each reader takes
//! back exactly what the matching writer wrote.
use vstd::prelude::*;
use vstd::bytes::{spec_u64_from_le_bytes, spec_u64_to_le_bytes, u64_from_le_bytes, u64_to_le_bytes, lemma_auto_spec_u64_to_from_le_bytes};
use vstd::slice::slice_subrange;
use crate::bytes::{copy_bytes, seqs_of};

verus! {

/// Encoding of an integer.
pub open spec fn enc_u64(x: u64) -> Seq<u8> {
    spec_u64_to_le_bytes(x)
}

/// Encoding of a byte string: its length, then its bytes.
pub open spec fn enc_bytes(b: Seq<u8>) -> Seq<u8> {
    enc_u64(b.len() as u64) + b
}

/// Encodings of the byte strings of a list, one after the other.
pub open spec fn enc_items(l: Seq<Seq<u8>>) -> Seq<u8>
    decreases l.len(),
{
    if l.len() == 0 {
        Seq::empty()
    } else {
        enc_items(l.drop_last()) + enc_bytes(l.last())
    }
}

/// Encoding of a list of byte strings: its length, then its items.
pub open spec fn enc_list(l: Seq<Seq<u8>>) -> Seq<u8> {
    enc_u64(l.len() as u64) + enc_items(l)
}

/// Encoding of an optional byte string: a tag byte, then the string if there is one.
pub open spec fn enc_opt_bytes(b: Option<Seq<u8>>) -> Seq<u8> {
    match b {
        Some(b) => seq![1u8] + enc_bytes(b),
        None => seq![0u8],
    }
}

/// Whether `buf` holds `x` at `pos`.
pub open spec fn holds_at(buf: Seq<u8>, pos: int, x: Seq<u8>) -> bool {
    0 <= pos && pos + x.len() <= buf.len() && buf.subrange(pos, pos + x.len()) == x
}

pub proof fn lemma_enc_u64_len(x: u64)
    ensures
        enc_u64(x).len() == 8,
        spec_u64_from_le_bytes(enc_u64(x)) == x,
{
    lemma_auto_spec_u64_to_from_le_bytes();
}

/// Holding `x + y` at `pos` is holding `x` at `pos` and `y` right after it.
pub proof fn lemma_holds_split(buf: Seq<u8>, pos: int, x: Seq<u8>, y: Seq<u8>)
    ensures
        holds_at(buf, pos, x + y) <==> (holds_at(buf, pos, x) && holds_at(buf, pos + x.len(), y)),
{
    if holds_at(buf, pos, x + y) {
        assert(buf.subrange(pos, pos + x.len()) =~= (x + y).subrange(0, x.len() as int));
        assert(buf.subrange(pos + x.len(), pos + x.len() + y.len()) =~= (x + y).subrange(x.len() as int, (x + y).len() as int));
        assert((x + y).subrange(0, x.len() as int) =~= x);
        assert((x + y).subrange(x.len() as int, (x + y).len() as int) =~= y);
    }
    if holds_at(buf, pos, x) && holds_at(buf, pos + x.len(), y) {
        assert(buf.subrange(pos, pos + (x + y).len()) =~= buf.subrange(pos, pos + x.len()) + buf.subrange(pos + x.len(), pos + x.len() + y.len()));
    }
}

/// Writes an integer.
pub fn put_u64(out: &mut Vec<u8>, x: u64)
    ensures
        final(out)@ == old(out)@ + enc_u64(x),
{
    let b = u64_to_le_bytes(x);
    let mut i: usize = 0;
    let ghost o = out@;
    while i < b.len()
        invariant
            i <= b@.len(),
            out@ == o + b@.subrange(0, i as int),
        decreases b@.len() - i,
    {
        out.push(b[i]);
        i = i + 1;
        assert(out@ =~= o + b@.subrange(0, i as int));
    }
    assert(b@.subrange(0, b@.len() as int) =~= b@);
}

/// Writes one byte.
pub fn put_u8(out: &mut Vec<u8>, x: u8)
    ensures
        final(out)@ == old(out)@ + seq![x],
{
    out.push(x);
}

/// Writes raw bytes, with no length.
pub fn put_raw(out: &mut Vec<u8>, b: &[u8])
    ensures
        final(out)@ == old(out)@ + b@,
{
    let mut i: usize = 0;
    let ghost o = out@;
    while i < b.len()
        invariant
            i <= b@.len(),
            out@ == o + b@.subrange(0, i as int),
        decreases b@.len() - i,
    {
        out.push(b[i]);
        i = i + 1;
        assert(out@ =~= o + b@.subrange(0, i as int));
    }
    assert(b@.subrange(0, b@.len() as int) =~= b@);
}

/// Writes a byte string with its length.
pub fn put_bytes(out: &mut Vec<u8>, b: &[u8])
    ensures
        final(out)@ == old(out)@ + enc_bytes(b@),
{
    let ghost o = out@;
    put_u64(out, b.len() as u64);
    put_raw(out, b);
    assert(out@ =~= o + enc_bytes(b@));
}

/// Writes a list of byte strings.
pub fn put_list(out: &mut Vec<u8>, l: &Vec<Vec<u8>>)
    ensures
        final(out)@ == old(out)@ + enc_list(seqs_of(l@)),
{
    let ghost o = out@;
    put_u64(out, l.len() as u64);
    let mut i: usize = 0;
    while i < l.len()
        invariant
            i <= l@.len(),
            out@ == o + enc_u64(l@.len() as u64) + enc_items(seqs_of(l@).subrange(0, i as int)),
        decreases l@.len() - i,
    {
        let ghost before = out@;
        put_bytes(out, l[i].as_slice());
        proof {
            let s = seqs_of(l@).subrange(0, i + 1);
            assert(s.drop_last() =~= seqs_of(l@).subrange(0, i as int));
            assert(s.last() == l@[i as int]@);
        }
        i = i + 1;
        assert(out@ =~= o + enc_u64(l@.len() as u64) + enc_items(seqs_of(l@).subrange(0, i as int)));
    }
    assert(seqs_of(l@).subrange(0, l@.len() as int) =~= seqs_of(l@));
    assert(out@ =~= o + enc_list(seqs_of(l@)));
}

/// Writes an optional byte string.
pub fn put_opt_bytes(out: &mut Vec<u8>, b: &Option<Vec<u8>>)
    ensures
        final(out)@ == old(out)@ + enc_opt_bytes(match b { Some(b) => Some(b@), None => None }),
{
    let ghost o = out@;
    match b {
        Some(b) => {
            put_u8(out, 1);
            put_bytes(out, b.as_slice());
            assert(out@ =~= o + (seq![1u8] + enc_bytes(b@)));
        },
        None => {
            put_u8(out, 0);
        },
    }
}

/// Reads an integer at `pos`; returns it and the position after it.
pub fn get_u64(buf: &[u8], pos: usize) -> (r: Option<(u64, usize)>)
    ensures
        r matches Some((x, p)) ==> p == pos + 8 && holds_at(buf@, pos as int, enc_u64(x)),
        forall|w: u64| #[trigger] holds_at(buf@, pos as int, enc_u64(w)) ==> (r matches Some((x, _)) && x == w),
{
    proof { lemma_auto_spec_u64_to_from_le_bytes(); }
    if pos > buf.len() || buf.len() - pos < 8 {
        proof {
            assert forall|x: u64| !holds_at(buf@, pos as int, enc_u64(x)) by {
                lemma_enc_u64_len(x);
            }
        }
        return None;
    }
    let s = slice_subrange(buf, pos, pos + 8);
    let x = u64_from_le_bytes(s);
    proof {
        assert(s@ == buf@.subrange(pos as int, pos + 8));
        lemma_enc_u64_len(x);
        assert forall|w: u64| #[trigger] holds_at(buf@, pos as int, enc_u64(w)) implies w == x by {
            lemma_enc_u64_len(w);
        }
    }
    Some((x, pos + 8))
}

/// Reads one byte at `pos`.
pub fn get_u8(buf: &[u8], pos: usize) -> (r: Option<(u8, usize)>)
    ensures
        r matches Some((x, p)) ==> p == pos + 1 && holds_at(buf@, pos as int, seq![x]),
        forall|w: u8| #[trigger] holds_at(buf@, pos as int, seq![w]) ==> (r matches Some((x, _)) && x == w),
{
    if pos >= buf.len() {
        assert forall|w: u8| !holds_at(buf@, pos as int, #[trigger] seq![w]) by {}
        return None;
    }
    let x = buf[pos];
    assert(buf@.subrange(pos as int, pos + 1) =~= seq![x]);
    assert forall|w: u8| #[trigger] holds_at(buf@, pos as int, seq![w]) implies w == x by {
        assert(buf@.subrange(pos as int, pos + 1)[0] == w);
    }
    Some((x, pos + 1))
}

/// Reads a byte string with its length at `pos`.
pub fn get_bytes(buf: &[u8], pos: usize) -> (r: Option<(Vec<u8>, usize)>)
    ensures
        r matches Some((b, p)) ==> p == pos + enc_bytes(b@).len() && holds_at(buf@, pos as int, enc_bytes(b@)),
        forall|w: Seq<u8>| #[trigger] holds_at(buf@, pos as int, enc_bytes(w)) ==> (r matches Some((b, _)) && b@ == w),
{
    let blen: u64 = buf.len() as u64;
    assert(buf@.len() <= u64::MAX);
    let r = get_bytes_inner(buf, pos);
    proof {
        assert forall|w: Seq<u8>| #[trigger] holds_at(buf@, pos as int, enc_bytes(w)) implies (r matches Some((b, _)) && b@ == w) by {
            let (b, _) = r->0;
            lemma_enc_bytes_unique(buf@, pos as int, b@, w);
        }
    }
    r
}

fn get_bytes_inner(buf: &[u8], pos: usize) -> (r: Option<(Vec<u8>, usize)>)
    ensures
        r matches Some((b, p)) ==> p == pos + enc_bytes(b@).len() && holds_at(buf@, pos as int, enc_bytes(b@)),
        (exists|b: Seq<u8>| holds_at(buf@, pos as int, enc_bytes(b))) ==> r is Some,
{
    let (n, p) = match get_u64(buf, pos) {
        Some(x) => x,
        None => {
            proof {
                assert forall|b: Seq<u8>| !holds_at(buf@, pos as int, enc_bytes(b)) by {
                    lemma_holds_split(buf@, pos as int, enc_u64(b.len() as u64), b);
                }
            }
            return None;
        },
    };
    proof { lemma_enc_u64_len(n); }
    if n > (buf.len() - p) as u64 {
        proof {
            assert forall|b: Seq<u8>| !holds_at(buf@, pos as int, enc_bytes(b)) by {
                lemma_holds_split(buf@, pos as int, enc_u64(b.len() as u64), b);
                if holds_at(buf@, pos as int, enc_bytes(b)) {
                    lemma_enc_u64_len(b.len() as u64);
                    lemma_enc_u64_len(n);
                    assert(enc_u64(b.len() as u64) == buf@.subrange(pos as int, pos + 8));
                    assert(b.len() as u64 == n);
                }
            }
        }
        return None;
    }
    let end: usize = p + n as usize;
    let s = slice_subrange(buf, p, end);
    let b = copy_bytes(s);
    proof {
        assert(b@ == buf@.subrange(p as int, end as int));
        assert(b@.len() == n);
        lemma_holds_split(buf@, pos as int, enc_u64(b@.len() as u64), b@);
    }
    Some((b, end))
}

/// Reads a list of byte strings at `pos`.
pub fn get_list(buf: &[u8], pos: usize) -> (r: Option<(Vec<Vec<u8>>, usize)>)
    ensures
        r matches Some((l, p)) ==> p == pos + enc_list(seqs_of(l@)).len() && holds_at(buf@, pos as int, enc_list(seqs_of(l@))),
        forall|w: Seq<Seq<u8>>| #[trigger] holds_at(buf@, pos as int, enc_list(w)) ==> (r matches Some((l, _)) && seqs_of(l@) == w),
{
    let blen: u64 = buf.len() as u64;
    assert(buf@.len() <= u64::MAX);
    let r = get_list_inner(buf, pos);
    proof {
        assert forall|w: Seq<Seq<u8>>| #[trigger] holds_at(buf@, pos as int, enc_list(w)) implies (r matches Some((l, _)) && seqs_of(l@) == w) by {
            let (l, _) = r->0;
            lemma_list_unique(buf@, pos as int, seqs_of(l@), w);
        }
    }
    r
}

fn get_list_inner(buf: &[u8], pos: usize) -> (r: Option<(Vec<Vec<u8>>, usize)>)
    ensures
        r matches Some((l, p)) ==> p == pos + enc_list(seqs_of(l@)).len() && holds_at(buf@, pos as int, enc_list(seqs_of(l@))),
        (exists|l: Seq<Seq<u8>>| holds_at(buf@, pos as int, enc_list(l))) ==> r is Some,
{
    let blen: u64 = buf.len() as u64;
    assert(buf@.len() <= u64::MAX);
    let ghost wit: Option<Seq<Seq<u8>>> = if exists|l: Seq<Seq<u8>>| holds_at(buf@, pos as int, enc_list(l)) {
        Some(choose|l: Seq<Seq<u8>>| holds_at(buf@, pos as int, enc_list(l)))
    } else {
        None
    };
    proof {
        if let Some(w) = wit {
            lemma_holds_split(buf@, pos as int, enc_u64(w.len() as u64), enc_items(w));
        }
    }
    let (n, p0) = match get_u64(buf, pos) {
        Some(x) => x,
        None => return None,
    };
    proof {
        lemma_enc_u64_len(n);
        if let Some(w) = wit {
            lemma_enc_u64_len(w.len() as u64);
            assert(enc_u64(w.len() as u64) == buf@.subrange(pos as int, pos + 8));
            assert(w.len() as u64 == n);
            lemma_items_len(w);
            assert(w.len() == n);
        }
    }
    let mut l: Vec<Vec<u8>> = Vec::new();
    let mut p: usize = p0;
    let mut i: u64 = 0;
    assert(enc_items(seqs_of(l@)) =~= Seq::<u8>::empty());
    assert(buf@.subrange(p0 as int, p0 as int) =~= Seq::<u8>::empty());
    while i < n
        invariant
            p0 == pos + 8,
            buf@.len() <= u64::MAX,
            i <= n,
            l@.len() == i,
            holds_at(buf@, pos as int, enc_u64(n)),
            holds_at(buf@, p0 as int, enc_items(seqs_of(l@))),
            p == p0 + enc_items(seqs_of(l@)).len(),
            wit matches Some(w) ==> w.len() == n && seqs_of(l@) == w.subrange(0, i as int)
                && holds_at(buf@, p0 as int, enc_items(w)),
            (exists|l: Seq<Seq<u8>>| holds_at(buf@, pos as int, enc_list(l))) ==> wit is Some,
        decreases n - i,
    {
        proof {
            if let Some(w) = wit {
                lemma_items_prefix_holds(buf@, p0 as int, w, i + 1);
                assert(w.subrange(0, i + 1).drop_last() =~= w.subrange(0, i as int));
                lemma_holds_split(buf@, p0 as int, enc_items(w.subrange(0, i as int)), enc_bytes(w[i as int]));
                assert(holds_at(buf@, p as int, enc_bytes(w[i as int])));
            }
        }
        let (b, q) = match get_bytes(buf, p) {
            Some(x) => x,
            None => return None,
        };
        let ghost before = l@;
        proof {
            lemma_holds_split(buf@, p0 as int, enc_items(seqs_of(l@)), enc_bytes(b@));
        }
        l.push(b);
        proof {
            assert(seqs_of(l@).drop_last() =~= seqs_of(before));
            assert(seqs_of(l@).last() == b@);
            if let Some(w) = wit {
                lemma_enc_bytes_unique(buf@, p as int, b@, w[i as int]);
                assert(seqs_of(l@) =~= w.subrange(0, i + 1));
            }
        }
        p = q;
        i = i + 1;
    }
    proof {
        assert(n == l@.len() as u64);
        lemma_holds_split(buf@, pos as int, enc_u64(n), enc_items(seqs_of(l@)));
    }
    Some((l, p))
}

/// Two byte strings whose encodings are both held at one position are equal.
pub proof fn lemma_enc_bytes_unique(buf: Seq<u8>, pos: int, a: Seq<u8>, b: Seq<u8>)
    requires
        buf.len() <= u64::MAX,
        holds_at(buf, pos, enc_bytes(a)),
        holds_at(buf, pos, enc_bytes(b)),
    ensures
        a == b,
{
    lemma_holds_split(buf, pos, enc_u64(a.len() as u64), a);
    lemma_holds_split(buf, pos, enc_u64(b.len() as u64), b);
    lemma_enc_u64_len(a.len() as u64);
    lemma_enc_u64_len(b.len() as u64);
    assert(enc_u64(a.len() as u64) == buf.subrange(pos, pos + 8));
    assert(enc_u64(b.len() as u64) == buf.subrange(pos, pos + 8));
    assert(a.len() as u64 == b.len() as u64);
    assert(a == buf.subrange(pos + 8, pos + 8 + a.len()));
}

/// Two lists whose encodings are both held at one position are equal.
pub proof fn lemma_list_unique(buf: Seq<u8>, pos: int, a: Seq<Seq<u8>>, b: Seq<Seq<u8>>)
    requires
        buf.len() <= u64::MAX,
        holds_at(buf, pos, enc_list(a)),
        holds_at(buf, pos, enc_list(b)),
    ensures
        a == b,
{
    lemma_holds_split(buf, pos, enc_u64(a.len() as u64), enc_items(a));
    lemma_holds_split(buf, pos, enc_u64(b.len() as u64), enc_items(b));
    lemma_enc_u64_len(a.len() as u64);
    lemma_enc_u64_len(b.len() as u64);
    assert(enc_u64(a.len() as u64) == buf.subrange(pos, pos + 8));
    assert(enc_u64(b.len() as u64) == buf.subrange(pos, pos + 8));
    lemma_items_len(a);
    lemma_items_len(b);
    assert(a.len() == b.len());
    lemma_items_unique_upto(buf, pos + 8, a, b, a.len() as int);
    assert(a =~= a.subrange(0, a.len() as int));
    assert(b =~= b.subrange(0, b.len() as int));
}

proof fn lemma_items_unique_upto(buf: Seq<u8>, pos: int, a: Seq<Seq<u8>>, b: Seq<Seq<u8>>, i: int)
    requires
        buf.len() <= u64::MAX,
        a.len() == b.len(),
        0 <= i <= a.len(),
        holds_at(buf, pos, enc_items(a)),
        holds_at(buf, pos, enc_items(b)),
    ensures
        a.subrange(0, i) == b.subrange(0, i),
    decreases i,
{
    if i == 0 {
        assert(a.subrange(0, 0) =~= b.subrange(0, 0));
    } else {
        lemma_items_unique_upto(buf, pos, a, b, i - 1);
        lemma_items_prefix_holds(buf, pos, a, i);
        lemma_items_prefix_holds(buf, pos, b, i);
        assert(a.subrange(0, i).drop_last() =~= a.subrange(0, i - 1));
        assert(b.subrange(0, i).drop_last() =~= b.subrange(0, i - 1));
        lemma_holds_split(buf, pos, enc_items(a.subrange(0, i - 1)), enc_bytes(a[i - 1]));
        lemma_holds_split(buf, pos, enc_items(b.subrange(0, i - 1)), enc_bytes(b[i - 1]));
        lemma_enc_bytes_unique(buf, pos + enc_items(a.subrange(0, i - 1)).len(), a[i - 1], b[i - 1]);
        assert(a.subrange(0, i) =~= b.subrange(0, i));
    }
}

/// The items of a list take at least 8 bytes each.
pub proof fn lemma_items_len(w: Seq<Seq<u8>>)
    ensures
        enc_items(w).len() >= 8 * w.len(),
    decreases w.len(),
{
    if w.len() > 0 {
        lemma_items_len(w.drop_last());
        lemma_enc_u64_len(w.last().len() as u64);
    }
}

/// Where the items of a list are held, so are the items of each prefix of it.
pub proof fn lemma_items_prefix_holds(buf: Seq<u8>, pos: int, w: Seq<Seq<u8>>, j: int)
    requires
        0 <= j <= w.len(),
        holds_at(buf, pos, enc_items(w)),
    ensures
        holds_at(buf, pos, enc_items(w.subrange(0, j))),
    decreases w.len() - j,
{
    if j == w.len() {
        assert(w.subrange(0, j) =~= w);
    } else {
        lemma_items_prefix_holds(buf, pos, w, j + 1);
        assert(w.subrange(0, j + 1).drop_last() =~= w.subrange(0, j));
        lemma_holds_split(buf, pos, enc_items(w.subrange(0, j)), enc_bytes(w[j]));
    }
}

} // verus!
