//! Small operations on byte strings and lists of byte strings.
use vstd::prelude::*;

verus! {

/// The byte strings of a list, as sequences.
pub open spec fn seqs_of(v: Seq<Vec<u8>>) -> Seq<Seq<u8>> {
    v.map_values(|b: Vec<u8>| b@)
}

/// Returns whether two byte strings are equal.
pub fn bytes_eq(a: &[u8], b: &[u8]) -> (r: bool)
    ensures
        r == (a@ == b@),
{
    if a.len() != b.len() {
        return false;
    }
    let mut i: usize = 0;
    while i < a.len()
        invariant
            a@.len() == b@.len(),
            i <= a@.len(),
            forall|j: int| 0 <= j < i ==> a@[j] == b@[j],
        decreases a@.len() - i,
    {
        if a[i] != b[i] {
            return false;
        }
        i = i + 1;
    }
    assert(a@ =~= b@);
    true
}

/// Returns a copy of a byte string.
pub fn copy_bytes(a: &[u8]) -> (r: Vec<u8>)
    ensures
        r@ == a@,
{
    let mut r: Vec<u8> = Vec::new();
    let mut i: usize = 0;
    while i < a.len()
        invariant
            i <= a@.len(),
            r@ == a@.subrange(0, i as int),
        decreases a@.len() - i,
    {
        r.push(a[i]);
        i = i + 1;
    }
    assert(r@ =~= a@);
    r
}

/// Returns a copy of `v[from..to]`, each byte string copied.
pub fn copy_range(v: &Vec<Vec<u8>>, from: usize, to: usize) -> (r: Vec<Vec<u8>>)
    requires
        from <= to <= v@.len(),
    ensures
        seqs_of(r@) == seqs_of(v@).subrange(from as int, to as int),
        r@.len() == to - from,
{
    let mut r: Vec<Vec<u8>> = Vec::new();
    let mut i: usize = from;
    while i < to
        invariant
            from <= i <= to <= v@.len(),
            seqs_of(r@) =~= seqs_of(v@).subrange(from as int, i as int),
            r@.len() == i - from,
        decreases to - i,
    {
        let c = copy_bytes(v[i].as_slice());
        let ghost before = r@;
        r.push(c);
        proof {
            assert(r@ == before.push(c));
            assert(seqs_of(r@) =~= seqs_of(before).push(c@));
        }
        i = i + 1;
    }
    r
}

/// Appends copies of all byte strings of `src` to `dst`.
pub fn append_copies(dst: &mut Vec<Vec<u8>>, src: &Vec<Vec<u8>>)
    ensures
        seqs_of(final(dst)@) == seqs_of(old(dst)@) + seqs_of(src@),
        final(dst)@.len() == old(dst)@.len() + src@.len(),
{
    let ghost d0 = seqs_of(dst@);
    let mut i: usize = 0;
    while i < src.len()
        invariant
            i <= src@.len(),
            seqs_of(dst@) =~= d0 + seqs_of(src@).subrange(0, i as int),
            dst@.len() == d0.len() + i,
            d0.len() == old(dst)@.len(),
        decreases src@.len() - i,
    {
        let c = copy_bytes(src[i].as_slice());
        let ghost before = dst@;
        dst.push(c);
        proof {
            assert(dst@ == before.push(c));
            assert(seqs_of(dst@) =~= seqs_of(before).push(c@));
        }
        i = i + 1;
    }
    assert(seqs_of(src@).subrange(0, src@.len() as int) =~= seqs_of(src@));
}

/// Returns the index of the first occurrence of `x` in `v`, if any.
pub fn position(v: &Vec<Vec<u8>>, x: &[u8]) -> (r: Option<usize>)
    ensures
        r matches Some(i) ==> first_index(seqs_of(v@), x@) == Some(i as int),
        r is None ==> first_index(seqs_of(v@), x@) is None,
{
    let mut i: usize = 0;
    while i < v.len()
        invariant
            i <= v@.len(),
            forall|j: int| 0 <= j < i ==> seqs_of(v@)[j] != x@,
        decreases v@.len() - i,
    {
        if bytes_eq(v[i].as_slice(), x) {
            proof {
                lemma_first_index_at(seqs_of(v@), x@, i as int);
            }
            return Some(i);
        }
        i = i + 1;
    }
    proof {
        lemma_first_index_none(seqs_of(v@), x@);
    }
    None
}

/// The index of the first occurrence of `x` in `s`.
pub open spec fn first_index(s: Seq<Seq<u8>>, x: Seq<u8>) -> Option<int> {
    if exists|i: int| 0 <= i < s.len() && s[i] == x {
        let i = choose|i: int| 0 <= i < s.len() && s[i] == x && forall|j: int| 0 <= j < i ==> s[j] != x;
        Some(i)
    } else {
        None
    }
}

pub proof fn lemma_first_index_at(s: Seq<Seq<u8>>, x: Seq<u8>, i: int)
    requires
        0 <= i < s.len(),
        s[i] == x,
        forall|j: int| 0 <= j < i ==> s[j] != x,
    ensures
        first_index(s, x) == Some(i),
{
    let k = choose|k: int| 0 <= k < s.len() && s[k] == x && forall|j: int| 0 <= j < k ==> s[j] != x;
    assert(0 <= k < s.len() && s[k] == x && forall|j: int| 0 <= j < k ==> s[j] != x);
    assert(k == i);
}

pub proof fn lemma_first_index_none(s: Seq<Seq<u8>>, x: Seq<u8>)
    requires
        forall|j: int| 0 <= j < s.len() ==> s[j] != x,
    ensures
        first_index(s, x) is None,
{
}

/// What `first_index` returns, when it returns an index.
pub proof fn lemma_first_index_some(s: Seq<Seq<u8>>, x: Seq<u8>)
    requires
        first_index(s, x) is Some,
    ensures
        ({
            let i = first_index(s, x)->0;
            0 <= i < s.len() && s[i] == x && forall|j: int| 0 <= j < i ==> s[j] != x
        }),
{
    let w = choose|i: int| 0 <= i < s.len() && s[i] == x;
    lemma_first_exists(s, x, w);
    let k = choose|k: int| 0 <= k < s.len() && s[k] == x && forall|j: int| 0 <= j < k ==> s[j] != x;
    assert(first_index(s, x) == Some(k));
}

proof fn lemma_first_exists(s: Seq<Seq<u8>>, x: Seq<u8>, w: int)
    requires
        0 <= w < s.len(),
        s[w] == x,
    ensures
        exists|i: int| 0 <= i < s.len() && s[i] == x && forall|j: int| 0 <= j < i ==> s[j] != x,
    decreases w,
{
    if exists|j: int| 0 <= j < w && s[j] == x {
        let j = choose|j: int| 0 <= j < w && s[j] == x;
        lemma_first_exists(s, x, j);
    } else {
        assert(forall|j: int| 0 <= j < w ==> s[j] != x);
    }
}

} // verus!
