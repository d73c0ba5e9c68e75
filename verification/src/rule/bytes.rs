//! Searching in byte strings.

use vstd::prelude::*;

verus! {

/// `needle` stands in `hay` at offset `at`.
pub open spec fn occurs_at(hay: Seq<u8>, needle: Seq<u8>, at: int) -> bool {
    &&& 0 <= at
    &&& at + needle.len() <= hay.len()
    &&& hay.subrange(at, at + needle.len()) == needle
}

/// `needle` stands somewhere in `hay`.
pub open spec fn contains_seq(hay: Seq<u8>, needle: Seq<u8>) -> bool {
    exists|at: int| occurs_at(hay, needle, at)
}

/// `hay` ends with `needle`.
pub open spec fn ends_with(hay: Seq<u8>, needle: Seq<u8>) -> bool {
    occurs_at(hay, needle, hay.len() - needle.len())
}

/// Whether `needle` stands in `hay` at offset `at`.
pub fn slice_occurs_at(hay: &[u8], needle: &[u8], at: usize) -> (r: bool)
    ensures
        r == occurs_at(hay@, needle@, at as int),
{
    if at > hay.len() || needle.len() > hay.len() - at {
        return false;
    }
    let mut i: usize = 0;
    while i < needle.len()
        invariant
            at + needle@.len() <= hay@.len() <= usize::MAX,
            i <= needle@.len(),
            forall|j: int| 0 <= j < i ==> hay@[at + j] == needle@[j],
        decreases needle@.len() - i,
    {
        if hay[at + i] != needle[i] {
            assert(hay@.subrange(at as int, at + needle@.len())[i as int] == hay@[at + i]);
            return false;
        }
        i += 1;
    }
    assert(hay@.subrange(at as int, at + needle@.len()) =~= needle@);
    true
}

/// Whether `needle` stands somewhere in `hay`.
pub fn slice_contains(hay: &[u8], needle: &[u8]) -> (r: bool)
    ensures
        r == contains_seq(hay@, needle@),
{
    if needle.len() > hay.len() {
        return false;
    }
    let last = hay.len() - needle.len();
    let mut at: usize = 0;
    while at < last
        invariant
            last == hay@.len() - needle@.len(),
            at <= last,
            forall|j: int| 0 <= j < at ==> !occurs_at(hay@, needle@, j),
        decreases last - at,
    {
        if slice_occurs_at(hay, needle, at) {
            return true;
        }
        at += 1;
    }
    slice_occurs_at(hay, needle, last)
}

/// Whether `hay` ends with `needle`.
pub fn slice_ends_with(hay: &[u8], needle: &[u8]) -> (r: bool)
    ensures
        r == ends_with(hay@, needle@),
{
    if needle.len() > hay.len() {
        return false;
    }
    slice_occurs_at(hay, needle, hay.len() - needle.len())
}

/// Whether two byte strings are the same.
pub fn slice_eq(a: &[u8], b: &[u8]) -> (r: bool)
    ensures
        r == (a@ == b@),
{
    if a.len() != b.len() {
        return false;
    }
    let r = slice_occurs_at(a, b, 0);
    proof {
        assert(a@.subrange(0, a@.len() as int) =~= a@);
    }
    r
}

/// The bytes of `v` from the last to the first.
pub fn reversed(v: &[u8]) -> (r: Vec<u8>)
    ensures
        r@ == v@.reverse(),
{
    let mut out: Vec<u8> = Vec::new();
    let mut i: usize = v.len();
    while i > 0
        invariant
            i <= v@.len(),
            out@.len() == v@.len() - i,
            forall|j: int| 0 <= j < out@.len() ==> out@[j] == v@[v@.len() - 1 - j],
        decreases i,
    {
        i -= 1;
        out.push(v[i]);
    }
    assert(out@ =~= v@.reverse());
    out
}

/// The bytes of `v` from offset `from` on.
pub fn tail_of(v: &[u8], from: usize) -> (r: Vec<u8>)
    requires
        from <= v@.len(),
    ensures
        r@ == v@.skip(from as int),
{
    let mut out: Vec<u8> = Vec::new();
    let mut i: usize = from;
    while i < v.len()
        invariant
            from <= i <= v@.len(),
            out@ == v@.subrange(from as int, i as int),
        decreases v@.len() - i,
    {
        out.push(v[i]);
        i += 1;
        assert(out@ =~= v@.subrange(from as int, i as int));
    }
    assert(out@ =~= v@.skip(from as int));
    out
}

/// A needle stands in the reversed text where its reverse stands in the text,
/// counted from the other end.
pub proof fn lemma_occurs_reversed(hay: Seq<u8>, needle: Seq<u8>, at: int)
    ensures
        occurs_at(hay.reverse(), needle.reverse(), at) == occurs_at(hay, needle, hay.len() - at - needle.len()),
{
    let rh = hay.reverse();
    let rn = needle.reverse();
    let n = needle.len() as int;
    let h = hay.len() as int;
    let back = h - at - n;
    if 0 <= at && at + n <= h {
        if occurs_at(rh, rn, at) {
            assert forall|j: int| 0 <= j < n implies hay.subrange(back, back + n)[j] == needle[j] by {
                assert(rh.subrange(at, at + n)[n - 1 - j] == rn[n - 1 - j]);
            }
            assert(hay.subrange(back, back + n) =~= needle);
        }
        if occurs_at(hay, needle, back) {
            assert forall|j: int| 0 <= j < n implies rh.subrange(at, at + n)[j] == rn[j] by {
                assert(hay.subrange(back, back + n)[n - 1 - j] == needle[n - 1 - j]);
            }
            assert(rh.subrange(at, at + n) =~= rn);
        }
    }
}

} // verus!
