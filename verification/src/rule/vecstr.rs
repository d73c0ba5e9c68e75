//! A list of strings that is kept in one piece of memory.

use crate::visitor::names_of;
use vstd::prelude::*;
use vstd::string::StringSliceAdditionalSpecFns;

verus! {

/// The compact list of strings of the crate vec-strings.
#[verifier::external_type_specification]
#[verifier::external_body]
pub struct ExStrings(vec_strings::Strings);

/// The strings that a compact list holds, in their order.
pub uninterp spec fn strings_items(list: vec_strings::Strings) -> Seq<Seq<char>>;

/// The number of bytes that the first `n` strings take.
pub open spec fn total_bytes(items: Seq<Seq<char>>, n: int) -> int
    decreases n,
{
    if n <= 0 {
        0
    } else {
        total_bytes(items, n - 1) + vstd::utf8::encode_utf8(items[n - 1]).len()
    }
}

/// Whether a list of these strings has room for one more of `len` bytes:
/// a compact list holds fewer than 2^32 strings of fewer than 2^32 bytes in all.
pub open spec fn has_room(items: Seq<Seq<char>>, len: int) -> bool {
    items.len() < u32::MAX && total_bytes(items, items.len() as int) + len <= u32::MAX
}

/// `Strings::new` of vec-strings gives an empty list.
#[verifier::external_body]
fn strings_new() -> (r: vec_strings::Strings)
    ensures
        strings_items(r) == Seq::<Seq<char>>::empty(),
{
    vec_strings::Strings::new()
}

/// `Strings::push` of vec-strings puts a copy of the string at the end of
/// the list. It needs the list to have room.
#[verifier::external_body]
fn strings_push(list: &mut vec_strings::Strings, item: &str)
    requires
        has_room(strings_items(*old(list)), item.spec_bytes().len() as int),
    ensures
        strings_items(*final(list)) == strings_items(*old(list)).push(item@),
{
    list.push(item);
}

/// `Strings::len` of vec-strings gives the number of strings.
#[verifier::external_body]
fn strings_len(list: &vec_strings::Strings) -> (r: u32)
    requires
        strings_items(*list).len() <= u32::MAX,
    ensures
        r == strings_items(*list).len(),
{
    list.len()
}

/// `Strings::get` of vec-strings gives the string at a place, here as a
/// copy; it gives nothing for a place behind the end.
#[verifier::external_body]
fn strings_get(list: &vec_strings::Strings, index: u32) -> (r: Option<String>)
    ensures
        match r {
            Some(item) => index < strings_items(*list).len() && item@ == strings_items(*list)[index as int],
            None => index >= strings_items(*list).len(),
        },
{
    match list.get(index) {
        Some(item) => Some(item.to_string()),
        None => None,
    }
}

/// A compact list of strings.
pub struct MyStrings {
    pub inner: vec_strings::Strings,
}

/// One string, or a compact list of strings.
pub enum VecStr {
    Single(String),
    Vec(MyStrings),
}

/// A place in a `VecStr`.
pub struct Iter<'a> {
    pub inner: &'a VecStr,
    pub index: usize,
}

impl VecStr {
    /// The strings, in their order.
    pub open spec fn items(&self) -> Seq<Seq<char>> {
        match self {
            VecStr::Single(s) => seq![s@],
            VecStr::Vec(v) => strings_items(v.inner),
        }
    }

    /// A compact list holds no more than it can count.
    pub open spec fn wf(&self) -> bool {
        self.items().len() <= u32::MAX
    }

    /// A walk from the first string on.
    pub fn iter(&self) -> (r: Iter<'_>)
        ensures
            r.inner == self,
            r.index == 0,
    {
        Iter { inner: self, index: 0 }
    }

    /// The strings as a list of their own.
    pub fn into_vec(self) -> (r: Vec<String>)
        requires
            self.wf(),
        ensures
            names_of(r@) == self.items(),
    {
        match self {
            VecStr::Single(t) => {
                let mut out: Vec<String> = Vec::new();
                out.push(t);
                assert(names_of(out@) =~= seq![t@]);
                out
            },
            VecStr::Vec(v) => {
                let n = strings_len(&v.inner);
                let mut out: Vec<String> = Vec::new();
                let mut i: u32 = 0;
                while i < n
                    invariant
                        i <= n,
                        n == strings_items(v.inner).len(),
                        out@.len() == i,
                        forall|j: int| 0 <= j < i ==> out@[j]@ == strings_items(v.inner)[j],
                    decreases n - i,
                {
                    match strings_get(&v.inner, i) {
                        Some(item) => {
                            out.push(item);
                        },
                        None => {},
                    }
                    i += 1;
                }
                assert(names_of(out@) =~= strings_items(v.inner));
                out
            },
        }
    }

    /// A compact list of the strings of `x`, where they fit into one.
    pub fn from_vec(x: Vec<String>) -> (r: Option<VecStr>)
        ensures
            match r {
                Some(v) => v.items() == names_of(x@) && v.wf() && has_room(names_of(x@), 0),
                None => !has_room(names_of(x@), 0),
            },
    {
        let ghost all = names_of(x@);
        let mut list = strings_new();
        let mut total: usize = 0;
        let mut i: usize = 0;
        assert(all.take(0) =~= Seq::<Seq<char>>::empty());
        while i < x.len()
            invariant
                i <= x@.len(),
                all == names_of(x@),
                strings_items(list) == all.take(i as int),
                total == total_bytes(all, i as int),
                total <= u32::MAX,
                i < u32::MAX,
            decreases x@.len() - i,
        {
            let item = x[i].as_str();
            let len = item.as_bytes().len();
            proof {
                assert(all[i as int] == item@);
                assert(len == vstd::utf8::encode_utf8(all[i as int]).len());
                assert(total_bytes(all, i + 1) == total + len);
                lemma_total_bytes_grows(all, i + 1, x@.len() as int);
                lemma_total_bytes_take(all, i as int);
            }
            if i >= 0xffff_ffff - 1 || len > 0xffff_ffff - total {
                return None;
            }
            strings_push(&mut list, item);
            total = total + len;
            i += 1;
            proof {
                assert(all.take(i as int) =~= all.take(i - 1).push(item@));
            }
        }
        proof {
            assert(all.take(x@.len() as int) =~= all);
        }
        Some(VecStr::Vec(MyStrings { inner: list }))
    }
}

/// The bytes of more strings are no fewer.
pub proof fn lemma_total_bytes_grows(items: Seq<Seq<char>>, n: int, m: int)
    requires
        0 <= n <= m,
    ensures
        total_bytes(items, n) <= total_bytes(items, m),
        0 <= total_bytes(items, n),
    decreases m,
{
    if n < m {
        lemma_total_bytes_grows(items, n, m - 1);
    } else if n > 0 {
        lemma_total_bytes_grows(items, n - 1, n - 1);
    }
}

/// The bytes of the first strings are the bytes of the list of the first strings.
pub proof fn lemma_total_bytes_take(items: Seq<Seq<char>>, n: int)
    requires
        0 <= n <= items.len(),
    ensures
        total_bytes(items.take(n), n) == total_bytes(items, n),
    decreases n,
{
    if n > 0 {
        lemma_total_bytes_take(items, n - 1);
        lemma_total_bytes_same(items.take(n), items.take(n - 1), n - 1);
    }
}

/// Lists that agree on their first strings take the same bytes for them.
pub proof fn lemma_total_bytes_same(a: Seq<Seq<char>>, b: Seq<Seq<char>>, n: int)
    requires
        0 <= n <= a.len(),
        n <= b.len(),
        forall|i: int| 0 <= i < n ==> a[i] == b[i],
    ensures
        total_bytes(a, n) == total_bytes(b, n),
    decreases n,
{
    if n > 0 {
        lemma_total_bytes_same(a, b, n - 1);
    }
}

impl<'a> Iter<'a> {
    /// The string at the place of the walk, and one step on.
    pub fn next(&mut self) -> (r: Option<String>)
        requires
            old(self).inner.wf(),
        ensures
            final(self).inner == old(self).inner,
            match r {
                Some(item) => old(self).index < old(self).inner.items().len() && item@ == old(self).inner.items()[old(
                    self,
                ).index as int] && final(self).index == old(self).index + 1,
                None => old(self).index >= old(self).inner.items().len() && final(self).index == old(self).index,
            },
    {
        match self.inner {
            VecStr::Single(x) => {
                if self.index == 0 {
                    self.index = 1;
                    Some(x.clone())
                } else {
                    None
                }
            },
            VecStr::Vec(x) => {
                if self.index > 0xffff_ffff {
                    return None;
                }
                let r = strings_get(&x.inner, self.index as u32);
                if r.is_some() {
                    self.index = self.index + 1;
                }
                r
            },
        }
    }
}

} // verus!
