//! Reading an address from text: `host:port`, where the host is a version 4
//! address, a version 6 address in square brackets, or a domain.

use crate::address::{Address, AddressView, SocketAddrV4, SocketAddrV6};
use crate::error::Error;
use crate::text::push_char;
use vstd::prelude::*;
use vstd::string::StringSliceAdditionalSpecFns;

verus! {

/// The first place in `[from, to)` that holds `b`, or `to`.
pub open spec fn first_at(bytes: Seq<u8>, b: u8, from: int, to: int) -> int
    decreases to - from,
{
    if from >= to {
        to
    } else if bytes[from] == b {
        from
    } else {
        first_at(bytes, b, from + 1, to)
    }
}

/// The value of a digit, decimal or hexadecimal.
pub open spec fn digit(b: u8, hex: bool) -> Option<int> {
    if 48 <= b <= 57 {
        Some(b - 48)
    } else if hex && 97 <= b <= 102 {
        Some(b - 87)
    } else if hex && 65 <= b <= 70 {
        Some(b - 55)
    } else {
        None
    }
}

/// The number that the digits in `[from, to)` spell; nothing where there is
/// no digit or something else than digits.
pub open spec fn number(bytes: Seq<u8>, from: int, to: int, hex: bool) -> Option<int>
    decreases to - from,
{
    if to <= from {
        None
    } else {
        match digit(bytes[to - 1], hex) {
            None => None,
            Some(d) => if to - 1 == from {
                Some(d)
            } else {
                match number(bytes, from, to - 1, hex) {
                    None => None,
                    Some(n) => Some(n * (if hex {
                        16int
                    } else {
                        10int
                    }) + d),
                }
            },
        }
    }
}

/// A number of at most `digits` digits that is at most `max`.
pub open spec fn bounded_number(bytes: Seq<u8>, from: int, to: int, hex: bool, digits: int, max: int) -> Option<int> {
    if to - from > digits {
        None
    } else {
        match number(bytes, from, to, hex) {
            Some(n) if n <= max => Some(n),
            _ => None,
        }
    }
}

/// Four numbers up to 255 with dots between them, as one number; `acc`
/// holds what the parts before `from` came to.
pub open spec fn dotted(bytes: Seq<u8>, from: int, to: int, parts: nat, acc: int) -> Option<int>
    decreases parts,
{
    if parts == 0 {
        None
    } else {
        let dot = first_at(bytes, 46, from, to);
        match bounded_number(bytes, from, dot, false, 3, 255) {
            None => None,
            Some(o) => if parts == 1 {
                if dot == to {
                    Some(acc * 256 + o)
                } else {
                    None
                }
            } else if dot == to {
                None
            } else {
                dotted(bytes, dot + 1, to, (parts - 1) as nat, acc * 256 + o)
            },
        }
    }
}

/// Groups of up to four hexadecimal digits with single colons between them.
pub open spec fn groups(bytes: Seq<u8>, from: int, to: int) -> Option<Seq<int>>
    decreases to - from,
{
    let colon = first_at(bytes, 58, from, to);
    if from >= to || colon < from || colon > to {
        None
    } else if colon == to {
        match bounded_number(bytes, from, colon, true, 4, 0xffff) {
            None => None,
            Some(g) => Some(seq![g]),
        }
    } else {
        match (bounded_number(bytes, from, colon, true, 4, 0xffff), groups(bytes, colon + 1, to)) {
            (Some(g), Some(rest)) => Some(seq![g] + rest),
            _ => None,
        }
    }
}

/// Groups as above, or none at all.
pub open spec fn group_list(bytes: Seq<u8>, from: int, to: int) -> Option<Seq<int>> {
    if from >= to {
        Some(Seq::empty())
    } else {
        groups(bytes, from, to)
    }
}

/// The first place in `[from, to)` where two colons stand in a row, or `to`.
pub open spec fn double_colon(bytes: Seq<u8>, from: int, to: int) -> int
    decreases to - from,
{
    if from + 1 >= to {
        to
    } else if bytes[from] == 58 && bytes[from + 1] == 58 {
        from
    } else {
        double_colon(bytes, from + 1, to)
    }
}

/// Eight groups as one number, the first group in the highest bits.
pub open spec fn value8(g: Seq<int>) -> int {
    g[0] * 0x10000000000000000000000000000 + g[1] * 0x1000000000000000000000000 + g[2] * 0x100000000000000000000 + g[3] * 0x10000000000000000 + g[4] * 0x1000000000000 + g[5] * 0x100000000 + g[6] * 0x10000 + g[7] * 0x1
}

/// Zeros.
pub open spec fn zeros(n: int) -> Seq<int> {
    Seq::new(n as nat, |i: int| 0int)
}

/// A version 6 address: eight groups, or fewer with one `::` in the place
/// of the groups that are zero.
pub open spec fn ipv6_at(bytes: Seq<u8>, from: int, to: int) -> Option<int> {
    let gap = double_colon(bytes, from, to);
    if gap == to {
        match groups(bytes, from, to) {
            Some(g) if g.len() == 8 => Some(value8(g)),
            _ => None,
        }
    } else {
        match (group_list(bytes, from, gap), group_list(bytes, gap + 2, to)) {
            (Some(h), Some(t)) if h.len() + t.len() <= 7 => Some(value8(h + zeros(8 - h.len() - t.len()) + t)),
            _ => None,
        }
    }
}

/// The text in `[from, to)`.
pub open spec fn text_at(bytes: Seq<u8>, from: int, to: int) -> Seq<char> {
    Seq::new((to - from) as nat, |i: int| bytes[from + i] as char)
}

/// What a text of ASCII bytes says as an address.
///
/// A text that starts with `[` holds a version 6 address up to the first
/// `]`, then a colon and the port. Any other text holds the host up to its
/// first colon and the port behind it; the host is a version 4 address
/// where it reads as one, else a domain, which is not empty. The port is a
/// decimal number of at most five digits up to 65535.
pub open spec fn address_of(bytes: Seq<u8>) -> Option<AddressView> {
    let len = bytes.len() as int;
    if len > 0 && bytes[0] == 91 {
        let close = first_at(bytes, 93, 1, len);
        if close + 1 >= len || bytes[close + 1] != 58 {
            None
        } else {
            match (ipv6_at(bytes, 1, close), bounded_number(bytes, close + 2, len, false, 5, 65535)) {
                (Some(ip), Some(port)) => Some(AddressView::V6(SocketAddrV6 { ip: ip as u128, port: port as u16 })),
                _ => None,
            }
        }
    } else {
        let colon = first_at(bytes, 58, 0, len);
        if colon == 0 || colon == len {
            None
        } else {
            match bounded_number(bytes, colon + 1, len, false, 5, 65535) {
                None => None,
                Some(port) => match dotted(bytes, 0, colon, 4, 0) {
                    Some(ip) => Some(AddressView::V4(SocketAddrV4 { ip: ip as u32, port: port as u16 })),
                    None => Some(AddressView::Domain(text_at(bytes, 0, colon), port as u16)),
                },
            }
        }
    }
}

/// Finds the first place in `[from, to)` that holds `b`.
pub fn find_byte(buf: &[u8], b: u8, from: usize, to: usize) -> (r: usize)
    requires
        from <= to <= buf@.len(),
    ensures
        r == first_at(buf@, b, from as int, to as int),
        from <= r <= to,
{
    let mut i: usize = from;
    while i < to
        invariant
            from <= i <= to <= buf@.len(),
            first_at(buf@, b, i as int, to as int) == first_at(buf@, b, from as int, to as int),
        decreases to - i,
    {
        if buf[i] == b {
            return i;
        }
        i += 1;
    }
    to
}

/// The value of a digit.
pub fn digit_value(b: u8, hex: bool) -> (r: Option<u8>)
    ensures
        match r {
            Some(d) => digit(b, hex) == Some(d as int) && d < 16 && (!hex ==> d < 10),
            None => digit(b, hex) is None,
        },
{
    if 48 <= b && b <= 57 {
        Some(b - 48)
    } else if hex && 97 <= b && b <= 102 {
        Some(b - 87)
    } else if hex && 65 <= b && b <= 70 {
        Some(b - 55)
    } else {
        None
    }
}

/// Reads a number of at most `digits` digits that is at most `max`.
pub fn read_number(buf: &[u8], from: usize, to: usize, hex: bool, digits: usize, max: u32) -> (r: Option<u32>)
    requires
        from <= to <= buf@.len(),
        digits <= 5,
    ensures
        match r {
            Some(n) => bounded_number(buf@, from as int, to as int, hex, digits as int, max as int) == Some(n as int),
            None => bounded_number(buf@, from as int, to as int, hex, digits as int, max as int) is None,
        },
{
    if to - from > digits || to == from {
        return None;
    }
    let mut acc: u32 = 0;
    let mut i: usize = from;
    while i < to
        invariant
            from <= i <= to <= buf@.len(),
            to - from <= digits <= 5,
            i > from ==> number(buf@, from as int, i as int, hex) == Some(acc as int),
            i == from ==> acc == 0,
            acc < limit16((i - from) as int),
        decreases to - i,
    {
        let d = match digit_value(buf[i], hex) {
            Some(d) => d,
            None => {
                proof {
                    if number(buf@, from as int, to as int, hex) is Some {
                        lemma_number_prefix(buf@, from as int, i + 1, to as int, hex);
                    }
                }
                return None;
            },
        };
        if hex {
            acc = acc * 16 + d as u32;
        } else {
            acc = acc * 10 + d as u32;
        }
        i += 1;
    }
    if acc <= max {
        Some(acc)
    } else {
        None
    }
}

/// What a number of so many digits stays below.
pub open spec fn limit16(digits: int) -> int {
    if digits <= 0 {
        1
    } else if digits == 1 {
        16
    } else if digits == 2 {
        256
    } else if digits == 3 {
        4096
    } else if digits == 4 {
        65536
    } else {
        1048576
    }
}

/// Where a row of digits spells a number, every shorter row from the same
/// start does.
pub proof fn lemma_number_prefix(bytes: Seq<u8>, from: int, mid: int, to: int, hex: bool)
    requires
        from < mid <= to,
        number(bytes, from, to, hex) is Some,
    ensures
        number(bytes, from, mid, hex) is Some,
    decreases to - mid,
{
    if mid < to {
        lemma_number_prefix(bytes, from, mid + 1, to, hex);
    }
}

/// Reads four numbers up to 255 with dots between them.
pub fn read_dotted(buf: &[u8], from: usize, to: usize) -> (r: Option<u32>)
    requires
        from <= to <= buf@.len(),
    ensures
        match r {
            Some(ip) => dotted(buf@, from as int, to as int, 4, 0) == Some(ip as int),
            None => dotted(buf@, from as int, to as int, 4, 0) is None,
        },
{
    let mut acc: u32 = 0;
    let mut pos: usize = from;
    let mut parts: u8 = 4;
    while parts > 0
        invariant
            from <= pos <= to <= buf@.len(),
            parts <= 4,
            acc < limit_octets(4 - parts),
            dotted(buf@, pos as int, to as int, parts as nat, acc as int) == dotted(buf@, from as int, to as int, 4, 0),
        decreases parts,
    {
        let dot = find_byte(buf, 46, pos, to);
        let o = match read_number(buf, pos, dot, false, 3, 255) {
            Some(o) => o,
            None => {
                return None;
            },
        };
        acc = acc * 256 + o;
        if parts == 1 {
            if dot == to {
                return Some(acc);
            }
            return None;
        }
        if dot == to {
            return None;
        }
        pos = dot + 1;
        parts -= 1;
    }
    None
}

/// What so many octets stay below.
pub open spec fn limit_octets(n: int) -> int {
    if n <= 0 {
        1
    } else if n == 1 {
        256
    } else if n == 2 {
        65536
    } else if n == 3 {
        16777216
    } else {
        4294967296
    }
}

/// The groups as plain numbers.
pub open spec fn ints_of(g: Seq<u16>) -> Seq<int> {
    Seq::new(g.len(), |i: int| g[i] as int)
}

/// Reads groups of hexadecimal digits with single colons between them; at
/// most eight of them.
pub fn read_groups(buf: &[u8], from: usize, to: usize) -> (r: Option<Vec<u16>>)
    requires
        from <= to <= buf@.len(),
    ensures
        match r {
            Some(g) => group_list(buf@, from as int, to as int) == Some(ints_of(g@)) && g@.len() <= 8,
            None => group_list(buf@, from as int, to as int) is None || group_list(buf@, from as int, to as int)->0.len()
                > 8,
        },
{
    let mut out: Vec<u16> = Vec::new();
    if from >= to {
        assert(ints_of(out@) =~= Seq::<int>::empty());
        return Some(out);
    }
    let mut pos: usize = from;
    loop
        invariant
            from <= pos < to <= buf@.len(),
            out@.len() <= 8,
            match groups(buf@, pos as int, to as int) {
                Some(rest) => groups(buf@, from as int, to as int) == Some(ints_of(out@) + rest),
                None => groups(buf@, from as int, to as int) is None,
            },
        decreases to - pos,
    {
        let colon = find_byte(buf, 58, pos, to);
        let g = match read_number(buf, pos, colon, true, 4, 0xffff) {
            Some(g) => g,
            None => {
                return None;
            },
        };
        if out.len() >= 8 {
            proof {
                match groups(buf@, pos as int, to as int) {
                    Some(rest) => {
                        assert((ints_of(out@) + rest).len() > 8);
                    },
                    None => {},
                }
            }
            return None;
        }
        let ghost before = ints_of(out@);
        out.push(g as u16);
        proof {
            assert(ints_of(out@) =~= before + seq![g as int]);
        }
        if colon == to {
            proof {
                assert(before + seq![g as int] =~= ints_of(out@));
            }
            return Some(out);
        }
        if colon + 1 >= to {
            return None;
        }
        proof {
            match groups(buf@, colon + 1, to as int) {
                Some(rest) => {
                    assert(ints_of(out@) + rest =~= before + (seq![g as int] + rest));
                },
                None => {},
            }
        }
        pos = colon + 1;
    }
}

/// Finds the first place where two colons stand in a row.
pub fn find_double_colon(buf: &[u8], from: usize, to: usize) -> (r: usize)
    requires
        from <= to <= buf@.len(),
    ensures
        r == double_colon(buf@, from as int, to as int),
        from <= r <= to,
        r < to ==> r + 2 <= to,
{
    let mut i: usize = from;
    while i < to && to - i >= 2
        invariant
            from <= i <= to <= buf@.len(),
            double_colon(buf@, i as int, to as int) == double_colon(buf@, from as int, to as int),
        decreases to - i,
    {
        if buf[i] == 58 && buf[i + 1] == 58 {
            return i;
        }
        i += 1;
    }
    to
}

/// Eight groups as one number.
pub fn join_groups(g: &Vec<u16>) -> (r: u128)
    requires
        g@.len() == 8,
    ensures
        r == value8(ints_of(g@)),
{
    (g[0] as u128) * 0x10000000000000000000000000000 + (g[1] as u128) * 0x1000000000000000000000000 + (g[2] as u128) * 0x100000000000000000000 + (g[3] as u128) * 0x10000000000000000 + (g[4] as u128) * 0x1000000000000 + (g[5] as u128) * 0x100000000 + (g[6] as u128) * 0x10000 + (g[7] as u128) * 0x1
}

/// Reads a version 6 address.
pub fn read_ipv6(buf: &[u8], from: usize, to: usize) -> (r: Option<u128>)
    requires
        from <= to <= buf@.len(),
    ensures
        match r {
            Some(ip) => ipv6_at(buf@, from as int, to as int) == Some(ip as int),
            None => ipv6_at(buf@, from as int, to as int) is None,
        },
{
    let gap = find_double_colon(buf, from, to);
    if gap == to {
        if from >= to {
            return None;
        }
        match read_groups(buf, from, to) {
            Some(g) => {
                if g.len() == 8 {
                    Some(join_groups(&g))
                } else {
                    None
                }
            },
            None => None,
        }
    } else {
        let head = match read_groups(buf, from, gap) {
            Some(h) => h,
            None => {
                return None;
            },
        };
        let tail = match read_groups(buf, gap + 2, to) {
            Some(t) => t,
            None => {
                return None;
            },
        };
        if head.len() + tail.len() > 7 {
            return None;
        }
        let fill = 8 - head.len() - tail.len();
        let mut all: Vec<u16> = Vec::new();
        let mut i: usize = 0;
        while i < head.len()
            invariant
                i <= head@.len(),
                all@ == head@.take(i as int),
            decreases head@.len() - i,
        {
            all.push(head[i]);
            i += 1;
            assert(all@ =~= head@.take(i as int));
        }
        assert(head@.take(head@.len() as int) =~= head@);
        assert(ints_of(all@) =~= ints_of(head@) + zeros(0));
        let mut z: usize = 0;
        while z < fill
            invariant
                z <= fill,
                all@.len() == head@.len() + z,
                ints_of(all@) == ints_of(head@) + zeros(z as int),
            decreases fill - z,
        {
            let ghost before = ints_of(all@);
            all.push(0);
            z += 1;
            proof {
                assert(ints_of(all@) =~= before.push(0int));
                assert(zeros(z as int) =~= zeros(z - 1).push(0int));
                assert(ints_of(all@) =~= ints_of(head@) + zeros(z as int));
            }
        }
        assert(ints_of(tail@.take(0)) =~= Seq::<int>::empty());
        assert(ints_of(all@) =~= ints_of(head@) + zeros(fill as int) + ints_of(tail@.take(0)));
        let mut j: usize = 0;
        while j < tail.len()
            invariant
                j <= tail@.len(),
                all@.len() == head@.len() + fill + j,
                ints_of(all@) == ints_of(head@) + zeros(fill as int) + ints_of(tail@.take(j as int)),
            decreases tail@.len() - j,
        {
            let ghost before = ints_of(all@);
            all.push(tail[j]);
            j += 1;
            proof {
                assert(ints_of(all@) =~= before.push(tail@[j - 1] as int));
                assert(ints_of(tail@.take(j as int)) =~= ints_of(tail@.take(j - 1)).push(tail@[j - 1] as int));
                assert(ints_of(all@) =~= ints_of(head@) + zeros(fill as int) + ints_of(tail@.take(j as int)));
            }
        }
        assert(tail@.take(tail@.len() as int) =~= tail@);
        Some(join_groups(&all))
    }
}

/// The text in `[from, to)` of a buffer of ASCII bytes.
pub fn read_text(buf: &[u8], from: usize, to: usize) -> (r: String)
    requires
        from <= to <= buf@.len(),
        forall|i: int| from <= i < to ==> (#[trigger] buf@[i]) < 128,
    ensures
        r@ == text_at(buf@, from as int, to as int),
{
    let mut out = String::new();
    let mut i: usize = from;
    while i < to
        invariant
            from <= i <= to <= buf@.len(),
            forall|k: int| from <= k < to ==> (#[trigger] buf@[k]) < 128,
            out@ == text_at(buf@, from as int, i as int),
        decreases to - i,
    {
        let ghost before = out@;
        push_char(&mut out, buf[i] as char);
        i += 1;
        assert(out@ =~= text_at(buf@, from as int, i as int));
    }
    out
}

/// Whether every byte is ASCII.
pub fn all_ascii(buf: &[u8]) -> (r: bool)
    ensures
        r == forall|i: int| 0 <= i < buf@.len() ==> (#[trigger] buf@[i]) < 128,
{
    let mut i: usize = 0;
    while i < buf.len()
        invariant
            i <= buf@.len(),
            forall|k: int| 0 <= k < i ==> (#[trigger] buf@[k]) < 128,
        decreases buf@.len() - i,
    {
        if buf[i] >= 128 {
            return false;
        }
        i += 1;
    }
    true
}

/// Reads an address from bytes.
pub fn read_address(buf: &[u8]) -> (r: Option<Address>)
    requires
        forall|i: int| 0 <= i < buf@.len() ==> (#[trigger] buf@[i]) < 128,
    ensures
        match r {
            Some(a) => address_of(buf@) == Some(a@),
            None => address_of(buf@) is None,
        },
{
    let len = buf.len();
    if len > 0 && buf[0] == 91 {
        let close = find_byte(buf, 93, 1, len);
        if len - close <= 1 || buf[close + 1] != 58 {
            return None;
        }
        let ip = match read_ipv6(buf, 1, close) {
            Some(ip) => ip,
            None => {
                return None;
            },
        };
        match read_number(buf, close + 2, len, false, 5, 65535) {
            Some(port) => Some(Address::V6(SocketAddrV6 { ip, port: port as u16 })),
            None => None,
        }
    } else {
        let colon = find_byte(buf, 58, 0, len);
        if colon == 0 || colon == len {
            return None;
        }
        let port = match read_number(buf, colon + 1, len, false, 5, 65535) {
            Some(port) => port as u16,
            None => {
                return None;
            },
        };
        match read_dotted(buf, 0, colon) {
            Some(ip) => Some(Address::V4(SocketAddrV4 { ip, port })),
            None => Some(Address::Domain(read_text(buf, 0, colon), port)),
        }
    }
}

/// What a text says as an address: what its bytes say, if all of them are ASCII.
pub open spec fn parsed(text: Seq<char>) -> Option<AddressView> {
    let bytes = vstd::utf8::encode_utf8(text);
    if forall|i: int| 0 <= i < bytes.len() ==> (#[trigger] bytes[i]) < 128 {
        address_of(bytes)
    } else {
        None
    }
}

impl Address {
    /// The domain and the port of an address that has to be looked up
    /// before it can be reached; nothing for a socket address.
    pub fn domain(&self) -> (r: Option<(&String, u16)>)
        ensures
            match (r, self@) {
                (Some((d, p)), AddressView::Domain(domain, port)) => d@ == domain && p == port,
                (None, AddressView::V4(_)) => true,
                (None, AddressView::V6(_)) => true,
                _ => false,
            },
    {
        match self {
            Address::Domain(d, p) => Some((d, *p)),
            _ => None,
        }
    }

    /// Reads an address of the form `host:port`.
    pub fn parse(text: &str) -> (r: Result<Address, Error>)
        ensures
            match r {
                Ok(a) => parsed(text@) == Some(a@),
                Err(e) => parsed(text@) is None && e is Other,
            },
    {
        let buf = text.as_bytes();
        if !all_ascii(buf) {
            return Err(Error::Other("Failed to parse address: ".to_string().concat(text)));
        }
        match read_address(buf) {
            Some(a) => Ok(a),
            None => Err(Error::Other("Failed to parse address: ".to_string().concat(text))),
        }
    }
}

} // verus!
