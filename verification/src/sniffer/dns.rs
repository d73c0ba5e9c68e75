//! Reading DNS replies: the name that was asked for, and the addresses that
//! the reply gives.

use crate::address::IpAddress;
use crate::rule::ipcidr::{be128, be32};
use crate::text::push_char;
use vstd::prelude::*;

verus! {

/// The length of the header of a DNS message.
pub const HEADER_LEN: usize = 12;

/// The type of a record that holds a version 4 address.
pub const TYPE_A: u16 = 1;

/// The type of a record that holds a version 6 address.
pub const TYPE_AAAA: u16 = 28;

/// The longest label of a name.
pub const MAX_LABEL: u8 = 63;

/// Two octets as a number, the first octet in the higher bits.
pub open spec fn u16_at(buf: Seq<u8>, at: int) -> int {
    (buf[at] as int) * 256 + (buf[at + 1] as int)
}

/// Two octets of the buffer as a number.
pub fn read_u16(buf: &[u8], at: usize) -> (r: u16)
    requires
        at + 2 <= buf@.len(),
    ensures
        r == u16_at(buf@, at as int),
{
    (buf[at] as u16) * 256 + (buf[at + 1] as u16)
}

/// A name that is written out label by label, as text with dots between the
/// labels, and the offset behind it. Every label has between 1 and 63
/// octets, all of them ASCII; a label of length 0 ends the name. A name
/// that is cut off, that holds another octet or that refers to another
/// place of the message reads as nothing.
pub open spec fn plain_name(buf: Seq<u8>, at: int, first: bool) -> Option<(Seq<char>, int)>
    decreases buf.len() - at,
{
    if at < 0 || at >= buf.len() {
        None
    } else if buf[at] == 0 {
        Some((Seq::empty(), at + 1))
    } else if buf[at] > MAX_LABEL || at + 1 + buf[at] > buf.len() || !label_is_ascii(buf, at + 1, buf[at] as int) {
        None
    } else {
        match plain_name(buf, at + 1 + buf[at], false) {
            Some((rest, end)) => Some(
                (
                    (if first {
                        Seq::<char>::empty()
                    } else {
                        seq!['.']
                    }) + label_text(buf, at + 1, buf[at] as int) + rest,
                    end,
                ),
            ),
            None => None,
        }
    }
}

/// Whether the `len` octets from `at` on are ASCII.
pub open spec fn label_is_ascii(buf: Seq<u8>, at: int, len: int) -> bool {
    forall|i: int| at <= i < at + len ==> (#[trigger] buf[i]) < 128
}

/// The `len` octets from `at` on as text.
pub open spec fn label_text(buf: Seq<u8>, at: int, len: int) -> Seq<char> {
    Seq::new(len as nat, |i: int| buf[at + i] as char)
}

/// The offset behind a name in any form: behind the label of length 0 that
/// ends it, or behind the two octets that refer to another place of the message.
pub open spec fn name_end(buf: Seq<u8>, at: int) -> Option<int>
    decreases buf.len() - at,
{
    if at < 0 || at >= buf.len() {
        None
    } else if buf[at] == 0 {
        Some(at + 1)
    } else if buf[at] >= 192 {
        if at + 2 <= buf.len() {
            Some(at + 2)
        } else {
            None
        }
    } else if buf[at] > MAX_LABEL || at + 1 + buf[at] > buf.len() {
        None
    } else {
        name_end(buf, at + 1 + buf[at])
    }
}

/// Reads a name that is written out label by label.
pub fn read_plain_name(buf: &[u8], at: usize) -> (r: Option<(String, usize)>)
    ensures
        match r {
            Some((name, end)) => plain_name(buf@, at as int, true) == Some((name@, end as int)) && end <= buf@.len(),
            None => plain_name(buf@, at as int, true) is None,
        },
{
    let mut name = String::new();
    let mut pos: usize = at;
    let mut first = true;
    loop
        invariant
            at <= pos,
            match plain_name(buf@, pos as int, first) {
                Some((rest, end)) => plain_name(buf@, at as int, true) == Some((name@ + rest, end)),
                None => plain_name(buf@, at as int, true) is None,
            },
        decreases buf@.len() - pos,
    {
        if pos >= buf.len() {
            return None;
        }
        let len = buf[pos];
        if len == 0 {
            proof {
                assert(name@ + Seq::<char>::empty() =~= name@);
            }
            return Some((name, pos + 1));
        }
        if len > MAX_LABEL || len as usize > buf.len() - pos - 1 {
            return None;
        }
        let ghost before = name@;
        let ghost from = pos as int + 1;
        let ghost sep = if first {
            Seq::<char>::empty()
        } else {
            seq!['.']
        };
        if !first {
            push_char(&mut name, '.');
        }
        proof {
            assert(name@ =~= before + sep);
        }
        let mut i: usize = 0;
        while i < len as usize
            invariant
                i <= len,
                from == pos + 1,
                from + len <= buf@.len() <= usize::MAX,
                pos < buf@.len(),
                len == buf@[pos as int],
                0 < len <= MAX_LABEL,
                name@ == before + sep + label_text(buf@, from, i as int),
                forall|j: int| from <= j < from + i ==> (#[trigger] buf@[j]) < 128,
                match plain_name(buf@, pos as int, first) {
                    Some((rest, end)) => plain_name(buf@, at as int, true) == Some((before + rest, end)),
                    None => plain_name(buf@, at as int, true) is None,
                },
            decreases len - i,
        {
            let b = buf[pos + 1 + i];
            if b >= 128 {
                proof {
                    assert(!label_is_ascii(buf@, from, len as int));
                }
                return None;
            }
            push_char(&mut name, b as char);
            i += 1;
            proof {
                assert(label_text(buf@, from, i as int) =~= label_text(buf@, from, i - 1).push(b as char));
                assert(name@ =~= before + sep + label_text(buf@, from, i as int));
            }
        }
        proof {
            assert(label_is_ascii(buf@, from, len as int));
            let label = label_text(buf@, from, len as int);
            match plain_name(buf@, from + len, false) {
                Some((rest, end)) => {
                    assert(name@ + rest =~= before + (sep + label + rest));
                },
                None => {},
            }
        }
        pos = pos + 1 + len as usize;
        first = false;
    }
}

/// Finds the offset behind a name in any form.
pub fn skip_name(buf: &[u8], at: usize) -> (r: Option<usize>)
    ensures
        match r {
            Some(end) => name_end(buf@, at as int) == Some(end as int) && end <= buf@.len(),
            None => name_end(buf@, at as int) is None,
        },
{
    let mut pos: usize = at;
    loop
        invariant
            at <= pos,
            name_end(buf@, pos as int) == name_end(buf@, at as int),
        decreases buf@.len() - pos,
    {
        if pos >= buf.len() {
            return None;
        }
        let len = buf[pos];
        if len == 0 {
            return Some(pos + 1);
        }
        if len >= 192 {
            if buf.len() - pos >= 2 {
                return Some(pos + 2);
            }
            return None;
        }
        if len > MAX_LABEL || len as usize > buf.len() - pos - 1 {
            return None;
        }
        pos = pos + 1 + len as usize;
    }
}

/// One answer of a reply: its address where it holds one, and the offset
/// behind it.
pub open spec fn answer_at(buf: Seq<u8>, at: int) -> Option<(Option<IpAddress>, int)> {
    match name_end(buf, at) {
        None => None,
        Some(fixed) => if fixed + 10 > buf.len() {
            None
        } else {
            let kind = u16_at(buf, fixed);
            let len = u16_at(buf, fixed + 8);
            let data = fixed + 10;
            if data + len > buf.len() {
                None
            } else if kind == TYPE_A && len == 4 {
                Some((Some(IpAddress::V4(be32(buf.subrange(data, data + 4)) as u32)), data + len))
            } else if kind == TYPE_AAAA && len == 16 {
                Some((Some(IpAddress::V6(be128(buf.subrange(data, data + 16)) as u128)), data + len))
            } else {
                Some((None, data + len))
            }
        },
    }
}

/// The addresses of `count` answers from `at` on, in their order; nothing
/// where an answer is cut off.
pub open spec fn answers_from(buf: Seq<u8>, at: int, count: nat) -> Option<Seq<IpAddress>>
    decreases count,
{
    if count == 0 {
        Some(Seq::empty())
    } else {
        match answer_at(buf, at) {
            None => None,
            Some((ip, next)) => match answers_from(buf, next, (count - 1) as nat) {
                None => None,
                Some(rest) => Some(
                    (match ip {
                        Some(a) => seq![a],
                        None => Seq::empty(),
                    }) + rest,
                ),
            },
        }
    }
}

/// The offset behind `count` questions from `at` on.
pub open spec fn questions_end(buf: Seq<u8>, at: int, count: nat) -> Option<int>
    decreases count,
{
    if count == 0 {
        Some(at)
    } else {
        match name_end(buf, at) {
            None => None,
            Some(fixed) => if fixed + 4 > buf.len() {
                None
            } else {
                questions_end(buf, fixed + 4, (count - 1) as nat)
            },
        }
    }
}

/// What a reply says: the name that was asked for, and the addresses that
/// it gives.
pub struct DnsReply {
    pub name: String,
    pub addresses: Vec<IpAddress>,
}

/// What a message says if it is a reply to at least one question: the name
/// of its first question, written out, and the addresses of its answers.
/// Anything else reads as nothing.
pub open spec fn reply_of(buf: Seq<u8>) -> Option<(Seq<char>, Seq<IpAddress>)> {
    if buf.len() < HEADER_LEN || buf[2] < 128 || u16_at(buf, 4) == 0 {
        None
    } else {
        match plain_name(buf, HEADER_LEN as int, true) {
            None => None,
            Some((name, _)) => match questions_end(buf, HEADER_LEN as int, u16_at(buf, 4) as nat) {
                None => None,
                Some(answers) => match answers_from(buf, answers, u16_at(buf, 6) as nat) {
                    None => None,
                    Some(addresses) => Some((name, addresses)),
                },
            },
        }
    }
}

/// Four octets of the buffer as a version 4 address.
fn read_v4(buf: &[u8], at: usize) -> (r: u32)
    requires
        at + 4 <= buf@.len(),
    ensures
        r == be32(buf@.subrange(at as int, at + 4)),
{
    let ghost s = buf@.subrange(at as int, at + 4);
    assert(s[0] == buf@[at as int] && s[1] == buf@[at + 1] && s[2] == buf@[at + 2] && s[3] == buf@[at + 3]);
    (buf[at] as u32) * 0x100_0000 + (buf[at + 1] as u32) * 0x1_0000 + (buf[at + 2] as u32) * 0x100 + (buf[at + 3] as u32)
}

/// Sixteen octets of the buffer as a version 6 address.
fn read_v6(buf: &[u8], at: usize) -> (r: u128)
    requires
        at + 16 <= buf@.len(),
    ensures
        r == be128(buf@.subrange(at as int, at + 16)),
{
    let mut octets: [u8; 16] = [0;16];
    let total = buf.len();
    let mut i: usize = 0;
    while i < 16
        invariant
            i <= 16,
            at + 16 <= buf@.len() <= usize::MAX,
            forall|j: int| 0 <= j < i ==> octets@[j] == buf@[at + j],
        decreases 16 - i,
    {
        octets[i] = buf[at + i];
        i += 1;
    }
    assert(octets@ =~= buf@.subrange(at as int, at + 16));
    crate::rule::ipcidr::ipv6_from_octets(octets)
}

/// Reads one answer.
fn read_answer(buf: &[u8], at: usize) -> (r: Option<(Option<IpAddress>, usize)>)
    ensures
        match r {
            Some((ip, next)) => answer_at(buf@, at as int) == Some((ip, next as int)) && next <= buf@.len(),
            None => answer_at(buf@, at as int) is None,
        },
{
    let fixed = match skip_name(buf, at) {
        Some(fixed) => fixed,
        None => {
            return None;
        },
    };
    if buf.len() - fixed < 10 {
        return None;
    }
    let kind = read_u16(buf, fixed);
    let len = read_u16(buf, fixed + 8) as usize;
    let data = fixed + 10;
    if len > buf.len() - data {
        return None;
    }
    if kind == TYPE_A && len == 4 {
        Some((Some(IpAddress::V4(read_v4(buf, data))), data + len))
    } else if kind == TYPE_AAAA && len == 16 {
        Some((Some(IpAddress::V6(read_v6(buf, data))), data + len))
    } else {
        Some((None, data + len))
    }
}

/// Reads a message. A message that is no reply, that has no question, or
/// that is cut off or malformed anywhere reads as nothing.
pub fn parse_reply(buf: &[u8]) -> (r: Option<DnsReply>)
    ensures
        match r {
            Some(reply) => reply_of(buf@) == Some((reply.name@, reply.addresses@)),
            None => reply_of(buf@) is None,
        },
{
    if buf.len() < HEADER_LEN || buf[2] < 128 {
        return None;
    }
    let questions = read_u16(buf, 4);
    let answers = read_u16(buf, 6);
    if questions == 0 {
        return None;
    }
    let (name, name_stop) = match read_plain_name(buf, HEADER_LEN) {
        Some((name, stop)) => (name, stop),
        None => {
            return None;
        },
    };
    let mut pos: usize = HEADER_LEN;
    let mut q: u16 = 0;
    while q < questions
        invariant
            q <= questions,
            pos <= buf@.len(),
            buf@.len() >= HEADER_LEN,
            buf@[2] >= 128,
            questions != 0,
            questions == u16_at(buf@, 4),
            answers == u16_at(buf@, 6),
            plain_name(buf@, HEADER_LEN as int, true) == Some((name@, name_stop as int)),
            questions_end(buf@, pos as int, (questions - q) as nat) == questions_end(
                buf@,
                HEADER_LEN as int,
                questions as nat,
            ),
        decreases questions - q,
    {
        let fixed = match skip_name(buf, pos) {
            Some(fixed) => fixed,
            None => {
                return None;
            },
        };
        if buf.len() - fixed < 4 {
            return None;
        }
        pos = fixed + 4;
        q += 1;
    }
    let ghost start = pos as int;
    let mut addresses: Vec<IpAddress> = Vec::new();
    let mut a: u16 = 0;
    while a < answers
        invariant
            a <= answers,
            pos <= buf@.len(),
            buf@.len() >= HEADER_LEN,
            buf@[2] >= 128,
            questions != 0,
            questions == u16_at(buf@, 4),
            answers == u16_at(buf@, 6),
            plain_name(buf@, HEADER_LEN as int, true) == Some((name@, name_stop as int)),
            questions_end(buf@, HEADER_LEN as int, questions as nat) == Some(start),
            match answers_from(buf@, pos as int, (answers - a) as nat) {
                Some(rest) => answers_from(buf@, start, answers as nat) == Some(addresses@ + rest),
                None => answers_from(buf@, start, answers as nat) is None,
            },
        decreases answers - a,
    {
        let ghost before = addresses@;
        match read_answer(buf, pos) {
            Some((ip, next)) => {
                if let Some(ip) = ip {
                    addresses.push(ip);
                }
                proof {
                    let here = match ip {
                        Some(x) => seq![x],
                        None => Seq::<IpAddress>::empty(),
                    };
                    assert(addresses@ =~= before + here);
                    match answers_from(buf@, next as int, (answers - a - 1) as nat) {
                        Some(rest) => {
                            assert(addresses@ + rest =~= before + (here + rest));
                        },
                        None => {},
                    }
                }
                pos = next;
            },
            None => {
                return None;
            },
        }
        a += 1;
    }
    proof {
        assert(addresses@ + Seq::<IpAddress>::empty() =~= addresses@);
    }
    Some(DnsReply { name, addresses })
}

} // verus!
