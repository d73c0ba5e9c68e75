//! Blocks of IP addresses in prefix notation.

use crate::address::IpAddress;
use crate::error::Error;
use crate::rule::config::{IpCidrMatcher, SrcIpCidrMatcher};
use crate::rule::matcher::{MatchContext, MatchContextView, Matcher};
use vstd::prelude::*;

verus! {

/// A block of addresses: those that agree with `address` in their first
/// `prefix_len` bits.
#[allow(inconsistent_fields)]
#[derive(Clone, Copy, Debug, PartialEq, Eq, Structural)]
pub enum IpCidr {
    V4 { address: u32, prefix_len: u8 },
    V6 { address: u128, prefix_len: u8 },
}

/// Four octets as a number, the first octet in the highest bits.
pub open spec fn be32(bytes: Seq<u8>) -> int {
    (bytes[0] as int) * 0x100_0000 + (bytes[1] as int) * 0x1_0000 + (bytes[2] as int) * 0x100 + (bytes[3] as int)
}

/// Sixteen octets as a number, the first octet in the highest bits.
pub open spec fn be128(bytes: Seq<u8>) -> int {
    (bytes[0] as int) * 0x1000000000000000000000000000000 + (bytes[1] as int) * 0x10000000000000000000000000000 + (bytes[2] as int) * 0x100000000000000000000000000 + (bytes[3] as int) * 0x1000000000000000000000000 + (bytes[4] as int) * 0x10000000000000000000000 + (bytes[5] as int) * 0x100000000000000000000 + (bytes[6] as int) * 0x1000000000000000000 + (bytes[7] as int) * 0x10000000000000000 + (bytes[8] as int) * 0x100000000000000 + (bytes[9] as int) * 0x1000000000000 + (bytes[10] as int) * 0x10000000000 + (bytes[11] as int) * 0x100000000 + (bytes[12] as int) * 0x1000000 + (bytes[13] as int) * 0x10000 + (bytes[14] as int) * 0x100 + (bytes[15] as int) * 0x1
}

/// Four octets as a number.
pub fn ipv4_from_octets(bytes: [u8; 4]) -> (r: u32)
    ensures
        r == be32(bytes@),
{
    (bytes[0] as u32) * 0x100_0000 + (bytes[1] as u32) * 0x1_0000 + (bytes[2] as u32) * 0x100 + (bytes[3] as u32)
}

/// Sixteen octets as a number.
pub fn ipv6_from_octets(bytes: [u8; 16]) -> (r: u128)
    ensures
        r == be128(bytes@),
{
    (bytes[0] as u128) * 0x1000000000000000000000000000000 + (bytes[1] as u128) * 0x10000000000000000000000000000 + (bytes[2] as u128) * 0x100000000000000000000000000 + (bytes[3] as u128) * 0x1000000000000000000000000 + (bytes[4] as u128) * 0x10000000000000000000000 + (bytes[5] as u128) * 0x100000000000000000000 + (bytes[6] as u128) * 0x1000000000000000000 + (bytes[7] as u128) * 0x10000000000000000 + (bytes[8] as u128) * 0x100000000000000 + (bytes[9] as u128) * 0x1000000000000 + (bytes[10] as u128) * 0x10000000000 + (bytes[11] as u128) * 0x100000000 + (bytes[12] as u128) * 0x1000000 + (bytes[13] as u128) * 0x10000 + (bytes[14] as u128) * 0x100 + (bytes[15] as u128) * 0x1
}

/// Whether the block of `prefix_len` bits around `address` holds `ip`, for
/// version 4.
pub open spec fn v4_block_holds(address: u32, prefix_len: u8, ip: u32) -> bool {
    prefix_len == 0 || (prefix_len <= 32 && address >> ((32 - prefix_len) as u32) == ip >> ((32 - prefix_len) as u32))
}

/// Whether the block of `prefix_len` bits around `address` holds `ip`, for
/// version 6.
pub open spec fn v6_block_holds(address: u128, prefix_len: u8, ip: u128) -> bool {
    prefix_len == 0 || (prefix_len <= 128 && address >> ((128 - prefix_len) as u128) == ip >> ((128 - prefix_len) as u128))
}

/// What smoltcp's parser for `Ipv4Cidr` makes of a text: the four octets of
/// the address and the length of the prefix, or nothing where it rejects the text.
pub uninterp spec fn ipv4_cidr_of(text: Seq<char>) -> Option<(Seq<u8>, u8)>;

/// What smoltcp's parser for `Ipv6Cidr` makes of a text: the sixteen octets
/// of the address and the length of the prefix, or nothing where it rejects the text.
pub uninterp spec fn ipv6_cidr_of(text: Seq<char>) -> Option<(Seq<u8>, u8)>;

/// Parses with `Ipv4Cidr::from_str` of smoltcp. The parser accepts a prefix
/// length of at most 32.
#[verifier::external_body]
fn parse_ipv4_cidr(text: &str) -> (r: Option<([u8; 4], u8)>)
    ensures
        match r {
            Some((address, prefix_len)) => ipv4_cidr_of(text@) == Some((address@, prefix_len)) && prefix_len <= 32,
            None => ipv4_cidr_of(text@) is None,
        },
{
    match text.parse::<smoltcp::wire::Ipv4Cidr>() {
        Ok(cidr) => Some((cidr.address().0, cidr.prefix_len())),
        Err(_) => None,
    }
}

/// Parses with `Ipv6Cidr::from_str` of smoltcp. The parser accepts a prefix
/// length of at most 128.
#[verifier::external_body]
fn parse_ipv6_cidr(text: &str) -> (r: Option<([u8; 16], u8)>)
    ensures
        match r {
            Some((address, prefix_len)) => ipv6_cidr_of(text@) == Some((address@, prefix_len)) && prefix_len <= 128,
            None => ipv6_cidr_of(text@) is None,
        },
{
    match text.parse::<smoltcp::wire::Ipv6Cidr>() {
        Ok(cidr) => Some((cidr.address().0, cidr.prefix_len())),
        Err(_) => None,
    }
}

/// The block that a text stands for: a version 4 block where the text reads
/// as one, else a version 6 block where it reads as one.
pub open spec fn cidr_of(text: Seq<char>) -> Option<IpCidr> {
    match ipv4_cidr_of(text) {
        Some((address, prefix_len)) => Some(IpCidr::V4 { address: be32(address) as u32, prefix_len }),
        None => match ipv6_cidr_of(text) {
            Some((address, prefix_len)) => Some(IpCidr::V6 { address: be128(address) as u128, prefix_len }),
            None => None,
        },
    }
}

impl IpCidr {
    /// The prefix is no longer than an address.
    pub open spec fn wf(&self) -> bool {
        match self {
            IpCidr::V4 { prefix_len, .. } => *prefix_len <= 32,
            IpCidr::V6 { prefix_len, .. } => *prefix_len <= 128,
        }
    }

    /// Whether the block holds `ip`. A block holds no address of the other version.
    pub open spec fn holds(&self, ip: IpAddress) -> bool {
        match (*self, ip) {
            (IpCidr::V4 { address, prefix_len }, IpAddress::V4(ip)) => v4_block_holds(address, prefix_len, ip),
            (IpCidr::V6 { address, prefix_len }, IpAddress::V6(ip)) => v6_block_holds(address, prefix_len, ip),
            _ => false,
        }
    }

    /// The version 4 block of `prefix_len` bits around the address of four octets.
    pub fn new_v4(octets: [u8; 4], prefix_len: u8) -> (r: Option<IpCidr>)
        ensures
            r == (if prefix_len <= 32 {
                Some(IpCidr::V4 { address: be32(octets@) as u32, prefix_len })
            } else {
                None
            }),
    {
        if prefix_len <= 32 {
            Some(IpCidr::V4 { address: ipv4_from_octets(octets), prefix_len })
        } else {
            None
        }
    }

    /// The version 6 block of `prefix_len` bits around the address of sixteen octets.
    pub fn new_v6(octets: [u8; 16], prefix_len: u8) -> (r: Option<IpCidr>)
        ensures
            r == (if prefix_len <= 128 {
                Some(IpCidr::V6 { address: be128(octets@) as u128, prefix_len })
            } else {
                None
            }),
    {
        if prefix_len <= 128 {
            Some(IpCidr::V6 { address: ipv6_from_octets(octets), prefix_len })
        } else {
            None
        }
    }

    /// Reads a block in the notation `address/prefix_len`, of version 4 or of
    /// version 6.
    pub fn from_str(text: &str) -> (r: Result<IpCidr, Error>)
        ensures
            match r {
                Ok(cidr) => cidr_of(text@) == Some(cidr) && cidr.wf(),
                Err(e) => cidr_of(text@) is None && e is Other,
            },
    {
        if let Some((address, prefix_len)) = parse_ipv4_cidr(text) {
            return Ok(IpCidr::V4 { address: ipv4_from_octets(address), prefix_len });
        }
        if let Some((address, prefix_len)) = parse_ipv6_cidr(text) {
            return Ok(IpCidr::V6 { address: ipv6_from_octets(address), prefix_len });
        }
        Err(Error::Other("Failed to parse ip_cidr: ".to_string().concat(text)))
    }

    /// Whether the block holds `ip`.
    pub fn contains_addr(&self, ip: &IpAddress) -> (r: bool)
        requires
            self.wf(),
        ensures
            r == self.holds(*ip),
    {
        match (*self, *ip) {
            (IpCidr::V4 { address, prefix_len }, IpAddress::V4(ip)) => {
                if prefix_len == 0 {
                    true
                } else {
                    let shift: u32 = (32 - prefix_len) as u32;
                    address >> shift == ip >> shift
                }
            },
            (IpCidr::V6 { address, prefix_len }, IpAddress::V6(ip)) => {
                if prefix_len == 0 {
                    true
                } else {
                    let shift: u128 = (128 - prefix_len) as u128;
                    address >> shift == ip >> shift
                }
            },
            _ => false,
        }
    }
}

/// Whether some block of `blocks` holds `ip`.
pub open spec fn any_block_holds(blocks: Seq<IpCidr>, ip: IpAddress) -> bool {
    exists|i: int| 0 <= i < blocks.len() && (#[trigger] blocks[i]).holds(ip)
}

/// Whether some block of `blocks` holds `ip`.
pub fn blocks_contain(blocks: &Vec<IpCidr>, ip: &IpAddress) -> (r: bool)
    requires
        forall|i: int| 0 <= i < blocks@.len() ==> (#[trigger] blocks@[i]).wf(),
    ensures
        r == any_block_holds(blocks@, *ip),
{
    let mut i: usize = 0;
    while i < blocks.len()
        invariant
            i <= blocks@.len(),
            forall|j: int| 0 <= j < blocks@.len() ==> (#[trigger] blocks@[j]).wf(),
            forall|j: int| 0 <= j < i ==> !(#[trigger] blocks@[j]).holds(*ip),
        decreases blocks@.len() - i,
    {
        if blocks[i].contains_addr(ip) {
            return true;
        }
        i += 1;
    }
    false
}

impl Matcher for IpCidrMatcher {
    open spec fn wf(&self) -> bool {
        forall|i: int| 0 <= i < self.ipcidr@.len() ==> (#[trigger] self.ipcidr@[i]).wf()
    }

    /// The destination is a socket address in one of the blocks. A domain is
    /// in no block: the matcher resolves nothing.
    open spec fn matches(&self, key: MatchContextView) -> bool {
        match key.dest.socket_addr() {
            Some(addr) => any_block_holds(self.ipcidr@, addr.ip),
            None => false,
        }
    }

    fn match_rule(&self, match_context: &MatchContext) -> (r: bool) {
        match match_context.get_socket_addr() {
            Some(addr) => blocks_contain(&self.ipcidr, &addr.ip),
            None => false,
        }
    }
}

impl Matcher for SrcIpCidrMatcher {
    open spec fn wf(&self) -> bool {
        forall|i: int| 0 <= i < self.ipcidr@.len() ==> (#[trigger] self.ipcidr@[i]).wf()
    }

    /// The flow came from an address in one of the blocks.
    open spec fn matches(&self, key: MatchContextView) -> bool {
        match key.src_ip {
            Some(ip) => any_block_holds(self.ipcidr@, ip),
            None => false,
        }
    }

    fn match_rule(&self, match_context: &MatchContext) -> (r: bool) {
        match match_context.src_ip {
            Some(ip) => blocks_contain(&self.ipcidr, &ip),
            None => false,
        }
    }
}

} // verus!
