//! What the matchers see of a flow, and the matchers in the form in which
//! they are run.

use crate::address::{Address, AddressView, IpAddress, SocketAddress};
use crate::context::{Context, ContextView, DestDomain, DestDomainView};
use crate::error::Error;
use crate::lru::CacheKey;
use crate::rule::config::{AnyMatcher, GeoIpMatcher, IpCidrMatcher, Matcher as MatcherConfig, SrcIpCidrMatcher};
use crate::rule::domain::DomainMatcherInner;
use vstd::prelude::*;

verus! {

/// What the matchers see of a flow: the address it came from, without the
/// port, its destination, the domain that the destination was resolved from,
/// and the country that the destination lies in.
#[derive(Debug)]
pub struct MatchContext {
    pub src_ip: Option<IpAddress>,
    pub dest: Address,
    pub dest_domain: Option<DestDomain>,
    pub dest_country: Option<String>,
}

/// What a `MatchContext` says.
pub struct MatchContextView {
    pub src_ip: Option<IpAddress>,
    pub dest: AddressView,
    pub dest_domain: Option<DestDomainView>,
    pub dest_country: Option<Seq<char>>,
}

impl View for MatchContext {
    type V = MatchContextView;

    open spec fn view(&self) -> MatchContextView {
        MatchContextView {
            src_ip: self.src_ip,
            dest: self.dest@,
            dest_domain: match self.dest_domain {
                Some(d) => Some(d@),
                None => None,
            },
            dest_country: match self.dest_country {
                Some(c) => Some(c@),
                None => None,
            },
        }
    }
}

/// What the matchers see of a flow with context `ctx` that goes to `dest`.
pub open spec fn match_key(ctx: ContextView, dest: AddressView) -> MatchContextView {
    MatchContextView {
        src_ip: match ctx.source_addr {
            Some(a) => Some(a.ip),
            None => None,
        },
        dest,
        dest_domain: ctx.dest_domain,
        dest_country: ctx.dest_country,
    }
}

impl MatchContextView {
    /// The domain of the destination: that of the address where it is a
    /// domain, else the one that the address was resolved from.
    pub open spec fn domain(self) -> Option<(Seq<char>, u16)> {
        match self.dest {
            AddressView::Domain(d, p) => Some((d, p)),
            _ => match self.dest_domain {
                Some(d) => Some((d.domain, d.port)),
                None => None,
            },
        }
    }
}

impl Clone for MatchContext {
    fn clone(&self) -> (r: MatchContext)
        ensures
            r@ == self@,
    {
        MatchContext {
            src_ip: self.src_ip,
            dest: self.dest.clone(),
            dest_domain: match &self.dest_domain {
                Some(d) => Some(d.clone()),
                None => None,
            },
            dest_country: match &self.dest_country {
                Some(c) => Some(c.clone()),
                None => None,
            },
        }
    }
}

impl CacheKey for MatchContext {
    fn same(&self, other: &Self) -> (r: bool) {
        if !(self.src_ip == other.src_ip) {
            return false;
        }
        if !self.dest.same(&other.dest) {
            return false;
        }
        let domains = match (&self.dest_domain, &other.dest_domain) {
            (Some(a), Some(b)) => a.domain == b.domain && a.port == b.port,
            (None, None) => true,
            _ => false,
        };
        let countries = match (&self.dest_country, &other.dest_country) {
            (Some(a), Some(b)) => *a == *b,
            (None, None) => true,
            _ => false,
        };
        domains && countries
    }
}

impl MatchContext {
    /// What the matchers see of a flow with context `ctx` that goes to `addr`.
    pub fn from_context_address(ctx: &Context, addr: &Address) -> (r: Result<MatchContext, Error>)
        ensures
            r matches Ok(m) && m@ == match_key(ctx@, addr@),
    {
        Ok(
            MatchContext {
                src_ip: match ctx.source_addr {
                    Some(a) => Some(a.ip),
                    None => None,
                },
                dest: addr.clone(),
                dest_domain: match &ctx.dest_domain {
                    Some(d) => Some(d.clone()),
                    None => None,
                },
                dest_country: match &ctx.dest_country {
                    Some(c) => Some(c.clone()),
                    None => None,
                },
            },
        )
    }

    /// The domain of the destination and its port, if a domain is known.
    pub fn get_domain(&self) -> (r: Option<(&String, u16)>)
        ensures
            match r {
                Some((d, p)) => self@.domain() == Some((d@, p)),
                None => self@.domain() is None,
            },
    {
        match &self.dest {
            Address::Domain(d, p) => Some((d, *p)),
            _ => match &self.dest_domain {
                Some(d) => Some((&d.domain, d.port)),
                None => None,
            },
        }
    }

    /// The destination as a socket address, where it is one.
    pub fn get_socket_addr(&self) -> (r: Option<SocketAddress>)
        ensures
            r == self@.dest.socket_addr(),
    {
        self.dest.socket_addr()
    }
}

/// A test of a flow.
pub trait Matcher {
    /// What the matcher needs to hold of itself.
    spec fn wf(&self) -> bool;

    /// The flows that the matcher meets.
    spec fn matches(&self, key: MatchContextView) -> bool;

    fn match_rule(&self, match_context: &MatchContext) -> (r: bool)
        requires
            self.wf(),
        ensures
            r == self.matches(match_context@),
    ;
}

/// A matcher in the form in which it is run: a domain matcher is compiled,
/// the others are as configured.
pub enum BuiltMatcher {
    Domain(DomainMatcherInner),
    IpCidr(IpCidrMatcher),
    SrcIpCidr(SrcIpCidrMatcher),
    GeoIp(GeoIpMatcher),
    Any(AnyMatcher),
}

impl Matcher for BuiltMatcher {
    open spec fn wf(&self) -> bool {
        match self {
            BuiltMatcher::Domain(m) => m.wf(),
            BuiltMatcher::IpCidr(m) => m.wf(),
            BuiltMatcher::SrcIpCidr(m) => m.wf(),
            BuiltMatcher::GeoIp(m) => m.wf(),
            BuiltMatcher::Any(m) => m.wf(),
        }
    }

    open spec fn matches(&self, key: MatchContextView) -> bool {
        match self {
            BuiltMatcher::Domain(m) => m.matches(key),
            BuiltMatcher::IpCidr(m) => m.matches(key),
            BuiltMatcher::SrcIpCidr(m) => m.matches(key),
            BuiltMatcher::GeoIp(m) => m.matches(key),
            BuiltMatcher::Any(m) => m.matches(key),
        }
    }

    fn match_rule(&self, match_context: &MatchContext) -> (r: bool) {
        match self {
            BuiltMatcher::Domain(m) => m.match_rule(match_context),
            BuiltMatcher::IpCidr(m) => m.match_rule(match_context),
            BuiltMatcher::SrcIpCidr(m) => m.match_rule(match_context),
            BuiltMatcher::GeoIp(m) => m.match_rule(match_context),
            BuiltMatcher::Any(m) => m.match_rule(match_context),
        }
    }
}

/// The matcher that `built` was made from, where it was made from `config`.
pub open spec fn built_from(built: BuiltMatcher, config: MatcherConfig) -> bool {
    match (built, config) {
        (BuiltMatcher::Domain(m), MatcherConfig::Domain(c)) => m.compiled_from(
            c.method,
            crate::rule::domain::pattern_bytes(c.domain@),
        ),
        (BuiltMatcher::IpCidr(m), MatcherConfig::IpCidr(c)) => m.ipcidr@ == c.ipcidr@,
        (BuiltMatcher::SrcIpCidr(m), MatcherConfig::SrcIpCidr(c)) => m.ipcidr@ == c.ipcidr@,
        (BuiltMatcher::GeoIp(m), MatcherConfig::GeoIp(c)) => m.country@ == c.country@,
        (BuiltMatcher::Any(_), MatcherConfig::Any(_)) => true,
        _ => false,
    }
}

/// Whether every block is well formed.
pub fn blocks_wf(blocks: &Vec<crate::rule::ipcidr::IpCidr>) -> (r: bool)
    ensures
        r == forall|i: int| 0 <= i < blocks@.len() ==> (#[trigger] blocks@[i]).wf(),
{
    let mut i: usize = 0;
    while i < blocks.len()
        invariant
            i <= blocks@.len(),
            forall|j: int| 0 <= j < i ==> (#[trigger] blocks@[j]).wf(),
        decreases blocks@.len() - i,
    {
        let ok = match blocks[i] {
            crate::rule::ipcidr::IpCidr::V4 { prefix_len, .. } => prefix_len <= 32,
            crate::rule::ipcidr::IpCidr::V6 { prefix_len, .. } => prefix_len <= 128,
        };
        if !ok {
            return false;
        }
        i += 1;
    }
    true
}

impl MatcherConfig {
    /// Whether the matcher can be built but for the automaton: its blocks
    /// are well formed.
    pub open spec fn is_valid(&self) -> bool {
        match self {
            MatcherConfig::IpCidr(c) => forall|i: int| 0 <= i < c.ipcidr@.len() ==> (#[trigger] c.ipcidr@[i]).wf(),
            MatcherConfig::SrcIpCidr(c) => forall|i: int| 0 <= i < c.ipcidr@.len() ==> (#[trigger] c.ipcidr@[i]).wf(),
            _ => true,
        }
    }

    /// Whether the matcher can be built: its blocks are well formed, and
    /// the automaton of a domain matcher can be built of its patterns.
    pub open spec fn builds(&self) -> bool {
        &&& self.is_valid()
        &&& self matches MatcherConfig::Domain(c) ==> crate::rule::domain::automaton_builds(
            crate::rule::domain::compiled_patterns(crate::rule::domain::pattern_bytes(c.domain@)),
        )
    }

    /// The matcher in the form in which it is run. Fails where a block has a
    /// prefix that is longer than its addresses, and where the automaton of
    /// a domain matcher cannot be built.
    pub fn build(self) -> (r: Result<BuiltMatcher, Error>)
        ensures
            r is Ok <==> self.builds(),
            match r {
                Ok(m) => m.wf() && built_from(m, self),
                Err(e) => e is Other,
            },
    {
        match self {
            MatcherConfig::Domain(c) => match DomainMatcherInner::new(c) {
                Ok(m) => Ok(BuiltMatcher::Domain(m)),
                Err(e) => Err(e),
            },
            MatcherConfig::IpCidr(c) => {
                if blocks_wf(&c.ipcidr) {
                    Ok(BuiltMatcher::IpCidr(c))
                } else {
                    Err(Error::Other("the prefix of a block is longer than an address".to_string()))
                }
            },
            MatcherConfig::SrcIpCidr(c) => {
                if blocks_wf(&c.ipcidr) {
                    Ok(BuiltMatcher::SrcIpCidr(c))
                } else {
                    Err(Error::Other("the prefix of a block is longer than an address".to_string()))
                }
            },
            MatcherConfig::GeoIp(c) => Ok(BuiltMatcher::GeoIp(c)),
            MatcherConfig::Any(c) => Ok(BuiltMatcher::Any(c)),
        }
    }
}

} // verus!
