//! The configuration of the rule net.

use crate::error::Error;
use crate::net_ref::{NetRef, NetRefView};
use crate::rule::ipcidr::IpCidr;
use crate::visitor::{lemma_visit_seq, visit_post, Config, Visitor};
use vstd::prelude::*;

verus! {

/// How a domain pattern is held against a domain.
#[derive(Clone, Copy, Debug, PartialEq, Eq, Structural)]
pub enum DomainMatcherMethod {
    /// The pattern occurs somewhere in the domain.
    Keyword,
    /// The domain ends with the pattern.
    Suffix,
    /// The domain is the pattern, or, for a pattern that starts with `+.`, a
    /// subdomain of what follows.
    Match,
}

/// The method that a name of the configuration stands for.
pub open spec fn method_of_name(name: Seq<char>) -> Option<DomainMatcherMethod> {
    if name == "keyword"@ {
        Some(DomainMatcherMethod::Keyword)
    } else if name == "suffix"@ {
        Some(DomainMatcherMethod::Suffix)
    } else if name == "match"@ {
        Some(DomainMatcherMethod::Match)
    } else {
        None
    }
}

impl DomainMatcherMethod {
    /// The method called `value`: one of `keyword`, `suffix` and `match`.
    pub fn try_from(value: String) -> (r: Result<DomainMatcherMethod, Error>)
        ensures
            match method_of_name(value@) {
                Some(m) => r == Ok::<DomainMatcherMethod, Error>(m),
                None => r matches Err(Error::Other(_)),
            },
    {
        if value == "keyword".to_string() {
            Ok(DomainMatcherMethod::Keyword)
        } else if value == "suffix".to_string() {
            Ok(DomainMatcherMethod::Suffix)
        } else if value == "match".to_string() {
            Ok(DomainMatcherMethod::Match)
        } else {
            Err(Error::Other("Unsupported method: ".to_string().concat(value.as_str())))
        }
    }
}

/// Patterns for the domain of a destination, and how to hold them against it.
#[derive(Clone, Debug)]
pub struct DomainMatcher {
    pub method: DomainMatcherMethod,
    pub domain: Vec<String>,
}

/// The country that the destination's address must lie in.
#[derive(Clone, Debug)]
pub struct GeoIpMatcher {
    pub country: String,
}

/// The matcher that every flow meets.
#[derive(Clone, Copy, Debug)]
pub struct AnyMatcher {}

/// Blocks of addresses for the destination.
#[derive(Clone, Debug)]
pub struct IpCidrMatcher {
    pub ipcidr: Vec<IpCidr>,
}

/// Blocks of addresses for the source.
#[derive(Clone, Debug)]
pub struct SrcIpCidrMatcher {
    pub ipcidr: Vec<IpCidr>,
}

/// What a rule asks of a flow.
#[derive(Clone, Debug)]
pub enum Matcher {
    Domain(DomainMatcher),
    IpCidr(IpCidrMatcher),
    SrcIpCidr(SrcIpCidrMatcher),
    GeoIp(GeoIpMatcher),
    Any(AnyMatcher),
}

/// One rule: the flows that meet `matcher` go to the net `target`.
#[derive(Debug)]
pub struct RuleItem {
    pub target: NetRef,
    pub matcher: Matcher,
}

/// The rules of a rule net, in the order in which they are tried, and the
/// number of selections that the net remembers.
#[derive(Debug)]
pub struct RuleNetConfig {
    pub lru_cache_size: usize,
    pub rule: Vec<RuleItem>,
}

/// The targets of the rules.
pub open spec fn targets_of(rule: Seq<RuleItem>) -> Seq<NetRefView> {
    Seq::new(rule.len(), |i: int| rule[i].target@)
}

impl Config for RuleNetConfig {
    open spec fn net_refs(&self) -> Seq<NetRefView> {
        targets_of(self.rule@)
    }

    open spec fn same_settings(&self, other: &Self) -> bool {
        &&& self.lru_cache_size == other.lru_cache_size
        &&& self.rule@.len() == other.rule@.len()
        &&& forall|i: int| 0 <= i < self.rule@.len() ==> (#[trigger] self.rule@[i]).matcher == other.rule@[i].matcher
    }

    proof fn lemma_same_settings(&self) {
    }

    proof fn lemma_same_settings_chain(&self, mid: &Self, last: &Self) {
    }

    fn visit<V: Visitor>(&mut self, visitor: &mut V) -> (r: Result<(), Error>) {
        let ghost s0 = visitor.state();
        let ghost refs0 = self.net_refs();
        let ghost rule0 = self.rule@;
        let ghost size0 = self.lru_cache_size;
        let n = self.rule.len();
        let mut i: usize = 0;
        proof {
            assert(refs0.take(0) =~= Seq::<NetRefView>::empty());
            assert(targets_of(self.rule@).take(0) =~= Seq::<NetRefView>::empty());
        }
        while i < n
            invariant
                i <= n,
                n == rule0.len(),
                rule0 == old(self).rule@,
                size0 == old(self).lru_cache_size,
                s0 == old(visitor).state(),
                refs0 == targets_of(rule0),
                self.lru_cache_size == size0,
                self.rule@.len() == n,
                visitor.inv(),
                forall|j: int| 0 <= j < n ==> (#[trigger] self.rule@[j]).matcher == rule0[j].matcher,
                forall|j: int| i <= j < n ==> (#[trigger] self.rule@[j]).target@ == refs0[j],
                visit_post::<V>(s0, refs0.take(i as int), visitor.state(), targets_of(self.rule@).take(i as int), Ok(())),
            decreases n - i,
        {
            let ghost si = visitor.state();
            let ghost done = targets_of(self.rule@).take(i as int);
            let ghost before = self.rule@;
            let r = self.rule[i].target.visit(visitor);
            let ghost g = r;
            proof {
                let now = targets_of(self.rule@);
                assert(self.rule@.len() == n);
                assert forall|j: int| 0 <= j < n implies (#[trigger] self.rule@[j]).matcher == rule0[j].matcher by {
                    assert(before[j].matcher == rule0[j].matcher);
                }
                assert forall|j: int| 0 <= j < n && j != i implies (#[trigger] self.rule@[j]).target@ == before[j].target@ by {}
                let one = seq![refs0[i as int]];
                let new_one = seq![now[i as int]];
                assert(self.rule@[i as int].target.net_refs() =~= new_one);
                assert(now.take(i as int) =~= done);
                lemma_visit_seq::<V>(s0, refs0.take(i as int), one, si, done, Ok(()), visitor.state(), new_one, g);
                assert(refs0.take(i as int) + one =~= refs0.take(i + 1));
                assert(done + new_one =~= now.take(i + 1));
                if g is Err {
                    let rest = refs0.skip(i + 1);
                    lemma_visit_seq::<V>(
                        s0,
                        refs0.take(i + 1),
                        rest,
                        visitor.state(),
                        now.take(i + 1),
                        g,
                        visitor.state(),
                        rest,
                        g,
                    );
                    assert(refs0.take(i + 1) + rest =~= refs0);
                    assert(now.take(i + 1) + rest =~= now);
                }
            }
            match r {
                Ok(()) => {},
                Err(e) => {
                    return Err(e);
                },
            }
            i += 1;
        }
        proof {
            assert(refs0.take(n as int) =~= refs0);
            assert(targets_of(self.rule@).take(n as int) =~= targets_of(self.rule@));
        }
        Ok(())
    }
}

/// The number of selections that a rule net remembers unless told otherwise.
pub fn default_lru_cache_size() -> (r: usize)
    ensures
        r == 32,
{
    32
}

} // verus!
