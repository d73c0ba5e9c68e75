//! The rule net: for each flow the first rule that its matcher meets names
//! the net that the flow goes to. Selections are remembered in a bounded cache.

use crate::address::Address;
use crate::context::Context;
use crate::error::Error;
use crate::lru::{lemma_place_of, place_of, BoundedCache};
use crate::net_ref::NetHandle;
use crate::rule::config::{RuleItem, RuleNetConfig};
use crate::rule::matcher::{built_from, match_key, BuiltMatcher, MatchContext, MatchContextView, Matcher};
use vstd::prelude::*;

verus! {

/// A rule in the form in which it is run.
pub struct RuleEntry {
    pub matcher: BuiltMatcher,
    pub target: NetHandle,
    pub target_name: String,
}

/// The rule that was selected for a flow: its place among the rules, and the
/// net that the flow goes to.
#[derive(Clone, Copy, Debug, PartialEq, Eq, Structural)]
pub struct Selected {
    pub index: usize,
    pub target: NetHandle,
}

/// The rules and the cache of selections.
pub struct Rule {
    pub rule: Vec<RuleEntry>,
    pub cache: BoundedCache<MatchContext, usize>,
}

/// The index of the first rule whose matcher meets the flow, or the number of
/// rules where none does.
pub open spec fn first_matching(rules: Seq<RuleEntry>, key: MatchContextView) -> int
    decreases rules.len(),
{
    if rules.len() == 0 {
        0
    } else if rules[0].matcher.matches(key) {
        0
    } else {
        1 + first_matching(rules.skip(1), key)
    }
}

/// `first_matching` is the first index whose matcher meets the flow.
pub proof fn lemma_first_matching(rules: Seq<RuleEntry>, key: MatchContextView)
    ensures
        0 <= first_matching(rules, key) <= rules.len(),
        forall|j: int| 0 <= j < first_matching(rules, key) ==> !(#[trigger] rules[j]).matcher.matches(key),
        first_matching(rules, key) < rules.len() ==> rules[first_matching(rules, key)].matcher.matches(key),
    decreases rules.len(),
{
    if rules.len() > 0 && !rules[0].matcher.matches(key) {
        let rest = rules.skip(1);
        lemma_first_matching(rest, key);
        assert forall|j: int| 0 <= j < first_matching(rules, key) implies !(#[trigger] rules[j]).matcher.matches(key) by {
            if j > 0 {
                assert(rules[j] == rest[j - 1]);
            }
        }
        if first_matching(rules, key) < rules.len() {
            assert(rules[first_matching(rules, key)] == rest[first_matching(rest, key)]);
        }
    }
}

/// Whether a rule can be built: its target is resolved, and its matcher
/// can be built.
pub open spec fn rule_builds(item: RuleItem) -> bool {
    item.target@.net is Some && item.matcher.builds()
}

/// The first rule that cannot be built, or the number of rules.
pub open spec fn first_unbuildable(rule: Seq<RuleItem>) -> int
    decreases rule.len(),
{
    if rule.len() == 0 {
        0
    } else if !rule_builds(rule[0]) {
        0
    } else {
        1 + first_unbuildable(rule.skip(1))
    }
}

/// `first_unbuildable` is the first index whose rule cannot be built.
pub proof fn lemma_first_unbuildable(rule: Seq<RuleItem>)
    ensures
        0 <= first_unbuildable(rule) <= rule.len(),
        forall|j: int| 0 <= j < first_unbuildable(rule) ==> rule_builds(#[trigger] rule[j]),
        first_unbuildable(rule) < rule.len() ==> !rule_builds(rule[first_unbuildable(rule)]),
    decreases rule.len(),
{
    if rule.len() > 0 && rule_builds(rule[0]) {
        let rest = rule.skip(1);
        lemma_first_unbuildable(rest);
        assert forall|j: int| 0 <= j < first_unbuildable(rule) implies rule_builds(#[trigger] rule[j]) by {
            if j > 0 {
                assert(rule[j] == rest[j - 1]);
            }
        }
        if first_unbuildable(rule) < rule.len() {
            assert(rule[first_unbuildable(rule)] == rest[first_unbuildable(rest)]);
        }
    }
}

impl Rule {
    /// Every matcher is well formed, and every remembered selection is the
    /// one that the rules make.
    pub open spec fn wf(&self) -> bool {
        &&& self.cache.wf()
        &&& forall|i: int| 0 <= i < self.rule@.len() ==> (#[trigger] self.rule@[i]).matcher.wf()
        &&& forall|i: int|
            0 <= i < self.cache.keys().len() ==> (#[trigger] self.cache.values()[i]) == first_matching(
                self.rule@,
                self.cache.keys()[i],
            ) && self.cache.values()[i] < self.rule@.len()
    }

    /// Builds the rules of a rule net whose targets are resolved. The cache
    /// starts empty, with the capacity that the configuration gives.
    ///
    /// Fails at the first rule that cannot be built: with `NotFound` and the
    /// name of its target where that is not resolved, else with the error
    /// of its matcher.
    pub fn new(config: RuleNetConfig) -> (r: Result<Rule, Error>)
        ensures
            r is Ok <==> first_unbuildable(config.rule@) == config.rule@.len(),
            match r {
                Ok(rule) => {
                    &&& rule.wf()
                    &&& rule.cache.capacity == config.lru_cache_size
                    &&& rule.cache.keys().len() == 0
                    &&& rule.rule@.len() == config.rule@.len()
                    &&& forall|i: int|
                        0 <= i < config.rule@.len() ==> {
                            &&& built_from((#[trigger] rule.rule@[i]).matcher, config.rule@[i].matcher)
                            &&& Some(rule.rule@[i].target) == config.rule@[i].target@.net
                            &&& rule.rule@[i].target_name@ == config.rule@[i].target@.name
                        }
                },
                Err(e) => {
                    let bad = config.rule@[first_unbuildable(config.rule@)];
                    if bad.target@.net is None {
                        e matches Error::NotFound(name) && name@ == bad.target@.name
                    } else {
                        e is Other
                    }
                },
            },
    {
        let ghost source = config.rule@;
        let size = config.lru_cache_size;
        let mut items = config.rule;
        let mut rule: Vec<RuleEntry> = Vec::new();
        proof {
            lemma_first_unbuildable(source);
        }
        while items.len() > 0
            invariant
                source == config.rule@,
                rule@.len() + items@.len() == source.len(),
                items@ == source.skip(rule@.len() as int),
                0 <= first_unbuildable(source) <= source.len(),
                forall|j: int| 0 <= j < first_unbuildable(source) ==> rule_builds(#[trigger] source[j]),
                first_unbuildable(source) < source.len() ==> !rule_builds(source[first_unbuildable(source)]),
                forall|j: int| 0 <= j < rule@.len() ==> rule_builds(#[trigger] source[j]),
                forall|j: int| 0 <= j < rule@.len() ==> (#[trigger] rule@[j]).matcher.wf(),
                forall|j: int|
                    0 <= j < rule@.len() ==> {
                        &&& built_from((#[trigger] rule@[j]).matcher, source[j].matcher)
                        &&& Some(rule@[j].target) == source[j].target@.net
                        &&& rule@[j].target_name@ == source[j].target@.name
                    },
            decreases items@.len(),
        {
            let ghost i = rule@.len() as int;
            let item = items.remove(0);
            proof {
                assert(item == source[i]);
                assert(items@ =~= source.skip(i + 1));
            }
            let target = match item.target.value() {
                Some(t) => t,
                None => {
                    proof {
                        assert(!rule_builds(source[i]));
                        assert(first_unbuildable(source) == i);
                    }
                    return Err(Error::NotFound(item.target.name().clone()));
                },
            };
            let target_name = item.target.name().clone();
            let matcher = match item.matcher.build() {
                Ok(m) => m,
                Err(e) => {
                    proof {
                        assert(!rule_builds(source[i]));
                        assert(first_unbuildable(source) == i);
                    }
                    return Err(e);
                },
            };
            proof {
                assert(rule_builds(source[i]));
            }
            rule.push(RuleEntry { matcher, target, target_name });
        }
        proof {
            let f = first_unbuildable(source);
            if f < source.len() {
                assert(rule_builds(source[f]));
            }
        }
        let r = Rule { rule, cache: BoundedCache::new(size) };
        Ok(r)
    }

    /// The rule for a flow with context `ctx` that goes to `target`: the
    /// first rule whose matcher meets the flow. Fails where no rule does.
    pub fn get_rule(&mut self, ctx: &Context, target: &Address) -> (r: Result<Selected, Error>)
        requires
            old(self).wf(),
        ensures
            final(self).wf(),
            final(self).rule@ == old(self).rule@,
            final(self).cache.capacity == old(self).cache.capacity,
            ({
                let i = first_matching(old(self).rule@, match_key(ctx@, target@));
                if i < old(self).rule@.len() {
                    r == Ok::<Selected, Error>(Selected { index: i as usize, target: old(self).rule@[i].target })
                } else {
                    r matches Err(Error::NotFound(msg)) && msg@ == "no matching rule"@
                }
            }),
    {
        let key = match MatchContext::from_context_address(ctx, target) {
            Ok(k) => k,
            Err(e) => {
                return Err(e);
            },
        };
        self.match_rule(key)
    }

    /// The selection for a flow of which the matchers see `key`. A cached
    /// selection is returned as it is; a new one is looked for among the
    /// rules in their order, and remembered.
    pub fn match_rule(&mut self, key: MatchContext) -> (r: Result<Selected, Error>)
        requires
            old(self).wf(),
        ensures
            final(self).wf(),
            final(self).rule@ == old(self).rule@,
            final(self).cache.capacity == old(self).cache.capacity,
            ({
                let i = first_matching(old(self).rule@, key@);
                if i < old(self).rule@.len() {
                    r == Ok::<Selected, Error>(Selected { index: i as usize, target: old(self).rule@[i].target })
                } else {
                    r matches Err(Error::NotFound(msg)) && msg@ == "no matching rule"@
                }
            }),
    {
        let ghost keys0 = self.cache.keys();
        let ghost values0 = self.cache.values();
        proof {
            lemma_place_of(keys0, key@);
            lemma_first_matching(self.rule@, key@);
        }
        if self.cache.touch(&key) {
            let index = *self.cache.newest();
            proof {
                let p = place_of(keys0, key@);
                assert(values0[p] == first_matching(self.rule@, keys0[p]));
                lemma_cache_after_touch(self.rule@, keys0, values0, p);
            }
            return Ok(Selected { index, target: self.rule[index].target });
        }
        let index = self.scan(&key);
        if index < self.rule.len() {
            let ghost kv = key@;
            self.cache.insert(key, index);
            proof {
                lemma_cache_after_insert(self.rule@, keys0, values0, kv, index, self.cache.capacity);
            }
            Ok(Selected { index, target: self.rule[index].target })
        } else {
            Err(Error::NotFound("no matching rule".to_string()))
        }
    }

    /// The uncached selection: the index of the first rule whose matcher
    /// meets the flow, or the number of rules.
    pub fn scan(&self, key: &MatchContext) -> (r: usize)
        requires
            forall|i: int| 0 <= i < self.rule@.len() ==> (#[trigger] self.rule@[i]).matcher.wf(),
        ensures
            r == first_matching(self.rule@, key@),
    {
        proof {
            lemma_first_matching(self.rule@, key@);
        }
        let mut i: usize = 0;
        while i < self.rule.len()
            invariant
                i <= self.rule@.len(),
                forall|j: int| 0 <= j < self.rule@.len() ==> (#[trigger] self.rule@[j]).matcher.wf(),
                forall|j: int| 0 <= j < i ==> !(#[trigger] self.rule@[j]).matcher.matches(key@),
                0 <= first_matching(self.rule@, key@) <= self.rule@.len(),
                forall|j: int|
                    0 <= j < first_matching(self.rule@, key@) ==> !(#[trigger] self.rule@[j]).matcher.matches(key@),
                first_matching(self.rule@, key@) < self.rule@.len() ==> self.rule@[first_matching(
                    self.rule@,
                    key@,
                )].matcher.matches(key@),
            decreases self.rule@.len() - i,
        {
            if self.rule[i].matcher.match_rule(key) {
                return i;
            }
            i += 1;
        }
        i
    }
}

/// The remembered selections stay right when one is moved to the back.
pub proof fn lemma_cache_after_touch(rules: Seq<RuleEntry>, keys: Seq<MatchContextView>, values: Seq<usize>, p: int)
    requires
        keys.len() == values.len(),
        0 <= p < keys.len(),
        forall|i: int|
            0 <= i < keys.len() ==> (#[trigger] values[i]) == first_matching(rules, keys[i]) && values[i] < rules.len(),
    ensures
        ({
            let k2 = keys.remove(p).push(keys[p]);
            let v2 = values.remove(p).push(values[p]);
            forall|i: int|
                0 <= i < k2.len() ==> (#[trigger] v2[i]) == first_matching(rules, k2[i]) && v2[i] < rules.len()
        }),
{
    let k2 = keys.remove(p).push(keys[p]);
    let v2 = values.remove(p).push(values[p]);
    assert forall|i: int| 0 <= i < k2.len() implies (#[trigger] v2[i]) == first_matching(rules, k2[i]) && v2[i]
        < rules.len() by {
        let j = if i == k2.len() - 1 {
            p
        } else if i < p {
            i
        } else {
            i + 1
        };
        assert(k2[i] == keys[j]);
        assert(v2[i] == values[j]);
    }
}

/// The remembered selections stay right when a right one is added.
pub proof fn lemma_cache_after_insert(
    rules: Seq<RuleEntry>,
    keys: Seq<MatchContextView>,
    values: Seq<usize>,
    key: MatchContextView,
    value: usize,
    capacity: usize,
)
    requires
        keys.len() == values.len(),
        value == first_matching(rules, key),
        value < rules.len(),
        forall|i: int|
            0 <= i < keys.len() ==> (#[trigger] values[i]) == first_matching(rules, keys[i]) && values[i] < rules.len(),
    ensures
        ({
            let p = place_of(keys, key);
            let k2 = crate::lru::inserted(keys, capacity, p, key);
            let v2 = crate::lru::inserted(values, capacity, p, value);
            forall|i: int|
                0 <= i < k2.len() ==> (#[trigger] v2[i]) == first_matching(rules, k2[i]) && v2[i] < rules.len()
        }),
{
    let p = place_of(keys, key);
    lemma_place_of(keys, key);
    if capacity == 0 {
    } else if p < keys.len() {
        let k2 = keys.remove(p).push(key);
        let v2 = values.remove(p).push(value);
        assert forall|i: int| 0 <= i < k2.len() implies (#[trigger] v2[i]) == first_matching(rules, k2[i]) && v2[i]
            < rules.len() by {
            if i < k2.len() - 1 {
                let j = if i < p {
                    i
                } else {
                    i + 1
                };
                assert(k2[i] == keys[j]);
                assert(v2[i] == values[j]);
            }
        }
    } else if keys.len() == capacity {
        let k2 = keys.skip(1).push(key);
        let v2 = values.skip(1).push(value);
        assert forall|i: int| 0 <= i < k2.len() implies (#[trigger] v2[i]) == first_matching(rules, k2[i]) && v2[i]
            < rules.len() by {
            if i < k2.len() - 1 {
                assert(k2[i] == keys[i + 1]);
                assert(v2[i] == values[i + 1]);
            }
        }
    } else {
        let k2 = keys.push(key);
        let v2 = values.push(value);
        assert forall|i: int| 0 <= i < k2.len() implies (#[trigger] v2[i]) == first_matching(rules, k2[i]) && v2[i]
            < rules.len() by {
            if i < k2.len() - 1 {
                assert(k2[i] == keys[i]);
                assert(v2[i] == values[i]);
            }
        }
    }
}

} // verus!
