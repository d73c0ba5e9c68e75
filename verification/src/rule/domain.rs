//! Matching the domain of a destination against patterns: by a plain scan over
//! the patterns, and by an automaton over the reversed patterns.

use crate::error::Error;
use crate::rule::bytes::{
    contains_seq, ends_with, lemma_occurs_reversed, occurs_at, reversed, slice_contains, slice_ends_with, slice_eq, tail_of,
};
use crate::rule::config::{DomainMatcher, DomainMatcherMethod};
use crate::rule::matcher::{MatchContext, MatchContextView, Matcher};
use vstd::prelude::*;
use vstd::string::StringSliceAdditionalSpecFns;

verus! {

/// The byte `+`.
pub const PLUS: u8 = 43;

/// The byte `.`.
pub const DOT: u8 = 46;

/// The pattern starts with `+.`: it stands for a domain and its subdomains.
pub open spec fn is_tagged(pattern: Seq<u8>) -> bool {
    pattern.len() >= 2 && pattern[0] == PLUS && pattern[1] == DOT
}

/// The pattern without a leading `+.`.
pub open spec fn stripped(pattern: Seq<u8>) -> Seq<u8> {
    if is_tagged(pattern) {
        pattern.skip(2)
    } else {
        pattern
    }
}

/// What the automaton holds for a pattern: the stripped pattern, reversed.
pub open spec fn compiled_pattern(pattern: Seq<u8>) -> Seq<u8> {
    stripped(pattern).reverse()
}

/// The bytes of each pattern.
pub open spec fn pattern_bytes(patterns: Seq<String>) -> Seq<Seq<u8>> {
    Seq::new(patterns.len(), |i: int| vstd::utf8::encode_utf8(patterns[i]@))
}

/// The domain is the pattern, or the pattern is tagged and the domain is a
/// subdomain of what follows the tag.
pub open spec fn is_domain_or_subdomain(pattern: Seq<u8>, domain: Seq<u8>) -> bool {
    let bare = stripped(pattern);
    ||| bare == domain
    ||| (is_tagged(pattern) && bare.len() < domain.len() && ends_with(domain, bare) && domain[domain.len() - bare.len()
        - 1] == DOT)
}

/// Whether one pattern meets the domain, by the plain reading of the method.
/// A tag never counts as part of the text of a pattern: a keyword occurs in
/// the domain and a suffix ends it without the tag, and the tag lets an
/// exact pattern meet its subdomains too.
pub open spec fn pattern_matches(method: DomainMatcherMethod, pattern: Seq<u8>, domain: Seq<u8>) -> bool {
    match method {
        DomainMatcherMethod::Keyword => contains_seq(domain, stripped(pattern)),
        DomainMatcherMethod::Match => is_domain_or_subdomain(pattern, domain),
        DomainMatcherMethod::Suffix => ends_with(domain, stripped(pattern)),
    }
}

/// Whether some pattern meets the domain, by the plain reading of the method.
pub open spec fn linear_matches(method: DomainMatcherMethod, patterns: Seq<Seq<u8>>, domain: Seq<u8>) -> bool {
    exists|i: int| 0 <= i < patterns.len() && pattern_matches(method, #[trigger] patterns[i], domain)
}

/// Whether `pattern` starts with `+.`.
fn tagged(pattern: &[u8]) -> (r: bool)
    ensures
        r == is_tagged(pattern@),
{
    pattern.len() >= 2 && pattern[0] == PLUS && pattern[1] == DOT
}

/// Whether one pattern meets the domain.
fn test_pattern(method: DomainMatcherMethod, pattern: &[u8], domain: &[u8]) -> (r: bool)
    ensures
        r == pattern_matches(method, pattern@, domain@),
{
    let tag = tagged(pattern);
    let bare = if tag {
        tail_of(pattern, 2)
    } else {
        tail_of(pattern, 0)
    };
    assert(bare@ =~= stripped(pattern@));
    match method {
        DomainMatcherMethod::Keyword => slice_contains(domain, bare.as_slice()),
        DomainMatcherMethod::Suffix => slice_ends_with(domain, bare.as_slice()),
        DomainMatcherMethod::Match => {
            if slice_eq(bare.as_slice(), domain) {
                true
            } else {
                tag && bare.len() < domain.len() && slice_ends_with(domain, bare.as_slice()) && domain[domain.len()
                    - bare.len() - 1] == DOT
            }
        },
    }
}

impl DomainMatcher {
    /// Whether some pattern meets `domain`, found by going through the patterns.
    pub fn test(&self, domain: &str) -> (r: bool)
        ensures
            r == linear_matches(self.method, pattern_bytes(self.domain@), domain.spec_bytes()),
    {
        let query = domain.as_bytes();
        let ghost patterns = pattern_bytes(self.domain@);
        let mut i: usize = 0;
        while i < self.domain.len()
            invariant
                i <= self.domain@.len(),
                patterns == pattern_bytes(self.domain@),
                query@ == domain.spec_bytes(),
                forall|j: int| 0 <= j < i ==> !pattern_matches(self.method, #[trigger] patterns[j], query@),
            decreases self.domain@.len() - i,
        {
            let pattern = self.domain[i].as_str().as_bytes();
            assert(pattern@ == patterns[i as int]);
            if test_pattern(self.method, pattern, query) {
                return true;
            }
            i += 1;
        }
        false
    }
}

/// A match that the automaton reports: the number of the pattern, and where
/// in the text it stands.
#[derive(Clone, Copy, Debug, PartialEq, Eq, Structural)]
pub struct Match {
    pub pattern: usize,
    pub start: usize,
    pub end: usize,
}

/// An Aho-Corasick automaton that reports the leftmost match, and of several
/// at one place the longest.
#[verifier::external_body]
pub struct Automaton {
    inner: aho_corasick::AhoCorasick<u32>,
}

/// The patterns that an automaton was built from, in their order.
pub uninterp spec fn automaton_patterns(ac: Automaton) -> Seq<Seq<u8>>;

/// What an automaton over `patterns` reports for `haystack`.
pub uninterp spec fn leftmost_longest(patterns: Seq<Seq<u8>>, haystack: Seq<u8>) -> Option<Match>;

/// `found` is a leftmost match of `patterns` in `haystack`, and the longest
/// at its place; or nothing, where no pattern occurs.
pub open spec fn is_leftmost_longest(patterns: Seq<Seq<u8>>, haystack: Seq<u8>, found: Option<Match>) -> bool {
    match found {
        None => forall|i: int, at: int| 0 <= i < patterns.len() ==> !#[trigger] occurs_at(haystack, patterns[i], at),
        Some(m) => {
            &&& m.pattern < patterns.len()
            &&& m.start <= m.end
            &&& m.end - m.start == patterns[m.pattern as int].len()
            &&& occurs_at(haystack, patterns[m.pattern as int], m.start as int)
            &&& forall|i: int, at: int|
                0 <= i < patterns.len() && #[trigger] occurs_at(haystack, patterns[i], at) ==> m.start <= at && (at
                    == m.start ==> patterns[i].len() <= m.end - m.start)
        },
    }
}

/// The patterns as plain sequences.
pub open spec fn patterns_view(patterns: &Vec<Vec<u8>>) -> Seq<Seq<u8>> {
    Seq::new(patterns@.len(), |i: int| patterns@[i]@)
}

/// Whether the builder of automata makes one of these patterns.
pub uninterp spec fn automaton_builds(patterns: Seq<Seq<u8>>) -> bool;

/// The number of bytes of the first `n` patterns.
pub open spec fn total_len(patterns: Seq<Seq<u8>>, n: int) -> int
    decreases n,
{
    if n <= 0 {
        0
    } else {
        total_len(patterns, n - 1) + patterns[n - 1].len()
    }
}

/// Builds the automaton with `AhoCorasickBuilder::build_with_size`, set to
/// leftmost-longest matching and without a prefilter. Whether the builder
/// succeeds depends on the patterns alone. It needs one state for each byte
/// of the patterns at most, and three more, and it fails only where the
/// states are more than their numbers of 32 bits can tell apart. Where it
/// succeeds, the automaton holds the patterns as given; where it reports an
/// error, nothing is returned.
#[verifier::external_body]
fn build_automaton(patterns: &Vec<Vec<u8>>) -> (r: Option<Automaton>)
    ensures
        r is Some <==> automaton_builds(patterns_view(patterns)),
        total_len(patterns_view(patterns), patterns@.len() as int) + 3 <= u32::MAX ==> r is Some,
        r matches Some(ac) ==> automaton_patterns(ac) == patterns_view(patterns),
{
    let built = aho_corasick::AhoCorasickBuilder::new()
        .match_kind(aho_corasick::MatchKind::LeftmostLongest)
        .prefilter(false)
        .build_with_size(patterns);
    match built {
        Ok(inner) => Some(Automaton { inner }),
        Err(_) => None,
    }
}

/// Searches with `AhoCorasick::find`. The automaton reports the match that
/// starts first, and of those that start there the longest; it reports
/// nothing only where no pattern occurs.
#[verifier::external_body]
fn automaton_find(ac: &Automaton, haystack: &Vec<u8>) -> (r: Option<Match>)
    ensures
        r == leftmost_longest(automaton_patterns(*ac), haystack@),
        is_leftmost_longest(automaton_patterns(*ac), haystack@, r),
{
    match ac.inner.find(haystack) {
        Some(m) => Some(Match { pattern: m.pattern(), start: m.start(), end: m.end() }),
        None => None,
    }
}

/// Whether pattern number `pattern` is tagged; a number that `tags` does not
/// reach counts as untagged.
pub open spec fn tag_of(tags: Seq<bool>, pattern: usize) -> bool {
    pattern < tags.len() && tags[pattern as int]
}

/// What the first match says of a reversed domain `haystack`.
///
/// A keyword is met by any match. A suffix is met by a match at the start of
/// the reversed text, which is a pattern at the end of the domain. An exact
/// pattern is met by a match over the whole text, or, if the pattern is
/// tagged, by one from the start that is followed by a dot.
pub open spec fn decides(method: DomainMatcherMethod, tags: Seq<bool>, haystack: Seq<u8>, found: Option<Match>) -> bool {
    match found {
        None => false,
        Some(m) => match method {
            DomainMatcherMethod::Keyword => true,
            DomainMatcherMethod::Suffix => m.start == 0,
            DomainMatcherMethod::Match => (m.start == 0 && m.end == haystack.len()) || (m.end < haystack.len()
                && tag_of(tags, m.pattern) && haystack[m.end as int] == DOT && m.start == 0),
        },
    }
}

/// Decides from the first match in the reversed domain: a keyword is met by
/// any match; a suffix by a match that starts at the start of the reversed
/// text; an exact pattern by a match over the whole text, or, if the pattern
/// is tagged, by one from the start that is followed by a dot.
pub fn decide(method: DomainMatcherMethod, is_prefix: &Vec<bool>, haystack: &[u8], found: Option<Match>) -> (r: bool)
    ensures
        r == decides(method, is_prefix@, haystack@, found),
{
    match found {
        None => false,
        Some(m) => match method {
            DomainMatcherMethod::Keyword => true,
            DomainMatcherMethod::Suffix => m.start == 0,
            DomainMatcherMethod::Match => {
                let tag = m.pattern < is_prefix.len() && is_prefix[m.pattern];
                (m.start == 0 && m.end == haystack.len()) || (m.end < haystack.len() && tag && haystack[m.end] == DOT
                    && m.start == 0)
            },
        },
    }
}

/// A domain matcher compiled into an automaton over the reversed patterns.
pub struct DomainMatcherInner {
    pub method: DomainMatcherMethod,
    pub is_prefix: Vec<bool>,
    pub ac: Automaton,
}

impl DomainMatcherInner {
    /// The matcher holds `patterns` in compiled form, with their tags.
    pub open spec fn compiled_from(&self, method: DomainMatcherMethod, patterns: Seq<Seq<u8>>) -> bool {
        &&& self.method == method
        &&& self.is_prefix@ == Seq::new(patterns.len(), |i: int| is_tagged(patterns[i]))
        &&& automaton_patterns(self.ac) == Seq::new(patterns.len(), |i: int| compiled_pattern(patterns[i]))
    }

    /// The first match of the matcher's automaton in the reversed `domain`.
    pub open spec fn first_match(&self, domain: Seq<u8>) -> Option<Match> {
        leftmost_longest(automaton_patterns(self.ac), domain.reverse())
    }

    /// Compiles the patterns: each is stripped of a leading `+.`, which tags
    /// it, and reversed; the automaton is built over the results. Succeeds
    /// exactly where the automaton can be built, which it can for patterns
    /// of fewer than 2^32 - 3 bytes in all.
    pub fn new(cfg: DomainMatcher) -> (r: Result<DomainMatcherInner, Error>)
        ensures
            r is Ok <==> automaton_builds(compiled_patterns(pattern_bytes(cfg.domain@))),
            total_len(compiled_patterns(pattern_bytes(cfg.domain@)), cfg.domain@.len() as int) + 3 <= u32::MAX ==> r is Ok,
            match r {
                Ok(m) => m.compiled_from(cfg.method, pattern_bytes(cfg.domain@)),
                Err(e) => e is Other,
            },
    {
        let ghost source = pattern_bytes(cfg.domain@);
        let mut is_prefix: Vec<bool> = Vec::new();
        let mut compiled: Vec<Vec<u8>> = Vec::new();
        let mut i: usize = 0;
        while i < cfg.domain.len()
            invariant
                i <= cfg.domain@.len(),
                source == pattern_bytes(cfg.domain@),
                is_prefix@.len() == i,
                compiled@.len() == i,
                forall|j: int| 0 <= j < i ==> is_prefix@[j] == is_tagged(source[j]),
                forall|j: int| 0 <= j < i ==> (#[trigger] compiled@[j])@ == compiled_pattern(source[j]),
            decreases cfg.domain@.len() - i,
        {
            let pattern = cfg.domain[i].as_str().as_bytes();
            assert(pattern@ == source[i as int]);
            let tag = tagged(pattern);
            let bare = if tag {
                tail_of(pattern, 2)
            } else {
                tail_of(pattern, 0)
            };
            assert(bare@ =~= stripped(pattern@));
            is_prefix.push(tag);
            compiled.push(reversed(bare.as_slice()));
            i += 1;
        }
        proof {
            assert(patterns_view(&compiled) =~= compiled_patterns(source));
        }
        match build_automaton(&compiled) {
            Some(ac) => {
                let m = DomainMatcherInner { method: cfg.method, is_prefix, ac };
                proof {
                    assert(m.is_prefix@ =~= Seq::new(source.len(), |i: int| is_tagged(source[i])));
                    assert(patterns_view(&compiled) =~= Seq::new(source.len(), |i: int| compiled_pattern(source[i])));
                }
                Ok(m)
            },
            None => Err(Error::Other("the domain patterns are too many for one automaton".to_string())),
        }
    }

    /// Whether the compiled matcher meets `domain`: the automaton runs over
    /// the reversed domain, and its first match decides.
    pub fn test(&self, domain: &str) -> (r: bool)
        ensures
            r == decides(self.method, self.is_prefix@, domain.spec_bytes().reverse(), self.first_match(domain.spec_bytes())),
            is_leftmost_longest(
                automaton_patterns(self.ac),
                domain.spec_bytes().reverse(),
                self.first_match(domain.spec_bytes()),
            ),
    {
        let haystack = reversed(domain.as_bytes());
        let found = automaton_find(&self.ac, &haystack);
        decide(self.method, &self.is_prefix, haystack.as_slice(), found)
    }
}

impl Matcher for DomainMatcherInner {
    open spec fn wf(&self) -> bool {
        true
    }

    /// The flow has a domain, and the first match in the reversed domain
    /// decides for it.
    open spec fn matches(&self, key: MatchContextView) -> bool {
        match key.domain() {
            Some((domain, _)) => decides(
                self.method,
                self.is_prefix@,
                vstd::utf8::encode_utf8(domain).reverse(),
                self.first_match(vstd::utf8::encode_utf8(domain)),
            ),
            None => false,
        }
    }

    fn match_rule(&self, match_context: &MatchContext) -> (r: bool) {
        match match_context.get_domain() {
            Some((domain, _)) => self.test(domain.as_str()),
            None => false,
        }
    }
}

impl Matcher for DomainMatcher {
    open spec fn wf(&self) -> bool {
        true
    }

    /// The flow has a domain, and some pattern meets it.
    open spec fn matches(&self, key: MatchContextView) -> bool {
        match key.domain() {
            Some((domain, _)) => linear_matches(self.method, pattern_bytes(self.domain@), vstd::utf8::encode_utf8(domain)),
            None => false,
        }
    }

    fn match_rule(&self, match_context: &MatchContext) -> (r: bool) {
        match match_context.get_domain() {
            Some((domain, _)) => self.test(domain.as_str()),
            None => false,
        }
    }
}

/// The tags of the patterns.
pub open spec fn tags_of(patterns: Seq<Seq<u8>>) -> Seq<bool> {
    Seq::new(patterns.len(), |i: int| is_tagged(patterns[i]))
}

/// The patterns in compiled form.
pub open spec fn compiled_patterns(patterns: Seq<Seq<u8>>) -> Seq<Seq<u8>> {
    Seq::new(patterns.len(), |i: int| compiled_pattern(patterns[i]))
}

/// A compiled pattern stands at the start of the reversed domain exactly
/// where the domain ends with the pattern, stripped of its tag.
pub proof fn lemma_start_is_end(patterns: Seq<Seq<u8>>, domain: Seq<u8>)
    ensures
        forall|j: int|
            0 <= j < patterns.len() ==> occurs_at(domain.reverse(), #[trigger] compiled_patterns(patterns)[j], 0)
                == ends_with(domain, stripped(patterns[j])),
{
    assert forall|j: int| 0 <= j < patterns.len() implies occurs_at(
        domain.reverse(),
        #[trigger] compiled_patterns(patterns)[j],
        0,
    ) == ends_with(domain, stripped(patterns[j])) by {
        lemma_occurs_reversed(domain, stripped(patterns[j]), 0);
    }
}

/// For the keyword method the compiled matcher and the plain scan agree on
/// every domain: both meet it exactly where some pattern, stripped of its
/// tag, occurs in it.
pub proof fn lemma_keyword_parity(patterns: Seq<Seq<u8>>, domain: Seq<u8>, found: Option<Match>)
    requires
        is_leftmost_longest(compiled_patterns(patterns), domain.reverse(), found),
    ensures
        decides(DomainMatcherMethod::Keyword, tags_of(patterns), domain.reverse(), found) == linear_matches(
            DomainMatcherMethod::Keyword,
            patterns,
            domain,
        ),
{
    let compiled = compiled_patterns(patterns);
    let hay = domain.reverse();
    match found {
        Some(m) => {
            let i = m.pattern as int;
            lemma_occurs_reversed(domain, stripped(patterns[i]), m.start as int);
            assert(compiled[i] == stripped(patterns[i]).reverse());
            assert(occurs_at(domain, stripped(patterns[i]), domain.len() - m.start - stripped(patterns[i]).len()));
            assert(pattern_matches(DomainMatcherMethod::Keyword, patterns[i], domain));
        },
        None => {
            assert forall|i: int| 0 <= i < patterns.len() implies !pattern_matches(
                DomainMatcherMethod::Keyword,
                #[trigger] patterns[i],
                domain,
            ) by {
                if contains_seq(domain, stripped(patterns[i])) {
                    let at = choose|at: int| occurs_at(domain, stripped(patterns[i]), at);
                    let back = domain.len() - at - stripped(patterns[i]).len();
                    lemma_occurs_reversed(domain, stripped(patterns[i]), back);
                    assert(compiled[i] == stripped(patterns[i]).reverse());
                    assert(occurs_at(hay, compiled[i], back));
                }
            }
        },
    }
}

/// For the suffix method the compiled matcher and the plain scan agree on
/// every domain: both meet it exactly where it ends with some pattern,
/// stripped of its tag.
pub proof fn lemma_suffix_parity(patterns: Seq<Seq<u8>>, domain: Seq<u8>, found: Option<Match>)
    requires
        is_leftmost_longest(compiled_patterns(patterns), domain.reverse(), found),
    ensures
        decides(DomainMatcherMethod::Suffix, tags_of(patterns), domain.reverse(), found) == linear_matches(
            DomainMatcherMethod::Suffix,
            patterns,
            domain,
        ),
{
    let compiled = compiled_patterns(patterns);
    let hay = domain.reverse();
    lemma_start_is_end(patterns, domain);
    if decides(DomainMatcherMethod::Suffix, tags_of(patterns), hay, found) {
        let m = found->0;
        let k = m.pattern as int;
        assert(occurs_at(hay, compiled[k], 0));
        assert(pattern_matches(DomainMatcherMethod::Suffix, patterns[k], domain));
    }
    if linear_matches(DomainMatcherMethod::Suffix, patterns, domain) {
        let i = choose|i: int|
            0 <= i < patterns.len() && pattern_matches(DomainMatcherMethod::Suffix, #[trigger] patterns[i], domain);
        assert(occurs_at(hay, compiled[i], 0));
        assert(found is Some);
        assert(found->0.start == 0);
    }
}

/// Pattern `i` is, stripped of its tag, the longest of the patterns that the
/// domain ends with.
pub open spec fn is_longest_suffix(patterns: Seq<Seq<u8>>, domain: Seq<u8>, i: int) -> bool {
    &&& 0 <= i < patterns.len()
    &&& ends_with(domain, stripped(patterns[i]))
    &&& forall|j: int|
        0 <= j < patterns.len() && ends_with(domain, stripped(#[trigger] patterns[j])) ==> stripped(patterns[j]).len()
            <= stripped(patterns[i]).len()
}

/// No two patterns differ in their tag alone.
pub open spec fn tags_agree(patterns: Seq<Seq<u8>>) -> bool {
    forall|i: int, j: int|
        0 <= i < patterns.len() && 0 <= j < patterns.len() && stripped(#[trigger] patterns[i]) == stripped(
            #[trigger] patterns[j],
        ) ==> is_tagged(patterns[i]) == is_tagged(patterns[j])
}

/// The longest pattern that the domain ends with meets the domain by the
/// exact method.
pub open spec fn longest_suffix_meets(patterns: Seq<Seq<u8>>, domain: Seq<u8>) -> bool {
    exists|i: int| #[trigger] is_longest_suffix(patterns, domain, i) && is_domain_or_subdomain(patterns[i], domain)
}

/// With the exact method, and with patterns of which no two differ in their
/// tag alone, the compiled matcher meets a domain exactly when the longest
/// pattern that the domain ends with is the domain, or is tagged and has the
/// domain as a subdomain: the first hit decides.
pub proof fn lemma_match_is_longest_suffix(patterns: Seq<Seq<u8>>, domain: Seq<u8>, found: Option<Match>)
    requires
        is_leftmost_longest(compiled_patterns(patterns), domain.reverse(), found),
        tags_agree(patterns),
    ensures
        decides(DomainMatcherMethod::Match, tags_of(patterns), domain.reverse(), found) == longest_suffix_meets(
            patterns,
            domain,
        ),
{
    let compiled = compiled_patterns(patterns);
    let hay = domain.reverse();
    let len = domain.len() as int;
    lemma_start_is_end(patterns, domain);
    if decides(DomainMatcherMethod::Match, tags_of(patterns), hay, found) {
        let m = found->0;
        let k = m.pattern as int;
        let bare = stripped(patterns[k]);
        assert(compiled[k] == bare.reverse());
        assert(occurs_at(hay, compiled[k], 0));
        assert(occurs_at(domain, bare, len - bare.len()));
        assert forall|j: int| 0 <= j < patterns.len() && ends_with(domain, stripped(#[trigger] patterns[j])) implies stripped(
            patterns[j],
        ).len() <= bare.len() by {
            assert(occurs_at(hay, compiled[j], 0));
            assert(compiled[j].len() == stripped(patterns[j]).len());
        }
        if m.end == len {
            assert(domain.subrange(0, len) =~= domain);
        } else {
            assert(hay[m.end as int] == domain[len - 1 - m.end]);
            assert(tags_of(patterns)[k] == is_tagged(patterns[k]));
        }
        assert(is_longest_suffix(patterns, domain, k) && is_domain_or_subdomain(patterns[k], domain));
    }
    if longest_suffix_meets(patterns, domain) {
        let i = choose|i: int| #[trigger]
            is_longest_suffix(patterns, domain, i) && is_domain_or_subdomain(patterns[i], domain);
        let wanted = stripped(patterns[i]);
        assert(occurs_at(hay, compiled[i], 0));
        let m = found->0;
        let k = m.pattern as int;
        let bare = stripped(patterns[k]);
        assert(m.start == 0);
        assert(compiled[i].len() <= m.end - m.start);
        assert(compiled[k] == bare.reverse());
        assert(compiled[i] == wanted.reverse());
        assert(occurs_at(hay, compiled[k], 0));
        assert(ends_with(domain, stripped(patterns[k])));
        assert(bare.len() == wanted.len());
        assert(bare =~= wanted) by {
            assert(domain.subrange(len - bare.len(), len) == bare);
            assert(domain.subrange(len - wanted.len(), len) == wanted);
        }
        assert(tags_of(patterns)[k] == is_tagged(patterns[k]));
        if wanted == domain {
            assert(m.end == len);
        } else {
            assert(hay[m.end as int] == domain[len - 1 - m.end]);
        }
    }
}

/// With the exact method the compiled matcher meets no domain that the plain
/// scan does not meet.
pub proof fn lemma_match_implies_scan(patterns: Seq<Seq<u8>>, domain: Seq<u8>, found: Option<Match>)
    requires
        is_leftmost_longest(compiled_patterns(patterns), domain.reverse(), found),
    ensures
        decides(DomainMatcherMethod::Match, tags_of(patterns), domain.reverse(), found) ==> linear_matches(
            DomainMatcherMethod::Match,
            patterns,
            domain,
        ),
{
    let compiled = compiled_patterns(patterns);
    let hay = domain.reverse();
    let len = domain.len() as int;
    if decides(DomainMatcherMethod::Match, tags_of(patterns), hay, found) {
        let m = found->0;
        let k = m.pattern as int;
        let bare = stripped(patterns[k]);
        assert(compiled[k] == bare.reverse());
        lemma_occurs_reversed(domain, bare, 0);
        assert(occurs_at(domain, bare, len - bare.len()));
        if m.end == len {
            assert(domain.subrange(0, len) =~= domain);
        } else {
            assert(hay[m.end as int] == domain[len - 1 - m.end]);
            assert(tags_of(patterns)[k] == is_tagged(patterns[k]));
        }
        assert(pattern_matches(DomainMatcherMethod::Match, patterns[k], domain));
    }
}

/// For the exact method the compiled matcher and the plain scan agree on a
/// domain wherever the longest pattern that the domain ends with meets it,
/// or no pattern does. They differ where a shorter pattern meets the domain
/// and the longest does not: the compiled matcher lets the first hit decide.
pub proof fn lemma_match_parity(patterns: Seq<Seq<u8>>, domain: Seq<u8>, found: Option<Match>)
    requires
        is_leftmost_longest(compiled_patterns(patterns), domain.reverse(), found),
        tags_agree(patterns),
        linear_matches(DomainMatcherMethod::Match, patterns, domain) ==> longest_suffix_meets(patterns, domain),
    ensures
        decides(DomainMatcherMethod::Match, tags_of(patterns), domain.reverse(), found) == linear_matches(
            DomainMatcherMethod::Match,
            patterns,
            domain,
        ),
{
    lemma_match_is_longest_suffix(patterns, domain, found);
    lemma_match_implies_scan(patterns, domain, found);
}

/// Where no pattern is tagged, the compiled matcher and the plain scan agree
/// on every domain for the exact method: both meet it exactly where it is
/// one of the patterns.
pub proof fn lemma_match_parity_untagged(patterns: Seq<Seq<u8>>, domain: Seq<u8>, found: Option<Match>)
    requires
        is_leftmost_longest(compiled_patterns(patterns), domain.reverse(), found),
        forall|i: int| 0 <= i < patterns.len() ==> !is_tagged(#[trigger] patterns[i]),
    ensures
        decides(DomainMatcherMethod::Match, tags_of(patterns), domain.reverse(), found) == linear_matches(
            DomainMatcherMethod::Match,
            patterns,
            domain,
        ),
{
    if linear_matches(DomainMatcherMethod::Match, patterns, domain) {
        let i = choose|i: int|
            0 <= i < patterns.len() && pattern_matches(DomainMatcherMethod::Match, #[trigger] patterns[i], domain);
        assert(stripped(patterns[i]) == domain);
        assert(domain.subrange(0, domain.len() as int) =~= domain);
        assert(ends_with(domain, stripped(patterns[i])));
        assert forall|j: int| 0 <= j < patterns.len() && ends_with(domain, stripped(#[trigger] patterns[j])) implies stripped(
            patterns[j],
        ).len() <= stripped(patterns[i]).len() by {}
        assert(is_longest_suffix(patterns, domain, i) && is_domain_or_subdomain(patterns[i], domain));
    }
    lemma_match_parity(patterns, domain, found);
}

} // verus!
