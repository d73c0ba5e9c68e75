//! The matcher that meets every flow.

use crate::rule::config::AnyMatcher;
use crate::rule::matcher::{MatchContext, MatchContextView, Matcher};
use vstd::prelude::*;

verus! {

impl Matcher for AnyMatcher {
    open spec fn wf(&self) -> bool {
        true
    }

    open spec fn matches(&self, key: MatchContextView) -> bool {
        true
    }

    fn match_rule(&self, match_context: &MatchContext) -> (r: bool) {
        true
    }
}

} // verus!
