//! Matching the country that the destination's address lies in.

use crate::rule::config::GeoIpMatcher;
use crate::rule::matcher::{MatchContext, MatchContextView, Matcher};
use vstd::prelude::*;

verus! {

impl GeoIpMatcher {
    /// Whether `iso_code`, the country that a lookup of the destination's
    /// address gave, is the country of the matcher. An address that the
    /// lookup does not know lies in no country.
    pub fn test(&self, iso_code: &Option<String>) -> (r: bool)
        ensures
            r == (iso_code matches Some(c) && c@ == self.country@),
    {
        match iso_code {
            Some(c) => *c == self.country,
            None => false,
        }
    }
}

impl Matcher for GeoIpMatcher {
    open spec fn wf(&self) -> bool {
        true
    }

    /// The destination is a socket address, and lies in the country.
    open spec fn matches(&self, key: MatchContextView) -> bool {
        key.dest.socket_addr() is Some && key.dest_country == Some(self.country@)
    }

    fn match_rule(&self, match_context: &MatchContext) -> (r: bool) {
        match match_context.get_socket_addr() {
            Some(_) => self.test(&match_context.dest_country),
            None => false,
        }
    }
}

} // verus!
