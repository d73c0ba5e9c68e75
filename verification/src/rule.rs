//! The rule engine: matchers over a flow's destination, source and sniffed
//! domain, and the selection of the net that a flow goes to.

pub mod any;
pub mod bytes;
pub mod config;
pub mod domain;
pub mod geoip;
pub mod ipcidr;
pub mod matcher;
pub mod rule_net;
pub mod udp;
pub mod vecstr;
