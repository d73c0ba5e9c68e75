//! The net that learns domains from DNS replies and gives them back to the
//! flows that go to the addresses.

pub mod config;
pub mod dns;
pub mod dns_sniffer;
pub mod service;
