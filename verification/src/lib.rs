//! A programmable proxy router: the graph of nets and servers, the rule engine
//! that routes each flow, and the bookkeeping around them, with every decision
//! stated as a contract.

pub mod address;
pub mod address_parse;
pub mod builtin;
pub mod config;
pub mod context;
pub mod controller;
pub mod error;
pub mod graph;
pub mod http;
pub mod interface;
pub mod lru;
pub mod name_table;
pub mod net_ref;
pub mod plugin;
pub mod rabbit_digger;
pub mod registry;
pub mod rule;
pub mod sniffer;
pub mod text;
pub mod util;
pub mod visitor;
