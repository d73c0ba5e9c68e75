//! The plumbing of flows: what to do with each piece of a stream or each
//! datagram, decided apart from the sockets that carry them.

pub mod connect_tcp;
pub mod connect_udp;
pub mod forward_udp;
pub mod nat_cache;
pub mod peekable;
