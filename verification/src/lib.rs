//! Resolves the caller's public IPv4 address through a time-bounded local
//! cache backed by a single remote lookup server.
//!
//! The crate holds the decision logic of the resolver: the dotted-quad
//! address codec, the cache freshness rule, and the cache-or-fetch state
//! machine with its fallback policy. Filesystem, network and subprocess
//! work is done by the surrounding program, which feeds the outcomes of
//! those actions back into the state machine as plain values.

pub mod addr;
pub mod cache;
pub mod resolver;

pub use addr::Ipv4Address;
pub use resolver::D5;
