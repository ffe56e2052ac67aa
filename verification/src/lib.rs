//! Enumerates the IPv4 /16 address space and filters out blocks that fall
//! inside a fixed table of forbidden ranges: loopback, private, link-local,
//! reserved, multicast, cloud metadata, and well-known resolver hosts.

pub mod cidr;
pub mod generator;
pub mod parse;
pub mod table;
