//! An egress proxy core whose outbound traffic appears to come from a
//! rotating pool of addresses and, for configured targets, from a genuine
//! browser fingerprint.  The library holds the verified logic: the inbound
//! access policy, the outbound address allocator and its bounded FIFO pool,
//! the forward-mapping configuration, the HTTP request-head parser, the
//! header policy, the response assembly, the guarded native-engine call
//! plan with its resource ledger, and the network-configurator commands.
//! The listeners, sockets and foreign calls around it stay outside.

pub mod access;
pub mod allocator;
pub mod commands;
pub mod engine;
pub mod headers;
pub mod http_head;
pub mod mapping;
pub mod pool;
pub mod response;
pub mod text;
