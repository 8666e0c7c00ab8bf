//! The core of a BitTorrent tracker: swarm bookkeeping, access control and the
//! two wire protocols, with every function's behaviour stated as a contract.
//!
//! The library does no I/O and reads no clock. A caller hands it the bytes that
//! arrived, the address they came from, the time and a random seed, and sends
//! what it gets back.

pub mod auth;
pub mod bytes;
pub mod compact;
pub mod config;
pub mod http;
pub mod janitor;
pub mod primitives;
pub mod query;
pub mod repository;
pub mod stats;
pub mod swarm;
pub mod tracker;
pub mod udp;
