//! A minimal DNS responder core for DNS-01 domain-ownership challenges.
//!
//! The crate decodes one DNS query from a wire buffer, accepts it only if it
//! asks for a TXT record of class IN, and rewrites the buffer in place into an
//! authoritative response whose single answer carries a proof string.

pub mod dns;
pub mod error;
pub mod name;
pub mod persist;
pub mod service;
pub mod text;
pub mod wire;
