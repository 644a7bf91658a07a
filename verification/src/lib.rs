//! A resolver bridge that classifies an incoming DNS query against a set of
//! top-level domains owned by an external name-registry oracle and
//! synthesizes a well-formed DNS response from the oracle's textual answer.

pub mod ipv4;
pub mod question;
pub mod resolve;
pub mod wire;
