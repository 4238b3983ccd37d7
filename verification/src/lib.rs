//! The decision core of a small network echo service.
//!
//! The crate holds everything the service decides: how a command line becomes
//! a configuration, when a stream connection has said all it will say and what
//! is written back to it, what is sent back for a datagram, and which phase the
//! service is in after each socket operation. Sockets themselves are left to
//! the program that drives these functions.

pub mod config;
pub mod datagram;
pub mod lifecycle;
pub mod number;
pub mod stream;
pub mod text;
