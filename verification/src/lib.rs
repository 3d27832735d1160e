//! Decision core of a CURP client's single-round ("unary") operations.
//!
//! The crate decides, from the replies that the members of a cluster gave to
//! one round of requests, whether a proposal was accepted on the fast path and
//! which member's report of the cluster is authoritative. It performs no I/O:
//! a driver sends the requests and hands the replies over as they arrive.

pub mod connects;
pub mod error;
pub mod fetch;
pub mod members;
pub mod propose;
pub mod quorum;
pub mod unary;
