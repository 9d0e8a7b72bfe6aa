//! SPF (Sender Policy Framework) record parsing, IP/CIDR matching,
//! resolution-tree rendering and a replayable SPF evaluator.
//!
//! DNS traffic stays outside the library: the evaluator in [`resolver`]
//! is a function of the DNS answers received so far, and asks for the next
//! query whenever it needs one.

pub mod text;
pub mod paint;
pub mod tree;
pub mod net;
pub mod error;
pub mod spf;
pub mod matcher;
pub mod dns;
pub mod resolver;
pub mod replay;
pub mod sgr;
pub mod round_trip;
pub mod mech_laws;
