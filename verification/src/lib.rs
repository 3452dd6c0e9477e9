//! Decoding core of a passive traffic agent: a bounded, single-pass renderer
//! for RESP buffers captured off the wire, and the small value types that
//! describe the links and addresses of the host the agent runs on.

pub mod common;
pub mod resp;
pub mod net;
