//! RESP decoding: line scanning, the rendering model, the parser, and what
//! is proved of them.

pub mod command;
pub mod laws;
pub mod model;
pub mod parser;
pub mod pipeline;
pub mod scan;
pub mod wire;
