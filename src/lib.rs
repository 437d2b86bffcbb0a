//! A chunked, flow-controlled audio streaming pipeline: a byte source is cut
//! into numbered chunks of a fixed size, handed through a bounded delivery
//! channel, and driven by a streaming session that ends in exactly one of
//! completion, failure or cancellation.
pub mod chunk;
pub mod source;
pub mod reader;
pub mod channel;
pub mod session;
pub mod catalog;
pub mod service;
