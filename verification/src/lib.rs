//! Compares the cost of three wire encodings of one logical metrics service:
//! a text (JSON over HTTP) style, a tagged binary RPC style, and a
//! segment-based zero-copy RPC style. The shared store, the wire codecs, the
//! deterministic test-data generator and the measurement arithmetic are
//! verified; sockets, clocks and the allocator hook live outside the library.

pub mod model;
pub mod store;
pub mod generate;
pub mod wire;
pub mod json_codec;
pub mod binary_codec;
pub mod segment_codec;
pub mod service;
pub mod harness;
pub mod laws;
