//! Streaming engine of a Firehose adapter for an Ethereum-compatible chain:
//! hex decoding, the resume cursor, filter compilation, block translation and
//! the per-subscription decisions of the three catch-up / tailing phases.

pub mod error;
pub mod filter;
pub mod codec;
pub mod cursor;
pub mod data;
pub mod engine;
pub mod hex;
pub mod state;
