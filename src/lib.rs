//! Streaming loader for an IP-reputation XML feed: a codec for the packed
//! reputation key, a decoder from one record fragment to a typed record, a
//! fragment extractor driven by XML events, and a batching writer plan.

pub mod numeral;
pub mod packed_key;
pub mod extract;
pub mod fragment;
mod foreign;
pub mod record;
pub mod sink;
pub mod pipeline;

