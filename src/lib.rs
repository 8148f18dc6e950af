//! A one-way transport for validator events: stream tags, the framing codec,
//! the decisions of the stream pumps, the account coalescer and the
//! transaction correlation cache.

pub mod stream_op;
pub mod error;
pub mod frame;
pub mod opts;
pub mod records;
pub mod coalescer;
pub mod cache;
pub mod identity;
pub mod pump;
pub mod demux;
