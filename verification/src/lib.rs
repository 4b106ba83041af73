//! Request multiplexing over one ordered byte stream.
//!
//! One connection carries one-way messages, correlated calls, long-lived
//! subscriptions and descriptor handoff requests. This crate holds the part
//! that decides: the envelope model and its frame codec, the ordered write
//! path, the registry that correlates responses with their waiters, the
//! handle over an inbound request, and the connection state that ties them
//! together. Reading from and writing to the transport is left to the
//! embedding code, which feeds frames in and drains the write queue.

pub mod bytes;
pub mod envelope;
pub mod codec;
pub mod writer;
pub mod registry;
pub mod request;
pub mod rpc_connection;
