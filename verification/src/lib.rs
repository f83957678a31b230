//! Verified core of a line-oriented, IRC-style text protocol server.
//!
//! The crate holds the protocol logic of the server: the message codec
//! (`codec`), the per-read request buffer (`request`), the reply service
//! (`service`), and the producer/consumer queue together with the loop
//! decisions of the multiplexer and the workers (`queue`).  The socket,
//! thread and lock plumbing around this logic is deliberately outside the
//! crate: it hands plain values in and takes plain values back.

pub mod codec;
pub mod queue;
pub mod request;
pub mod service;
