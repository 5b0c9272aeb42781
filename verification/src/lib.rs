//! Core of an AMQP 0-9-1 client: the connection/channel state machine and
//! frame multiplexer that sits between a byte transport and application code.
//!
//! The crate owns three tightly coupled problems:
//! - a per-channel request/response state machine that matches incoming
//!   replies to the oldest expectation ([`connection`], [`channel`]);
//! - a prioritized frame scheduler that keeps a `basic.publish` method,
//!   content-header and content-body run contiguous on the wire ([`frames`]);
//! - a consumer delivery pipeline that assembles multi-frame deliveries and
//!   routes them to subscribers ([`consumer`]).
//!
//! The transport, codec and reactor are external collaborators: this crate
//! works on typed frames and hands encoded batches back to the I/O layer.

pub mod basic_ops;
pub mod channel;
pub mod connection;
pub mod consumer;
pub mod error;
pub mod frame;
pub mod frames;
pub mod ids;
pub mod promise;
pub mod queue_ops;
