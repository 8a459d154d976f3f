//! Message layer for tunnelling remote command execution and small file
//! transfers over an unreliable, message-oriented transport.
//!
//! The crate is organised leaf-first:
//!
//! - [`cbor`] is the wire codec: a compact, canonical binary encoding
//!   (a map-free subset of concise binary object representation).
//! - [`message`] is the message catalog: the closed set of protocol
//!   messages, each with its encode and decode rule over the wire codec.
//! - [`session`] is the per-channel session state machine.
//! - [`driver`] multiplexes independent sessions, one per channel, over
//!   one shared transport.

pub mod cbor;
pub mod driver;
pub mod message;
pub mod session;

