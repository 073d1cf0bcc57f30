//! Verified core of a realtime chat client.
//!
//! The library keeps a local view of one chat room — who is online and what
//! has been said — driven by JSON text frames arriving over an opaque duplex
//! transport, and frames the messages the local user sends back out.
//!
//! - [`envelope`] holds the wire data model: the envelope, the chat message,
//!   the user profile, and the error taxonomy.
//! - [`json`] holds the verified JSON text primitives the codec is built on:
//!   string escaping and the scanners that undo it.
//! - [`codec`] encodes and decodes the wire envelope and the nested chat
//!   payload, with proved round-trip laws.
//! - [`chat`] is the client state machine: session bootstrap, the inbound
//!   reducer, the outbound composer, and the view projections.

pub mod chat;
pub mod codec;
pub mod envelope;
pub mod json;
