//! A desktop notification relay for chat events.
//!
//! The library holds the verified core of the relay: the wire codec that
//! turns raw broker payloads into [`message::Message`] values, the
//! [`filter::Filter`] that decides which messages are suppressed, and the
//! [`session`] module with the subscription state machine and the
//! per-delivery decision function. Network I/O, configuration loading and
//! the OS notification call live outside the library and hand it plain
//! values.

pub mod codec;
pub mod filter;
pub mod message;
pub mod session;
pub mod text;
