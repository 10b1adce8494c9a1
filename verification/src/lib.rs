//! Core of a room-scoped chat relay: room registry, bounded drop-oldest
//! broadcast channels, the per-connection session state machine, and the
//! text-frame codec. Transport wiring (sockets, HTTP) lives outside.
pub mod channel;
pub mod codec;
pub mod error;
pub mod hex;
pub mod laws;
pub mod message;
pub mod registry;
pub mod room;
pub mod session;

pub use error::ChattyError;
