//! A minimal STOMP client core: the frame wire format and the client session.
//!
//! Frames are encoded to and decoded from bytes; the session builds the frames
//! of the protocol's operations and keeps the receipt counter. Nothing here
//! performs I/O: a transport reads and writes the bytes.

pub mod command;
pub mod decoder;
pub mod error;
pub mod frame;
pub mod header;
pub mod laws;
pub mod session;
pub mod text;

pub use command::Command;
pub use decoder::{decode, Demand, FrameDecoder};
pub use error::DecodeError;
pub use frame::Frame;
pub use header::Header;
pub use session::ClientSession;
