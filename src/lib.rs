//! A small line-oriented chat protocol: message and frame types, the wire
//! codec that turns frames into base64-argument lines and back, the decisions
//! of a relay connection, and the editing state of a one-line text input.

pub mod b64;
pub mod codec;
pub mod error;
pub mod model;
pub mod session;
pub mod text_input;
pub mod util;
mod outside;

pub use codec::{ClientFrame, ClientFrameCodec, ServerFrame, ServerFrameCodec};
pub use error::Error;
pub use model::{ReceivedMessage, SentMessage};
