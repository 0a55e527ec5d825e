//! The command layer of a small key-value server: wire frames, a cursor over
//! the frames of one request, and the `SET` command with its three phases
//! (parse, apply, serialize).

pub mod buf;
pub mod cmd;
pub mod frame;
pub mod parse;
pub mod text;
pub mod ttl;

pub use cmd::set::SetCmd;
pub use cmd::Command;
pub use frame::Frame;
pub use parse::{Parse, ParseError};
