//! The `DEL` command of a Redis-style server: its frame model, a cursor over
//! the parts of an array frame, and the command's parsing and encoding.

pub mod buf;
pub mod cmd;
pub mod frame;
pub mod parse;

pub use cmd::del::Del;
pub use frame::Frame;
pub use parse::{Parse, ParseError};
