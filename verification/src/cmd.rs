//! Commands understood by the server.

pub mod del;
