//! A DNS message codec over a fixed 512-byte datagram buffer, with the
//! decisions of a forwarding resolver built on top of it.

pub mod command_line;
pub mod parser;
pub mod server;
