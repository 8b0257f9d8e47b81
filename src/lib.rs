//! Core of a minimal inbound mail-submission listener: line framing of the
//! byte stream, command parsing, the per-connection session state machine and
//! the reply formatter. Sockets, configuration and logging live outside.

pub mod command;
pub mod connection;
pub mod framer;
pub mod reply;
pub mod session;
