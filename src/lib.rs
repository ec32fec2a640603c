//! Per-connection SMTP protocol engine: reply codes, command parsing, the
//! protocol state machine, CRLF framing of the byte stream and the envelope
//! that is handed to message sinks.
pub mod message;
pub mod smtp;

pub use message::{multi_handler, Handler, Message, MultiHandler, SinkError};
