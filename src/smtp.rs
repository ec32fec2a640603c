//! The SMTP engine: reply catalog, command parser, state machine and the
//! line framer that drives it.
pub mod command;
pub mod theorems;
pub mod reader;
pub mod state;
pub mod status;
pub mod validator;

pub use crate::message::{Handler, Message};
pub use reader::{greeting, ReadOutcome, SmtpMessageReader};
pub use state::{new_state, SmtpState};
pub use status::Code;
