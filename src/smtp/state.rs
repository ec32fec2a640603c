use vstd::prelude::*;

use super::command::{command_of, Command, CommandView, quit_verb, starts_with, has_prefix};
use super::status::Code;
use crate::message::{Message, MessageView};

verus! {

/// The protocol states of one connection.
#[derive(Clone, Copy, Debug, PartialEq, Eq, Hash, Structural)]
pub enum SmtpState {
    Init,
    Mail,
    Rcpt,
    Data,
    Done,
}

/// What one input line does: the reply to write (if any), the next state
/// (none: close the connection) and the envelope afterwards.
pub struct Step {
    pub reply: Option<Code>,
    pub next: Option<SmtpState>,
    pub message: MessageView,
}

/// The data-block terminator: a line holding a single `.`.
pub open spec fn dot_line() -> Seq<u8> {
    seq![46u8]
}

/// The canonical line terminator.
pub open spec fn crlf() -> Seq<u8> {
    seq![13u8, 10]
}

/// A data line with its dot-stuffing undone: a leading `..` loses one `.`.
pub open spec fn unstuff(line: Seq<u8>) -> Seq<u8> {
    if line.len() >= 2 && line[0] == 46 && line[1] == 46 {
        line.drop_first()
    } else {
        line
    }
}

pub open spec fn init_step(line: Seq<u8>, m: MessageView) -> Step {
    match command_of(line) {
        CommandView::Helo(d) => Step {
            reply: Some(Code::Helo),
            next: Some(SmtpState::Mail),
            message: MessageView { sender_domain: d, ..m },
        },
        _ => Step { reply: Some(Code::BadSequence), next: Some(SmtpState::Init), message: m },
    }
}

pub open spec fn mail_step(line: Seq<u8>, m: MessageView) -> Step {
    match command_of(line) {
        CommandView::MailFrom(p) => Step {
            reply: Some(Code::Okay),
            next: Some(SmtpState::Rcpt),
            message: MessageView { from: p, ..m },
        },
        _ => Step { reply: Some(Code::BadSequence), next: Some(SmtpState::Mail), message: m },
    }
}

pub open spec fn rcpt_step(line: Seq<u8>, m: MessageView) -> Step {
    match command_of(line) {
        CommandView::RcptTo(p) => Step {
            reply: Some(Code::Okay),
            next: Some(SmtpState::Rcpt),
            message: MessageView { to: m.to.push(p), ..m },
        },
        CommandView::Data => Step {
            reply: Some(Code::EnterMessage),
            next: Some(SmtpState::Data),
            message: m,
        },
        _ => Step { reply: Some(Code::BadSequence), next: Some(SmtpState::Rcpt), message: m },
    }
}

pub open spec fn data_step(line: Seq<u8>, m: MessageView) -> Step {
    if line == dot_line() {
        Step { reply: Some(Code::MessageSent), next: Some(SmtpState::Done), message: m }
    } else {
        Step {
            reply: None,
            next: Some(SmtpState::Data),
            message: MessageView { data: m.data + unstuff(line) + crlf(), ..m },
        }
    }
}

pub open spec fn done_step(m: MessageView) -> Step {
    Step { reply: Some(Code::BadSequence), next: None, message: m }
}

/// One line processed in state `s`: QUIT closes every state but Data, where
/// the line is message text; otherwise the state's own transition applies.
pub open spec fn process_spec(s: SmtpState, line: Seq<u8>, m: MessageView) -> Step {
    if s != SmtpState::Data && starts_with(line, quit_verb()) {
        Step { reply: Some(Code::Goodbye), next: None, message: m }
    } else {
        match s {
            SmtpState::Init => init_step(line, m),
            SmtpState::Mail => mail_step(line, m),
            SmtpState::Rcpt => rcpt_step(line, m),
            SmtpState::Data => data_step(line, m),
            SmtpState::Done => done_step(m),
        }
    }
}

/// The state of a new connection, and of each one after a completed message.
pub fn new_state() -> (r: SmtpState)
    ensures
        r == SmtpState::Init,
{
    SmtpState::Init
}

/// The Init state: waits for HELO.
#[derive(Debug)]
pub struct InitState {}

impl Default for InitState {
    fn default() -> (r: InitState) {
        InitState {}
    }
}

/// The Mail state: waits for MAIL FROM.
#[derive(Debug, Default)]
pub struct MailState;

/// The Rcpt state: collects RCPT TO, waits for DATA.
#[derive(Debug, Default)]
pub struct RcptState;

/// The Data state: collects the message text up to a line holding `.`.
#[derive(Debug, Default)]
pub struct DataCollectState;

/// The Done state: the envelope is complete and awaits delivery.
#[derive(Debug, Default)]
pub struct MessageCompleted;

impl InitState {
    pub fn process_line(&self, line: &[u8], message: &mut Message) -> (r: (Option<Code>, Option<SmtpState>))
        ensures
            r.0 == init_step(line@, old(message)@).reply,
            r.1 == init_step(line@, old(message)@).next,
            final(message)@ == init_step(line@, old(message)@).message,
    {
        match Command::from_bytes(line) {
            Command::Helo(d) => {
                message.sender_domain = d;
                (Some(Code::Helo), Some(SmtpState::Mail))
            },
            _ => (Some(Code::BadSequence), Some(SmtpState::Init)),
        }
    }
}

impl MailState {
    pub fn process_line(&self, line: &[u8], message: &mut Message) -> (r: (Option<Code>, Option<SmtpState>))
        ensures
            r.0 == mail_step(line@, old(message)@).reply,
            r.1 == mail_step(line@, old(message)@).next,
            final(message)@ == mail_step(line@, old(message)@).message,
    {
        match Command::from_bytes(line) {
            Command::MailFrom(p) => {
                message.from = p;
                (Some(Code::Okay), Some(SmtpState::Rcpt))
            },
            _ => (Some(Code::BadSequence), Some(SmtpState::Mail)),
        }
    }
}

impl RcptState {
    pub fn process_line(&self, line: &[u8], message: &mut Message) -> (r: (Option<Code>, Option<SmtpState>))
        ensures
            r.0 == rcpt_step(line@, old(message)@).reply,
            r.1 == rcpt_step(line@, old(message)@).next,
            final(message)@ == rcpt_step(line@, old(message)@).message,
    {
        match Command::from_bytes(line) {
            Command::RcptTo(p) => {
                let ghost before = message.to@;
                message.to.push(p);
                proof {
                    assert(crate::message::strings_view(message.to@) =~= crate::message::strings_view(before).push(p@));
                }
                (Some(Code::Okay), Some(SmtpState::Rcpt))
            },
            Command::Data => (Some(Code::EnterMessage), Some(SmtpState::Data)),
            _ => (Some(Code::BadSequence), Some(SmtpState::Rcpt)),
        }
    }
}

impl DataCollectState {
    pub fn process_line(&self, line: &[u8], message: &mut Message) -> (r: (Option<Code>, Option<SmtpState>))
        ensures
            r.0 == data_step(line@, old(message)@).reply,
            r.1 == data_step(line@, old(message)@).next,
            final(message)@ == data_step(line@, old(message)@).message,
    {
        if line.len() == 1 && line[0] == 46 {
            assert(line@ =~= dot_line());
            return (Some(Code::MessageSent), Some(SmtpState::Done));
        }
        assert(line@ != dot_line());
        let from: usize = if line.len() >= 2 && line[0] == 46 && line[1] == 46 { 1 } else { 0 };
        assert(unstuff(line@) =~= line@.skip(from as int));
        let ghost before = message.data@;
        let mut i: usize = from;
        while i < line.len()
            invariant
                from <= i <= line@.len(),
                message.data@ =~= before + line@.subrange(from as int, i as int),
                message.sender_domain@ == old(message).sender_domain@,
                message.from@ == old(message).from@,
                message.to@ == old(message).to@,
            decreases line@.len() - i,
        {
            message.data.push(line[i]);
            i = i + 1;
        }
        message.data.push(13);
        message.data.push(10);
        proof {
            assert(line@.subrange(from as int, line@.len() as int) =~= unstuff(line@));
            assert(message.data@ =~= before + unstuff(line@) + crlf());
            assert(message@ == data_step(line@, old(message)@).message);
        }
        (None, Some(SmtpState::Data))
    }
}

impl MessageCompleted {
    pub fn process_line(&self, line: &[u8], message: &mut Message) -> (r: (Option<Code>, Option<SmtpState>))
        ensures
            r.0 == done_step(old(message)@).reply,
            r.1 == done_step(old(message)@).next,
            final(message)@ == old(message)@,
    {
        (Some(Code::BadSequence), None)
    }

    pub fn is_message_completed(&self) -> (r: bool)
        ensures
            r,
    {
        true
    }
}

impl SmtpState {
    /// Whether the state collects message text (QUIT is text there).
    pub fn is_collecting_data(&self) -> (r: bool)
        ensures
            r == (*self == SmtpState::Data),
    {
        match self {
            SmtpState::Data => true,
            _ => false,
        }
    }

    /// Whether the envelope is complete and ready for delivery.
    pub fn is_message_completed(&self) -> (r: bool)
        ensures
            r == (*self == SmtpState::Done),
    {
        match self {
            SmtpState::Done => true,
            _ => false,
        }
    }

    /// Processes one line (without its CRLF) against the envelope: returns
    /// the reply to write and the next state, none meaning the connection
    /// closes after the reply.
    pub fn process(&self, line: &[u8], message: &mut Message) -> (r: (Option<Code>, Option<SmtpState>))
        ensures
            r.0 == process_spec(*self, line@, old(message)@).reply,
            r.1 == process_spec(*self, line@, old(message)@).next,
            final(message)@ == process_spec(*self, line@, old(message)@).message,
    {
        let quit: [u8; 4] = [81, 85, 73, 84];
        assert(quit@ =~= quit_verb());
        if !self.is_collecting_data() && has_prefix(line, quit.as_slice()) {
            return (Some(Code::Goodbye), None);
        }
        match self {
            SmtpState::Init => InitState {}.process_line(line, message),
            SmtpState::Mail => MailState.process_line(line, message),
            SmtpState::Rcpt => RcptState.process_line(line, message),
            SmtpState::Data => DataCollectState.process_line(line, message),
            SmtpState::Done => MessageCompleted.process_line(line, message),
        }
    }
}

} // verus!
