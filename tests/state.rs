use email_server_core::message::Message;
use email_server_core::smtp::state::{
    new_state, DataCollectState, InitState, MailState, MessageCompleted, RcptState, SmtpState,
};
use email_server_core::smtp::status::Code;

#[test]
fn test_init_state_helo() {
    let mut msg = Message::default();
    let state = InitState::default();
    let (resp, next) = state.process_line(b"HELO example.com", &mut msg);
    assert_eq!(resp, Some(Code::Helo));
    assert_eq!(msg.sender_domain, "example.com");
    assert!(next.is_some());
}

#[test]
fn test_mail_state_from() {
    let mut msg = Message::default();
    let state = MailState {};
    let (resp, next) = state.process_line(b"MAIL FROM: <sender@example>", &mut msg);
    assert_eq!(resp, Some(Code::Okay));
    assert_eq!(msg.from, "<sender@example>");
    assert!(next.is_some());
}

#[test]
fn test_rcpt_state_to() {
    let mut msg = Message::default();
    let state = RcptState {};
    let (resp, next) = state.process_line(b"RCPT TO: <recipient@example>", &mut msg);
    assert_eq!(resp, Some(Code::Okay));
    assert_eq!(msg.to, vec!["<recipient@example>".to_string()]);
    assert!(next.is_some());
}

#[test]
fn test_data_state() {
    let mut msg = Message::default();
    let state = RcptState {};
    let (resp, next) = state.process_line(b"DATA", &mut msg);
    assert_eq!(resp, Some(Code::EnterMessage));
    assert!(next.is_some());
}

#[test]
fn test_data_collect_state() {
    let mut msg = Message::default();
    let state = DataCollectState {};
    let (resp, next) = state.process_line(b"Hello", &mut msg);
    assert!(resp.is_none());
    assert!(next.is_some());
    let (resp, next) = state.process_line(b"World", &mut msg);
    assert!(resp.is_none());
    assert!(next.is_some());
    let (resp, next) = state.process_line(b".", &mut msg);
    assert_eq!(resp, Some(Code::MessageSent));
    assert!(next.is_some());
    assert_eq!(msg.data, b"Hello\r\nWorld\r\n".to_vec());
}

#[test]
fn test_done_state() {
    let mut msg = Message::default();
    let state = MessageCompleted {};
    let (resp, next) = state.process_line(b"QUIT", &mut msg);
    assert_eq!(resp, Some(Code::BadSequence));
    assert!(next.is_none());
    assert!(state.is_message_completed());
}

#[test]
fn new_state_is_init() {
    assert_eq!(new_state(), SmtpState::Init);
    assert!(!new_state().is_collecting_data());
    assert!(!new_state().is_message_completed());
}

#[test]
fn transition_table() {
    let mut msg = Message::default();
    assert_eq!(
        SmtpState::Init.process(b"MAIL FROM: x", &mut msg),
        (Some(Code::BadSequence), Some(SmtpState::Init))
    );
    assert_eq!(
        SmtpState::Init.process(b"HELO d", &mut msg),
        (Some(Code::Helo), Some(SmtpState::Mail))
    );
    assert_eq!(
        SmtpState::Mail.process(b"RCPT TO: x", &mut msg),
        (Some(Code::BadSequence), Some(SmtpState::Mail))
    );
    assert_eq!(
        SmtpState::Mail.process(b"MAIL FROM: <a@b>", &mut msg),
        (Some(Code::Okay), Some(SmtpState::Rcpt))
    );
    assert_eq!(
        SmtpState::Rcpt.process(b"RCPT TO: <c@d>", &mut msg),
        (Some(Code::Okay), Some(SmtpState::Rcpt))
    );
    assert_eq!(
        SmtpState::Rcpt.process(b"RCPT TO: <c@d>", &mut msg),
        (Some(Code::Okay), Some(SmtpState::Rcpt))
    );
    assert_eq!(
        SmtpState::Rcpt.process(b"HELO again", &mut msg),
        (Some(Code::BadSequence), Some(SmtpState::Rcpt))
    );
    assert_eq!(
        SmtpState::Rcpt.process(b"DATA", &mut msg),
        (Some(Code::EnterMessage), Some(SmtpState::Data))
    );
    assert_eq!(
        SmtpState::Done.process(b"HELO d", &mut msg),
        (Some(Code::BadSequence), None)
    );
    assert_eq!(msg.sender_domain, "d");
    assert_eq!(msg.from, "<a@b>");
    assert_eq!(msg.to, vec!["<c@d>".to_string(), "<c@d>".to_string()]);
}

#[test]
fn quit_closes_every_state_but_data() {
    for state in [SmtpState::Init, SmtpState::Mail, SmtpState::Rcpt, SmtpState::Done] {
        let mut msg = Message::default();
        assert_eq!(state.process(b"QUIT", &mut msg), (Some(Code::Goodbye), None));
    }
    let mut msg = Message::default();
    assert_eq!(
        SmtpState::Data.process(b"QUIT", &mut msg),
        (None, Some(SmtpState::Data))
    );
    assert_eq!(msg.data, b"QUIT\r\n".to_vec());
}

#[test]
fn empty_line_outside_data_is_bad_sequence() {
    for state in [SmtpState::Init, SmtpState::Mail, SmtpState::Rcpt] {
        let mut msg = Message::default();
        assert_eq!(state.process(b"", &mut msg), (Some(Code::BadSequence), Some(state)));
    }
    let mut msg = Message::default();
    assert_eq!(SmtpState::Done.process(b"", &mut msg), (Some(Code::BadSequence), None));
}

#[test]
fn data_without_recipients_enters_data() {
    let mut msg = Message::default();
    assert_eq!(
        SmtpState::Rcpt.process(b"DATA", &mut msg),
        (Some(Code::EnterMessage), Some(SmtpState::Data))
    );
    assert!(msg.to.is_empty());
}

#[test]
fn data_lines_are_unstuffed_and_terminated() {
    let mut msg = Message::default();
    for line in [&b"..dotted"[..], b"normal", b"", b".x"] {
        assert_eq!(SmtpState::Data.process(line, &mut msg), (None, Some(SmtpState::Data)));
    }
    assert_eq!(msg.data, b".dotted\r\nnormal\r\n\r\n.x\r\n".to_vec());
    assert_eq!(
        SmtpState::Data.process(b".", &mut msg),
        (Some(Code::MessageSent), Some(SmtpState::Done))
    );
}
