use email_server_core::message::Message;
use email_server_core::smtp::reader::{greeting, SmtpMessageReader};
use email_server_core::smtp::state::SmtpState;
use email_server_core::smtp::status::{render_replies, Code};

/// Feeds the chunks to a new connection: the wire output (greeting
/// included), the envelopes delivered, and whether the connection is open.
fn converse(chunks: &[&[u8]]) -> (String, Vec<Message>, bool) {
    let mut reader = SmtpMessageReader::new();
    let mut replies = vec![greeting()];
    let mut delivered = Vec::new();
    for chunk in chunks {
        let out = reader.read(chunk);
        replies.extend(out.replies);
        delivered.extend(out.messages);
    }
    (render_replies(&replies), delivered, reader.is_open())
}

const TRANSACTION: &[u8] = b"HELO example.com\r\nMAIL FROM: Alice <Alice@example.com>\r\nRCPT TO: Bob <bob@example.com>\r\nDATA\r\nSubject: Test\r\n\r\nHello, world!\r\n.\r\n";

#[test]
fn test_smtp_server_initial_response() {
    let (output, _, _) = converse(&[]);
    assert!(output.starts_with("220"));
    assert_eq!(output, "220 Service ready\r\n");
}

#[test]
fn test_smtp_server_helo_command() {
    let mut reader = SmtpMessageReader::new();
    let out = reader.read(b"HELO example.com\r\n");
    let response = render_replies(&out.replies);
    assert!(response.starts_with("250"));
}

#[test]
fn test_smtp_server_quit_command() {
    let mut reader = SmtpMessageReader::new();
    let out = reader.read(b"QUIT\r\n");
    let response = render_replies(&out.replies);
    assert!(response.starts_with("221"));
    assert!(!reader.is_open());
}

#[test]
fn test_full_message() {
    let mut reader = SmtpMessageReader::new();
    let steps: [(&[u8], &str); 6] = [
        (b"HELO example.com\r\n", "250"),
        (b"MAIL FROM: Alice <Alice@example.com>\r\n", "250"),
        (b"RCPT TO: Bob <bob@example.com>\r\n", "250"),
        (b"DATA\r\n", "354"),
        (b"Subject: Test\r\n\r\nHello, world!\r\n.\r\n", "250"),
        (b"QUIT\r\n", "221"),
    ];
    for (input, prefix) in steps {
        let out = reader.read(input);
        assert!(render_replies(&out.replies).starts_with(prefix));
    }
}

#[test]
fn test_pipeline_message() {
    let mut reader = SmtpMessageReader::new();
    let input = b"HELO example.com\r\nMAIL FROM: Alice <Alice@example.com>\r\nRCPT TO: Bob <bob@example.com>\r\nDATA\r\nSubject: Test\r\n\r\nHello, world!\r\n.\r\nQUIT\r\n";
    let expected = "250 mail.example.com\r\n250 OK\r\n250 OK\r\n354 enter mail, end with line containing only \".\"\r\n250 Message sent\r\n221 Goodbye\r\n";
    let out = reader.read(input);
    let output = render_replies(&out.replies);
    assert_eq!(output, expected);
}

#[test]
fn greeting_and_quit() {
    let (output, delivered, open) = converse(&[b"QUIT\r\n"]);
    assert_eq!(output, "220 Service ready\r\n221 Goodbye\r\n");
    assert!(delivered.is_empty());
    assert!(!open);
}

#[test]
fn helo_then_quit() {
    let (output, _, _) = converse(&[b"HELO example.com\r\nQUIT\r\n"]);
    assert_eq!(output, "220 Service ready\r\n250 mail.example.com\r\n221 Goodbye\r\n");
}

#[test]
fn full_pipelined_transaction() {
    let mut input = TRANSACTION.to_vec();
    input.extend_from_slice(b"QUIT\r\n");
    let (output, delivered, open) = converse(&[&input]);
    assert_eq!(
        output,
        "220 Service ready\r\n250 mail.example.com\r\n250 OK\r\n250 OK\r\n354 enter mail, end with line containing only \".\"\r\n250 Message sent\r\n221 Goodbye\r\n"
    );
    assert!(!open);
    assert_eq!(delivered.len(), 1);
    assert_eq!(delivered[0].sender_domain, "example.com");
    assert_eq!(delivered[0].from, "Alice <Alice@example.com>");
    assert_eq!(delivered[0].to, vec!["Bob <bob@example.com>".to_string()]);
    assert_eq!(delivered[0].data, b"Subject: Test\r\n\r\nHello, world!\r\n".to_vec());
}

#[test]
fn sequencing_violation_stays_in_init() {
    let mut reader = SmtpMessageReader::new();
    let out = reader.read(b"MAIL FROM: x\r\n");
    assert_eq!(out.replies, vec![Code::BadSequence]);
    assert_eq!(reader.state(), SmtpState::Init);
    let (output, _, _) = converse(&[b"MAIL FROM: x\r\nQUIT\r\n"]);
    assert_eq!(output, "220 Service ready\r\n503 Bad sequence of commands\r\n221 Goodbye\r\n");
}

#[test]
fn dot_stuffed_body() {
    let (_, delivered, _) = converse(&[
        b"HELO h\r\nMAIL FROM: a\r\nRCPT TO: b\r\nDATA\r\n",
        b"..dotted\r\nnormal\r\n.\r\n",
    ]);
    assert_eq!(delivered.len(), 1);
    assert_eq!(delivered[0].data, b".dotted\r\nnormal\r\n".to_vec());
}

#[test]
fn two_transactions_on_one_connection() {
    let second = b"HELO other.org\r\nMAIL FROM: <c@other.org>\r\nRCPT TO: <d@x>\r\nRCPT TO: <e@x>\r\nDATA\r\nsecond\r\n.\r\nQUIT\r\n";
    let mut input = TRANSACTION.to_vec();
    input.extend_from_slice(second);
    let (output, delivered, open) = converse(&[&input]);
    assert!(!open);
    assert_eq!(delivered.len(), 2);
    assert_eq!(delivered[0].from, "Alice <Alice@example.com>");
    assert_eq!(delivered[1].sender_domain, "other.org");
    assert_eq!(delivered[1].from, "<c@other.org>");
    assert_eq!(delivered[1].to, vec!["<d@x>".to_string(), "<e@x>".to_string()]);
    assert_eq!(delivered[1].data, b"second\r\n".to_vec());
    assert!(output.ends_with("250 Message sent\r\n221 Goodbye\r\n"));
}

#[test]
fn reset_after_message_sent() {
    let mut reader = SmtpMessageReader::new();
    let out = reader.read(TRANSACTION);
    assert_eq!(out.messages.len(), 1);
    assert_eq!(reader.state(), SmtpState::Init);
    assert_eq!(reader.message().from, "");
    assert!(reader.message().to.is_empty());
    assert!(reader.message().data.is_empty());
    assert!(reader.is_open());
}

#[test]
fn fragmented_reads_match_one_read() {
    let (whole, whole_delivered, _) = converse(&[TRANSACTION, b"QUIT\r\n"]);
    let mut chunks: Vec<&[u8]> = Vec::new();
    for i in 0..TRANSACTION.len() {
        chunks.push(&TRANSACTION[i..i + 1]);
    }
    chunks.push(b"QUIT\r");
    chunks.push(b"\n");
    let (pieces, pieces_delivered, open) = converse(&chunks);
    assert_eq!(whole, pieces);
    assert!(!open);
    assert_eq!(whole_delivered.len(), pieces_delivered.len());
    assert_eq!(whole_delivered[0].data, pieces_delivered[0].data);
    assert_eq!(whole_delivered[0].to, pieces_delivered[0].to);
}

#[test]
fn incomplete_line_waits_for_crlf() {
    let mut reader = SmtpMessageReader::new();
    let out = reader.read(b"HELO exa");
    assert!(out.replies.is_empty());
    assert_eq!(reader.pending(), b"HELO exa");
    let out = reader.read(b"mple.com\r");
    assert!(out.replies.is_empty());
    let out = reader.read(b"\nMAIL");
    assert_eq!(out.replies, vec![Code::Helo]);
    assert_eq!(reader.pending(), b"MAIL");
    assert_eq!(reader.message().sender_domain, "example.com");
}

#[test]
fn bare_line_feed_does_not_end_a_line() {
    let mut reader = SmtpMessageReader::new();
    let out = reader.read(b"QUIT\nHELO x\r\n");
    assert_eq!(out.replies, vec![Code::Goodbye]);
}

#[test]
fn empty_line_yields_bad_sequence() {
    let mut reader = SmtpMessageReader::new();
    let out = reader.read(b"\r\n");
    assert_eq!(out.replies, vec![Code::BadSequence]);
    assert_eq!(reader.state(), SmtpState::Init);
}

#[test]
fn data_accepted_without_recipient() {
    let (output, delivered, _) = converse(&[b"HELO h\r\nMAIL FROM: a\r\nDATA\r\n"]);
    assert_eq!(
        output,
        "220 Service ready\r\n250 mail.example.com\r\n250 OK\r\n354 enter mail, end with line containing only \".\"\r\n"
    );
    assert!(delivered.is_empty());
    let mut reader = SmtpMessageReader::new();
    let out = reader.read(b"HELO h\r\nMAIL FROM: a\r\n");
    assert_eq!(out.replies, vec![Code::Helo, Code::Okay]);
    assert_eq!(reader.state(), SmtpState::Rcpt);
    let out = reader.read(b"DATA\r\nbody\r\n.\r\n");
    assert_eq!(out.replies, vec![Code::EnterMessage, Code::MessageSent]);
    assert_eq!(out.messages.len(), 1);
    assert!(out.messages[0].to.is_empty());
}

#[test]
fn quit_in_data_is_message_text() {
    let (_, delivered, open) =
        converse(&[b"HELO h\r\nMAIL FROM: a\r\nRCPT TO: b\r\nDATA\r\nQUIT\r\n.\r\n"]);
    assert!(open);
    assert_eq!(delivered[0].data, b"QUIT\r\n".to_vec());
}

#[test]
fn nothing_after_quit_is_answered() {
    let (output, delivered, open) =
        converse(&[b"QUIT\r\nHELO h\r\n", b"MAIL FROM: a\r\n"]);
    assert_eq!(output, "220 Service ready\r\n221 Goodbye\r\n");
    assert!(delivered.is_empty());
    assert!(!open);
}

#[test]
fn one_reply_per_replying_line() {
    let mut reader = SmtpMessageReader::new();
    let out = reader.read(b"HELO h\r\nMAIL FROM: a\r\nRCPT TO: b\r\nDATA\r\nl1\r\nl2\r\nl3\r\n.\r\nNOOP\r\n");
    assert_eq!(
        out.replies,
        vec![Code::Helo, Code::Okay, Code::Okay, Code::EnterMessage, Code::MessageSent, Code::BadSequence]
    );
}
