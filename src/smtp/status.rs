use vstd::prelude::*;

verus! {

/// The closed catalog of replies the server writes.
#[derive(Clone, Copy, Debug, PartialEq, Eq, Hash, Structural)]
pub enum Code {
    ServiceReady,
    StartTLS,
    Okay,
    EncRequired,
    AuthRequired,
    Goodbye,
    BadSequence,
    Helo,
    EnterMessage,
    MessageSent,
}

/// The wire text of a reply, without the line terminator.
pub open spec fn code_text(c: Code) -> Seq<char> {
    match c {
        Code::ServiceReady => "220 Service ready"@,
        Code::StartTLS => "220 Start TLS"@,
        Code::Goodbye => "221 Goodbye"@,
        Code::Helo => "250 mail.example.com"@,
        Code::Okay => "250 OK"@,
        Code::MessageSent => "250 Message sent"@,
        Code::EnterMessage => "354 enter mail, end with line containing only \".\""@,
        Code::BadSequence => "503 Bad sequence of commands"@,
        Code::EncRequired => "530 Encryption required"@,
        Code::AuthRequired => "530 Authentication required"@,
    }
}

/// The line terminator of the wire protocol.
pub open spec fn crlf_chars() -> Seq<char> {
    seq!['\r', '\n']
}

/// The reply stream for a sequence of codes: each code's text followed by CRLF.
pub open spec fn reply_stream(codes: Seq<Code>) -> Seq<char>
    decreases codes.len(),
{
    if codes.len() == 0 {
        Seq::empty()
    } else {
        reply_stream(codes.drop_last()) + code_text(codes.last()) + crlf_chars()
    }
}

impl Code {
    /// The wire text of this reply, without the line terminator.
    pub fn as_str(&self) -> (r: &'static str)
        ensures
            r@ == code_text(*self),
    {
        match self {
            Code::ServiceReady => "220 Service ready",
            Code::StartTLS => "220 Start TLS",
            Code::Goodbye => "221 Goodbye",
            Code::Helo => "250 mail.example.com",
            Code::Okay => "250 OK",
            Code::MessageSent => "250 Message sent",
            Code::EnterMessage => "354 enter mail, end with line containing only \".\"",
            Code::BadSequence => "503 Bad sequence of commands",
            Code::EncRequired => "530 Encryption required",
            Code::AuthRequired => "530 Authentication required",
        }
    }

    /// The wire text of this reply as an owned string.
    pub fn to_string(&self) -> (r: String)
        ensures
            r@ == code_text(*self),
    {
        String::from_str(self.as_str())
    }
}

/// Renders replies as they go on the wire: each one followed by CRLF, in order.
pub fn render_replies(codes: &Vec<Code>) -> (r: String)
    ensures
        r@ == reply_stream(codes@),
{
    let mut out = String::new();
    let mut i: usize = 0;
    while i < codes.len()
        invariant
            i <= codes@.len(),
            out@ == reply_stream(codes@.take(i as int)),
        decreases codes@.len() - i,
    {
        proof {
            assert(codes@.take(i as int + 1).drop_last() =~= codes@.take(i as int));
        }
        out.append(codes[i].as_str());
        out.append("\r\n");
        proof {
            reveal_strlit("\r\n");
        }
        i = i + 1;
    }
    proof {
        assert(codes@.take(i as int) =~= codes@);
    }
    out
}

} // verus!
