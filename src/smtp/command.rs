use vstd::prelude::*;
use vstd::utf8::{decode_utf8, valid_utf8};

verus! {

/// `HELO ` (with the space).
pub open spec fn helo_verb() -> Seq<u8> {
    seq![72u8, 69, 76, 79, 32]
}

/// `MAIL FROM:`
pub open spec fn mail_verb() -> Seq<u8> {
    seq![77u8, 65, 73, 76, 32, 70, 82, 79, 77, 58]
}

/// `RCPT TO:`
pub open spec fn rcpt_verb() -> Seq<u8> {
    seq![82u8, 67, 80, 84, 32, 84, 79, 58]
}

/// `DATA`
pub open spec fn data_verb() -> Seq<u8> {
    seq![68u8, 65, 84, 65]
}

/// `QUIT`
pub open spec fn quit_verb() -> Seq<u8> {
    seq![81u8, 85, 73, 84]
}

pub open spec fn starts_with(line: Seq<u8>, prefix: Seq<u8>) -> bool {
    prefix.len() <= line.len() && line.take(prefix.len() as int) =~= prefix
}

/// Space, tab, line feed, form feed and carriage return.
pub open spec fn is_ascii_ws(b: u8) -> bool {
    b == 32 || b == 9 || b == 10 || b == 12 || b == 13
}

pub open spec fn all_ascii_ws(s: Seq<u8>) -> bool {
    forall|i: int| 0 <= i < s.len() ==> is_ascii_ws(#[trigger] s[i])
}

pub open spec fn trim_start(s: Seq<u8>) -> Seq<u8>
    decreases s.len(),
{
    if s.len() > 0 && is_ascii_ws(s[0]) {
        trim_start(s.drop_first())
    } else {
        s
    }
}

pub open spec fn trim_end(s: Seq<u8>) -> Seq<u8>
    decreases s.len(),
{
    if s.len() > 0 && is_ascii_ws(s.last()) {
        trim_end(s.drop_last())
    } else {
        s
    }
}

/// `s` without its leading and trailing ASCII whitespace.
pub open spec fn trim_ascii(s: Seq<u8>) -> Seq<u8> {
    trim_end(trim_start(s))
}

/// What `String::from_utf8_lossy` makes of a byte sequence.
pub uninterp spec fn utf8_lossy(bytes: Seq<u8>) -> Seq<char>;

/// Relies on `String::from_utf8_lossy`: the text depends on the bytes alone,
/// and valid UTF-8 decodes to exactly its characters.
#[verifier::external_body]
fn decode_lossy(bytes: &[u8]) -> (r: String)
    ensures
        r@ == utf8_lossy(bytes@),
        valid_utf8(bytes@) ==> r@ == decode_utf8(bytes@),
{
    String::from_utf8_lossy(bytes).into_owned()
}

/// The argument of a command: the bytes after the verb, trimmed of ASCII
/// whitespace, read as UTF-8 with lossy replacement.
pub open spec fn argument(line: Seq<u8>, verb_len: int) -> Seq<char> {
    utf8_lossy(trim_ascii(line.skip(verb_len)))
}

/// A verb alone on its line, optionally followed by whitespace.
pub open spec fn is_bare_verb(line: Seq<u8>, verb: Seq<u8>) -> bool {
    starts_with(line, verb) && all_ascii_ws(line.skip(verb.len() as int))
}

/// A protocol command, classified by a case-sensitive match on its verb.
#[derive(Debug, PartialEq, Eq)]
pub enum Command {
    Helo(String),
    MailFrom(String),
    RcptTo(String),
    Data,
    Quit,
    Unknown,
}

/// The mathematical value of a command.
pub enum CommandView {
    Helo(Seq<char>),
    MailFrom(Seq<char>),
    RcptTo(Seq<char>),
    Data,
    Quit,
    Unknown,
}

impl View for Command {
    type V = CommandView;

    open spec fn view(&self) -> CommandView {
        match self {
            Command::Helo(d) => CommandView::Helo(d@),
            Command::MailFrom(p) => CommandView::MailFrom(p@),
            Command::RcptTo(p) => CommandView::RcptTo(p@),
            Command::Data => CommandView::Data,
            Command::Quit => CommandView::Quit,
            Command::Unknown => CommandView::Unknown,
        }
    }
}

/// The command carried by one protocol line (line terminator excluded).
pub open spec fn command_of(line: Seq<u8>) -> CommandView {
    if starts_with(line, helo_verb()) {
        CommandView::Helo(argument(line, 5))
    } else if starts_with(line, mail_verb()) {
        CommandView::MailFrom(argument(line, 10))
    } else if starts_with(line, rcpt_verb()) {
        CommandView::RcptTo(argument(line, 8))
    } else if is_bare_verb(line, data_verb()) {
        CommandView::Data
    } else if is_bare_verb(line, quit_verb()) {
        CommandView::Quit
    } else {
        CommandView::Unknown
    }
}

/// Whether `line` begins with `prefix`.
pub fn has_prefix(line: &[u8], prefix: &[u8]) -> (r: bool)
    ensures
        r == starts_with(line@, prefix@),
{
    if prefix.len() > line.len() {
        return false;
    }
    let mut i: usize = 0;
    while i < prefix.len()
        invariant
            prefix@.len() <= line@.len(),
            i <= prefix@.len(),
            forall|k: int| 0 <= k < i ==> line@[k] == prefix@[k],
        decreases prefix@.len() - i,
    {
        if line[i] != prefix[i] {
            return false;
        }
        i = i + 1;
    }
    proof {
        assert(line@.take(prefix@.len() as int) =~= prefix@);
    }
    true
}

fn is_ascii_whitespace_byte(b: u8) -> (r: bool)
    ensures
        r == is_ascii_ws(b),
{
    b == 32 || b == 9 || b == 10 || b == 12 || b == 13
}

/// Whether every byte of `line` from `from` on is ASCII whitespace.
fn rest_is_whitespace(line: &[u8], from: usize) -> (r: bool)
    requires
        from <= line@.len(),
    ensures
        r == all_ascii_ws(line@.skip(from as int)),
{
    let mut i: usize = from;
    while i < line.len()
        invariant
            from <= i <= line@.len(),
            forall|k: int| from <= k < i ==> is_ascii_ws(#[trigger] line@[k]),
        decreases line@.len() - i,
    {
        if !is_ascii_whitespace_byte(line[i]) {
            proof {
                assert(line@.skip(from as int)[i - from] == line@[i as int]);
            }
            return false;
        }
        i = i + 1;
    }
    proof {
        assert forall|k: int| 0 <= k < line@.skip(from as int).len() implies is_ascii_ws(
            #[trigger] line@.skip(from as int)[k],
        ) by {
            assert(line@.skip(from as int)[k] == line@[from + k]);
        }
    }
    true
}

/// `bytes[from..]` without its leading and trailing ASCII whitespace.
pub fn trim_ascii_whitespace(bytes: &[u8], from: usize) -> (r: Vec<u8>)
    requires
        from <= bytes@.len(),
    ensures
        r@ == trim_ascii(bytes@.skip(from as int)),
{
    let mut start: usize = from;
    while start < bytes.len() && is_ascii_whitespace_byte(bytes[start])
        invariant
            from <= start <= bytes@.len(),
            trim_start(bytes@.skip(from as int)) == trim_start(bytes@.skip(start as int)),
        decreases bytes@.len() - start,
    {
        proof {
            assert(bytes@.skip(start as int).drop_first() =~= bytes@.skip(start as int + 1));
        }
        start = start + 1;
    }
    let ghost tail = bytes@.skip(start as int);
    assert(trim_start(tail) == tail);
    let mut end: usize = bytes.len();
    while end > start && is_ascii_whitespace_byte(bytes[end - 1])
        invariant
            start <= end <= bytes@.len(),
            trim_end(tail) == trim_end(bytes@.subrange(start as int, end as int)),
        decreases end,
    {
        proof {
            assert(bytes@.subrange(start as int, end as int).drop_last() =~= bytes@.subrange(
                start as int,
                end as int - 1,
            ));
        }
        end = end - 1;
    }
    proof {
        assert(bytes@.skip(start as int) =~= tail);
        assert(bytes@.subrange(start as int, bytes@.len() as int) =~= tail);
    }
    let mut r: Vec<u8> = Vec::new();
    let mut i: usize = start;
    while i < end
        invariant
            start <= i <= end <= bytes@.len(),
            r@ =~= bytes@.subrange(start as int, i as int),
        decreases end - i,
    {
        r.push(bytes[i]);
        i = i + 1;
    }
    r
}

/// The argument of a command whose verb is `verb_len` bytes long.
fn parse_argument(line: &[u8], verb_len: usize) -> (r: String)
    requires
        verb_len <= line@.len(),
    ensures
        r@ == argument(line@, verb_len as int),
{
    let trimmed = trim_ascii_whitespace(line, verb_len);
    decode_lossy(trimmed.as_slice())
}

impl Command {
    /// Classifies one protocol line (without its CRLF).
    pub fn from_bytes(bytes: &[u8]) -> (r: Command)
        ensures
            r@ == command_of(bytes@),
    {
        let helo: [u8; 5] = [72, 69, 76, 79, 32];
        let mail: [u8; 10] = [77, 65, 73, 76, 32, 70, 82, 79, 77, 58];
        let rcpt: [u8; 8] = [82, 67, 80, 84, 32, 84, 79, 58];
        let data: [u8; 4] = [68, 65, 84, 65];
        let quit: [u8; 4] = [81, 85, 73, 84];
        assert(helo@ =~= helo_verb());
        assert(mail@ =~= mail_verb());
        assert(rcpt@ =~= rcpt_verb());
        assert(data@ =~= data_verb());
        assert(quit@ =~= quit_verb());
        if has_prefix(bytes, helo.as_slice()) {
            Command::Helo(parse_argument(bytes, 5))
        } else if has_prefix(bytes, mail.as_slice()) {
            Command::MailFrom(parse_argument(bytes, 10))
        } else if has_prefix(bytes, rcpt.as_slice()) {
            Command::RcptTo(parse_argument(bytes, 8))
        } else if has_prefix(bytes, data.as_slice()) && rest_is_whitespace(bytes, 4) {
            Command::Data
        } else if has_prefix(bytes, quit.as_slice()) && rest_is_whitespace(bytes, 4) {
            Command::Quit
        } else {
            Command::Unknown
        }
    }
}

} // verus!
