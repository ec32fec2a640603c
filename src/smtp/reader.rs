use vstd::prelude::*;
use vstd::slice::slice_subrange;

use super::state::{process_spec, SmtpState};
use super::status::Code;
use crate::message::{empty_message, Message, MessageView};

verus! {

/// Whether a CRLF starts at index `i` of `buf`.
pub open spec fn crlf_at(buf: Seq<u8>, i: int) -> bool {
    0 <= i && i + 1 < buf.len() && buf[i] == 13 && buf[i + 1] == 10
}

/// The index of the first CRLF of `buf` at or after `i`.
pub open spec fn crlf_index(buf: Seq<u8>, i: int) -> Option<int>
    decreases buf.len() - i,
{
    if i < 0 || i + 1 >= buf.len() {
        None
    } else if buf[i] == 13 && buf[i + 1] == 10 {
        Some(i)
    } else {
        crlf_index(buf, i + 1)
    }
}

/// The complete lines of `buf`: it is cut at every CRLF, which is dropped.
pub open spec fn frame_lines(buf: Seq<u8>) -> Seq<Seq<u8>>
    decreases buf.len(),
{
    match crlf_index(buf, 0) {
        Some(i) => if 0 <= i && i + 2 <= buf.len() {
            seq![buf.take(i)] + frame_lines(buf.skip(i + 2))
        } else {
            Seq::empty()
        },
        None => Seq::empty(),
    }
}

/// What follows the last CRLF of `buf`: a line still incomplete.
pub open spec fn frame_rest(buf: Seq<u8>) -> Seq<u8>
    decreases buf.len(),
{
    match crlf_index(buf, 0) {
        Some(i) => if 0 <= i && i + 2 <= buf.len() {
            frame_rest(buf.skip(i + 2))
        } else {
            buf
        },
        None => buf,
    }
}

/// The driver of one connection, as far as lines are concerned: the
/// protocol state, the envelope being filled, whether the connection is
/// still open, and what it has written and delivered so far.
pub struct Drive {
    pub state: SmtpState,
    pub message: MessageView,
    pub open: bool,
    pub replies: Seq<Code>,
    pub delivered: Seq<MessageView>,
}

/// One line through the driver: the reply is written; a completed envelope
/// is delivered and the machine starts over in Init with an empty envelope;
/// no next state closes the connection; a closed connection reads nothing.
pub open spec fn drive_line(d: Drive, line: Seq<u8>) -> Drive {
    if !d.open {
        d
    } else {
        let st = process_spec(d.state, line, d.message);
        let replies = match st.reply {
            Some(c) => d.replies.push(c),
            None => d.replies,
        };
        match st.next {
            None => Drive { open: false, message: st.message, replies, ..d },
            Some(SmtpState::Done) => Drive {
                state: SmtpState::Init,
                message: empty_message(),
                replies,
                delivered: d.delivered.push(st.message),
                ..d
            },
            Some(s) => Drive { state: s, message: st.message, replies, ..d },
        }
    }
}

/// Lines through the driver, in order.
pub open spec fn drive_lines(d: Drive, lines: Seq<Seq<u8>>) -> Drive
    decreases lines.len(),
{
    if lines.len() == 0 {
        d
    } else {
        drive_line(drive_lines(d, lines.drop_last()), lines.last())
    }
}

pub open spec fn messages_view(v: Seq<Message>) -> Seq<MessageView> {
    v.map_values(|m: Message| m@)
}

/// The mathematical value of a reader.
pub struct ReaderView {
    pub buffer: Seq<u8>,
    pub state: SmtpState,
    pub message: MessageView,
    pub open: bool,
}

/// A driver that has written and delivered nothing yet, from reader `r`.
pub open spec fn start_drive(r: ReaderView) -> Drive {
    Drive { state: r.state, message: r.message, open: r.open, replies: Seq::empty(), delivered: Seq::empty() }
}

/// The driver after the complete lines of `bytes`, appended to what reader
/// `r` had buffered, went through it.
pub open spec fn read_drive(r: ReaderView, bytes: Seq<u8>) -> Drive {
    drive_lines(start_drive(r), frame_lines(r.buffer + bytes))
}

/// The reader after one read of `bytes`.
pub open spec fn after_read(r: ReaderView, bytes: Seq<u8>) -> ReaderView {
    let d = read_drive(r, bytes);
    ReaderView { buffer: frame_rest(r.buffer + bytes), state: d.state, message: d.message, open: d.open }
}

/// What one read yields: the replies to write, in order, and the envelopes
/// completed, in order.
#[derive(Debug)]
pub struct ReadOutcome {
    pub replies: Vec<Code>,
    pub messages: Vec<Message>,
}

/// The reply written when a connection is accepted, before any byte is read.
pub fn greeting() -> (r: Code)
    ensures
        r == Code::ServiceReady,
{
    Code::ServiceReady
}

/// One connection's engine: bytes in, replies and completed envelopes out.
/// It buffers an incomplete line until its CRLF arrives.
pub struct SmtpMessageReader {
    buffer: Vec<u8>,
    state: SmtpState,
    message: Message,
    open: bool,
}

impl View for SmtpMessageReader {
    type V = ReaderView;

    closed spec fn view(&self) -> ReaderView {
        ReaderView { buffer: self.buffer@, state: self.state, message: self.message@, open: self.open }
    }
}

impl SmtpMessageReader {
    /// The engine of a new connection: Init, an empty envelope, nothing
    /// buffered, open.
    pub fn new() -> (r: SmtpMessageReader)
        ensures
            r@ == (ReaderView { buffer: Seq::empty(), state: SmtpState::Init, message: empty_message(), open: true }),
    {
        SmtpMessageReader { buffer: Vec::new(), state: SmtpState::Init, message: Message::new(), open: true }
    }

    /// The current protocol state.
    pub fn state(&self) -> (r: SmtpState)
        ensures
            r == self@.state,
    {
        self.state
    }

    /// Whether the connection is still open (no QUIT or closing reply yet).
    pub fn is_open(&self) -> (r: bool)
        ensures
            r == self@.open,
    {
        self.open
    }

    /// The envelope being filled.
    pub fn message(&self) -> (r: &Message)
        ensures
            r@ == self@.message,
    {
        &self.message
    }

    /// The bytes of the incomplete line read so far.
    pub fn pending(&self) -> (r: &[u8])
        ensures
            r@ == self@.buffer,
    {
        self.buffer.as_slice()
    }

    /// Takes the bytes of one read: every complete line of what is buffered
    /// goes through the state machine in order; what follows the last CRLF
    /// stays buffered. Once the connection is closed no line has effect.
    pub fn read(&mut self, bytes: &[u8]) -> (out: ReadOutcome)
        ensures
            final(self)@ == after_read(old(self)@, bytes@),
            out.replies@ == read_drive(old(self)@, bytes@).replies,
            messages_view(out.messages@) == read_drive(old(self)@, bytes@).delivered,
    {
        let ghost start = start_drive(self@);
        let mut buf: Vec<u8> = Vec::new();
        std::mem::swap(&mut buf, &mut self.buffer);
        let mut k: usize = 0;
        while k < bytes.len()
            invariant
                k <= bytes@.len(),
                buf@ =~= old(self)@.buffer + bytes@.take(k as int),
            decreases bytes@.len() - k,
        {
            buf.push(bytes[k]);
            k = k + 1;
        }
        proof {
            assert(bytes@.take(k as int) =~= bytes@);
        }
        let ghost all = buf@;
        let mut replies: Vec<Code> = Vec::new();
        let mut messages: Vec<Message> = Vec::new();
        let ghost mut done: Seq<Seq<u8>> = Seq::empty();
        let mut line_start: usize = 0;
        let mut j: usize = 0;
        proof {
            assert(all.skip(0) =~= all);
            assert(done + frame_lines(all) =~= frame_lines(all));
        }
        while buf.len() - j > 1
            invariant
                buf@ == all,
                line_start <= j <= all.len(),
                frame_lines(all) == done + frame_lines(all.skip(line_start as int)),
                frame_rest(all) == frame_rest(all.skip(line_start as int)),
                crlf_index(all.skip(line_start as int), 0) == crlf_index(
                    all.skip(line_start as int),
                    j - line_start,
                ),
                ({
                    let d = drive_lines(start, done);
                    &&& self.state == d.state
                    &&& self.message@ == d.message
                    &&& self.open == d.open
                    &&& replies@ == d.replies
                    &&& messages_view(messages@) == d.delivered
                }),
            decreases all.len() - j,
        {
            let ghost tail = all.skip(line_start as int);
            let ghost jj = j - line_start;
            if buf[j] == 13 && buf[j + 1] == 10 {
                assert(tail[jj] == 13 && tail[jj + 1] == 10);
                let line = slice_subrange(buf.as_slice(), line_start, j);
                proof {
                    assert(tail.take(jj) =~= line@);
                    assert(tail.skip(jj + 2) =~= all.skip(j + 2));
                    assert(frame_lines(tail) == seq![line@] + frame_lines(all.skip(j + 2)));
                    assert(done.push(line@).drop_last() =~= done);
                    assert(done + (seq![line@] + frame_lines(all.skip(j + 2))) =~= done.push(line@)
                        + frame_lines(all.skip(j + 2)));
                }
                if self.open {
                    let (reply, next) = self.state.process(line, &mut self.message);
                    match reply {
                        Some(c) => replies.push(c),
                        None => {},
                    }
                    match next {
                        None => {
                            self.open = false;
                        },
                        Some(SmtpState::Done) => {
                            let mut completed = Message::new();
                            std::mem::swap(&mut completed, &mut self.message);
                            let ghost before = messages@;
                            messages.push(completed);
                            proof {
                                assert(messages_view(messages@) =~= messages_view(before).push(completed@));
                            }
                            self.state = SmtpState::Init;
                        },
                        Some(s) => {
                            self.state = s;
                        },
                    }
                }
                proof {
                    done = done.push(line@);
                }
                j = j + 2;
                line_start = j;
                proof {
                    let t2 = all.skip(line_start as int);
                    assert(crlf_index(t2, 0) == crlf_index(t2, j - line_start));
                }
            } else {
                assert(!(tail[jj] == 13 && tail[jj + 1] == 10));
                j = j + 1;
            }
        }
        proof {
            let tail = all.skip(line_start as int);
            assert(crlf_index(tail, j - line_start) == None::<int>);
            assert(frame_lines(tail) == Seq::<Seq<u8>>::empty());
            assert(done + frame_lines(tail) =~= done);
        }
        let rest = slice_subrange(buf.as_slice(), line_start, buf.len());
        let mut remaining: Vec<u8> = Vec::new();
        let mut i: usize = 0;
        while i < rest.len()
            invariant
                i <= rest@.len(),
                remaining@ =~= rest@.take(i as int),
            decreases rest@.len() - i,
        {
            remaining.push(rest[i]);
            i = i + 1;
        }
        proof {
            assert(rest@.take(i as int) =~= rest@);
            assert(rest@ =~= all.skip(line_start as int));
        }
        self.buffer = remaining;
        ReadOutcome { replies, messages }
    }
}

} // verus!
