use vstd::prelude::*;

use super::command::{command_of, CommandView, starts_with, quit_verb};
use super::reader::{
    after_read, crlf_at, crlf_index, drive_line, drive_lines, frame_lines, frame_rest, read_drive,
    start_drive, Drive, ReaderView,
};
use super::state::{process_spec, SmtpState};
use super::status::Code;

verus! {

/// `d` with nothing written and nothing delivered yet.
pub open spec fn reset_outputs(d: Drive) -> Drive {
    Drive { replies: Seq::empty(), delivered: Seq::empty(), ..d }
}

/// A first CRLF found in `a` is also the first one of `a + c`.
proof fn lemma_crlf_index_append(a: Seq<u8>, c: Seq<u8>, i: int)
    requires
        crlf_index(a, i) is Some,
    ensures
        crlf_index(a + c, i) == crlf_index(a, i),
        i <= crlf_index(a, i)->0,
        crlf_index(a, i)->0 + 1 < a.len(),
    decreases a.len() - i,
{
    if i < 0 || i + 1 >= a.len() {
    } else if a[i] == 13 && a[i + 1] == 10 {
        assert((a + c)[i] == 13 && (a + c)[i + 1] == 10);
    } else {
        assert(!((a + c)[i] == 13 && (a + c)[i + 1] == 10));
        lemma_crlf_index_append(a, c, i + 1);
    }
}

/// Framing `a + c` frames `a`, then frames what `a` left over followed by `c`.
pub proof fn lemma_frame_append(a: Seq<u8>, c: Seq<u8>)
    ensures
        frame_lines(a + c) == frame_lines(a) + frame_lines(frame_rest(a) + c),
        frame_rest(a + c) == frame_rest(frame_rest(a) + c),
    decreases a.len(),
{
    match crlf_index(a, 0) {
        Some(i) => {
            lemma_crlf_index_append(a, c, 0);
            assert((a + c).take(i) =~= a.take(i));
            assert((a + c).skip(i + 2) =~= a.skip(i + 2) + c);
            lemma_frame_append(a.skip(i + 2), c);
            assert(frame_lines(a + c) =~= seq![a.take(i)] + frame_lines(a.skip(i + 2) + c));
            assert(frame_lines(a + c) =~= frame_lines(a) + frame_lines(frame_rest(a) + c));
        },
        None => {
            assert(frame_lines(a) =~= Seq::<Seq<u8>>::empty());
            assert(frame_lines(a) + frame_lines(frame_rest(a) + c) =~= frame_lines(a + c));
        },
    }
}

/// Driving `a + b` drives `a`, then `b` from where `a` left off.
pub proof fn lemma_drive_append(d: Drive, a: Seq<Seq<u8>>, b: Seq<Seq<u8>>)
    ensures
        drive_lines(d, a + b) == drive_lines(drive_lines(d, a), b),
    decreases b.len(),
{
    if b.len() == 0 {
        assert(a + b =~= a);
    } else {
        assert((a + b).drop_last() =~= a + b.drop_last());
        assert((a + b).last() == b.last());
        lemma_drive_append(d, a, b.drop_last());
    }
}

/// What was written and delivered before does not change what the next lines
/// do: their replies and envelopes are appended to it.
pub proof fn lemma_drive_outputs_appended(d: Drive, lines: Seq<Seq<u8>>)
    ensures
        ({
            let e = drive_lines(reset_outputs(d), lines);
            drive_lines(d, lines) == (Drive {
                replies: d.replies + e.replies,
                delivered: d.delivered + e.delivered,
                ..e
            })
        }),
    decreases lines.len(),
{
    let e = drive_lines(reset_outputs(d), lines);
    if lines.len() == 0 {
        assert(d.replies + e.replies =~= d.replies);
        assert(d.delivered + e.delivered =~= d.delivered);
    } else {
        let l = lines.last();
        lemma_drive_outputs_appended(d, lines.drop_last());
        let p = drive_lines(d, lines.drop_last());
        let q = drive_lines(reset_outputs(d), lines.drop_last());
        let st = process_spec(q.state, l, q.message);
        match st.reply {
            Some(c) => {
                assert(p.replies.push(c) =~= d.replies + q.replies.push(c));
            },
            None => {},
        }
        assert(p.delivered.push(st.message) =~= d.delivered + q.delivered.push(st.message));
        assert(drive_lines(d, lines).replies =~= d.replies + e.replies);
        assert(drive_lines(d, lines).delivered =~= d.delivered + e.delivered);
    }
}

/// Whether a line produces a reply in driver state `d`: every line of an
/// open connection does, except a line of message text.
pub open spec fn produces_reply(d: Drive, line: Seq<u8>) -> bool {
    d.open && !(d.state == SmtpState::Data && line != super::state::dot_line())
}

/// The number of lines that produce a reply when `lines` go through `d`.
pub open spec fn replying_lines(d: Drive, lines: Seq<Seq<u8>>) -> nat
    decreases lines.len(),
{
    if lines.len() == 0 {
        0
    } else {
        replying_lines(d, lines.drop_last()) + if produces_reply(
            drive_lines(d, lines.drop_last()),
            lines.last(),
        ) {
            1nat
        } else {
            0nat
        }
    }
}

/// The replies a single line adds in driver state `d`.
pub open spec fn line_replies(d: Drive, line: Seq<u8>) -> Seq<Code> {
    if produces_reply(d, line) {
        seq![process_spec(d.state, line, d.message).reply->0]
    } else {
        Seq::empty()
    }
}

proof fn lemma_line_replies(d: Drive, line: Seq<u8>)
    ensures
        drive_line(d, line).replies == d.replies + line_replies(d, line),
{
    if d.open {
        let st = process_spec(d.state, line, d.message);
        if produces_reply(d, line) {
            assert(st.reply is Some);
        } else {
            assert(st.reply is None);
        }
    }
    assert(drive_line(d, line).replies =~= d.replies + line_replies(d, line));
}

/// For any sequence of lines, the replies written are one per line that
/// produces a reply: none for message text, one for every other line that
/// an open connection reads.
pub proof fn lemma_reply_count(d: Drive, lines: Seq<Seq<u8>>)
    ensures
        drive_lines(d, lines).replies.len() == d.replies.len() + replying_lines(d, lines),
    decreases lines.len(),
{
    if lines.len() > 0 {
        lemma_reply_count(d, lines.drop_last());
        lemma_line_replies(drive_lines(d, lines.drop_last()), lines.last());
    }
}

/// Replies come in the order of the lines that produce them: a further line
/// only appends its own reply, and the replies to a first run of lines are
/// followed by those to the next run.
pub proof fn lemma_reply_order(d: Drive, a: Seq<Seq<u8>>, b: Seq<Seq<u8>>, l: Seq<u8>)
    ensures
        drive_lines(d, a.push(l)).replies == drive_lines(d, a).replies + line_replies(
            drive_lines(d, a),
            l,
        ),
        drive_lines(d, a + b).replies == drive_lines(d, a).replies + drive_lines(
            reset_outputs(drive_lines(d, a)),
            b,
        ).replies,
{
    assert(a.push(l).drop_last() =~= a);
    lemma_line_replies(drive_lines(d, a), l);
    lemma_drive_append(d, a, b);
    lemma_drive_outputs_appended(drive_lines(d, a), b);
}

/// Driving keeps the connection out of the Done state: a completed envelope
/// is delivered at once and the machine starts over.
pub proof fn lemma_never_done(d: Drive, lines: Seq<Seq<u8>>)
    requires
        d.state != SmtpState::Done,
    ensures
        drive_lines(d, lines).state != SmtpState::Done,
    decreases lines.len(),
{
    if lines.len() > 0 {
        lemma_never_done(d, lines.drop_last());
    }
}

/// The end of the message text (a line holding `.`) delivers the envelope,
/// answers MessageSent, and leaves the machine in Init with an empty
/// envelope before the next line.
pub proof fn lemma_message_completion(d: Drive)
    requires
        d.open,
        d.state == SmtpState::Data,
    ensures
        ({
            let n = drive_line(d, super::state::dot_line());
            &&& n.state == SmtpState::Init
            &&& n.message == crate::message::empty_message()
            &&& n.open
            &&& n.delivered == d.delivered.push(d.message)
            &&& n.replies == d.replies.push(Code::MessageSent)
        }),
{
}

/// A closed connection reads nothing more.
pub proof fn lemma_closed_is_final(d: Drive, lines: Seq<Seq<u8>>)
    requires
        !d.open,
    ensures
        drive_lines(d, lines) == d,
    decreases lines.len(),
{
    if lines.len() > 0 {
        lemma_closed_is_final(d, lines.drop_last());
    }
}

/// QUIT in any state but Data closes the connection with exactly one
/// Goodbye, and nothing after it is answered or delivered.
pub proof fn lemma_quit_closes(d: Drive, quit: Seq<u8>, more: Seq<Seq<u8>>)
    requires
        d.open,
        d.state != SmtpState::Data,
        starts_with(quit, quit_verb()),
    ensures
        ({
            let n = drive_lines(d, seq![quit] + more);
            &&& !n.open
            &&& n.replies == d.replies.push(Code::Goodbye)
            &&& n.delivered == d.delivered
        }),
{
    lemma_drive_append(d, seq![quit], more);
    assert(seq![quit].drop_last() =~= Seq::<Seq<u8>>::empty());
    assert(drive_lines(d, Seq::<Seq<u8>>::empty()) == d);
    assert(drive_lines(d, seq![quit]) == drive_line(d, quit));
    lemma_closed_is_final(drive_lines(d, seq![quit]), more);
}

/// An empty line outside Data is an unknown command: BadSequence, and the
/// state does not advance.
pub proof fn lemma_empty_line(s: SmtpState, m: crate::message::MessageView)
    requires
        s != SmtpState::Data,
    ensures
        command_of(Seq::empty()) == CommandView::Unknown,
        process_spec(s, Seq::empty(), m).reply == Some(Code::BadSequence),
        process_spec(s, Seq::empty(), m).message == m,
        s != SmtpState::Done ==> process_spec(s, Seq::empty(), m).next == Some(s),
{
}

/// DATA is accepted after MAIL even when no RCPT was given.
pub proof fn lemma_data_without_recipients(line: Seq<u8>, m: crate::message::MessageView)
    requires
        line == super::command::data_verb(),
        m.to.len() == 0,
    ensures
        process_spec(SmtpState::Rcpt, line, m).reply == Some(Code::EnterMessage),
        process_spec(SmtpState::Rcpt, line, m).next == Some(SmtpState::Data),
        process_spec(SmtpState::Rcpt, line, m).message == m,
{
    assert(line.skip(4) =~= Seq::<u8>::empty());
    assert(!starts_with(line, quit_verb())) by {
        assert(line[0] != quit_verb()[0]);
    }
    assert(!starts_with(line, super::command::rcpt_verb())) by {
        assert(line.len() < 8);
    }
}

/// Two reads give what one read of the same bytes gives: the same replies in
/// the same order, the same envelopes, and the same reader afterwards.
pub proof fn lemma_fragmentation(r: ReaderView, x1: Seq<u8>, x2: Seq<u8>)
    ensures
        ({
            let r1 = after_read(r, x1);
            let whole = read_drive(r, x1 + x2);
            &&& after_read(r1, x2) == after_read(r, x1 + x2)
            &&& whole.replies == read_drive(r, x1).replies + read_drive(r1, x2).replies
            &&& whole.delivered == read_drive(r, x1).delivered + read_drive(r1, x2).delivered
        }),
{
    let a = r.buffer + x1;
    let r1 = after_read(r, x1);
    assert(r.buffer + (x1 + x2) =~= a + x2);
    lemma_frame_append(a, x2);
    lemma_drive_append(start_drive(r), frame_lines(a), frame_lines(frame_rest(a) + x2));
    let d1 = drive_lines(start_drive(r), frame_lines(a));
    lemma_drive_outputs_appended(d1, frame_lines(frame_rest(a) + x2));
    assert(reset_outputs(d1) == start_drive(r1));
}

/// No CRLF inside `l`.
pub open spec fn has_no_crlf(l: Seq<u8>) -> bool {
    forall|k: int| !#[trigger] crlf_at(l, k)
}

/// Lines joined for the wire: each one followed by CRLF.
pub open spec fn join_lines(lines: Seq<Seq<u8>>) -> Seq<u8>
    decreases lines.len(),
{
    if lines.len() == 0 {
        Seq::empty()
    } else {
        join_lines(lines.drop_last()) + lines.last() + super::state::crlf()
    }
}

proof fn lemma_crlf_index_terminated(l: Seq<u8>, i: int)
    requires
        has_no_crlf(l),
        0 <= i <= l.len(),
    ensures
        crlf_index(l + super::state::crlf(), i) == Some(l.len() as int),
    decreases l.len() - i,
{
    let t = l + super::state::crlf();
    if i < l.len() {
        assert(!crlf_at(l, i));
        if i + 1 < l.len() {
            assert(t[i] == l[i] && t[i + 1] == l[i + 1]);
        } else {
            assert(t[i + 1] == 13);
        }
        lemma_crlf_index_terminated(l, i + 1);
    } else {
        assert(t[i] == 13 && t[i + 1] == 10);
    }
}

/// Lines without CRLF, each sent with its CRLF, are framed back into exactly
/// those lines, with nothing left over.
pub proof fn lemma_frame_join(lines: Seq<Seq<u8>>)
    requires
        forall|i: int| 0 <= i < lines.len() ==> has_no_crlf(#[trigger] lines[i]),
    ensures
        frame_lines(join_lines(lines)) == lines,
        frame_rest(join_lines(lines)) == Seq::<u8>::empty(),
    decreases lines.len(),
{
    if lines.len() == 0 {
        let e = Seq::<u8>::empty();
        assert(crlf_index(e, 0) is None);
        assert(join_lines(lines) == e);
        assert(frame_rest(e) == e);
        assert(frame_lines(join_lines(lines)) =~= lines);
    } else {
        let init = lines.drop_last();
        let l = lines.last();
        assert(has_no_crlf(lines[lines.len() - 1]));
        lemma_frame_join(init);
        let t = l + super::state::crlf();
        assert(join_lines(lines) =~= join_lines(init) + t);
        lemma_frame_append(join_lines(init), t);
        assert(Seq::<u8>::empty() + t =~= t);
        lemma_crlf_index_terminated(l, 0);
        assert(t.take(l.len() as int) =~= l);
        assert(t.skip(l.len() as int + 2) =~= Seq::<u8>::empty());
        let e = Seq::<u8>::empty();
        assert(crlf_index(e, 0) is None);
        assert(frame_lines(e) =~= Seq::<Seq<u8>>::empty());
        assert(frame_rest(e) == e);
        assert(frame_lines(t) =~= seq![l]);
        assert(frame_rest(t) == e);
        assert(init + seq![l] =~= lines);
    }
}

/// A body line as a client sends it: a leading `.` is doubled.
pub open spec fn stuff(l: Seq<u8>) -> Seq<u8> {
    if l.len() > 0 && l[0] == 46 {
        seq![46u8] + l
    } else {
        l
    }
}

pub open spec fn stuff_lines(body: Seq<Seq<u8>>) -> Seq<Seq<u8>> {
    body.map_values(|l: Seq<u8>| stuff(l))
}

proof fn lemma_stuffed_body(d: Drive, body: Seq<Seq<u8>>)
    requires
        d.open,
        d.state == SmtpState::Data,
    ensures
        drive_lines(d, stuff_lines(body)) == (Drive {
            message: crate::message::MessageView { data: d.message.data + join_lines(body), ..d.message },
            ..d
        }),
    decreases body.len(),
{
    if body.len() == 0 {
        assert(stuff_lines(body) =~= Seq::<Seq<u8>>::empty());
        assert(d.message.data + join_lines(body) =~= d.message.data);
    } else {
        let l = body.last();
        assert(stuff_lines(body).drop_last() =~= stuff_lines(body.drop_last()));
        assert(stuff_lines(body).last() == stuff(l));
        lemma_stuffed_body(d, body.drop_last());
        let s = stuff(l);
        assert(super::state::unstuff(s) =~= l);
        assert(s != super::state::dot_line()) by {
            if l.len() > 0 && l[0] == 46 {
                assert(s.len() >= 2);
            } else if s.len() == 1 {
                assert(s[0] == l[0]);
            }
        }
        assert(d.message.data + join_lines(body.drop_last()) + super::state::unstuff(s) + super::state::crlf()
            =~= d.message.data + join_lines(body));
    }
}

/// Dot-stuffing undone: a body sent stuffed, line by line, and ended with
/// `.` delivers exactly that body, each line CRLF-terminated (this holds for
/// every body, a line holding `.` included, since stuffing doubles it).
pub proof fn lemma_dot_unstuffing(d: Drive, body: Seq<Seq<u8>>)
    requires
        d.open,
        d.state == SmtpState::Data,
    ensures
        ({
            let n = drive_lines(d, stuff_lines(body).push(super::state::dot_line()));
            &&& n.delivered == d.delivered.push(
                crate::message::MessageView { data: d.message.data + join_lines(body), ..d.message },
            )
            &&& n.replies == d.replies.push(Code::MessageSent)
            &&& n.state == SmtpState::Init
            &&& n.message == crate::message::empty_message()
        }),
{
    lemma_stuffed_body(d, body);
    assert(stuff_lines(body).push(super::state::dot_line()).drop_last() =~= stuff_lines(body));
}

/// A whole transaction sent in one read, line after line, is answered as if
/// the lines had come one by one: the replies are theirs, in order, and
/// nothing is left buffered.
pub proof fn lemma_pipelined(r: ReaderView, lines: Seq<Seq<u8>>)
    requires
        r.buffer.len() == 0,
        forall|i: int| 0 <= i < lines.len() ==> has_no_crlf(#[trigger] lines[i]),
    ensures
        read_drive(r, join_lines(lines)) == drive_lines(start_drive(r), lines),
        after_read(r, join_lines(lines)).buffer.len() == 0,
{
    lemma_frame_join(lines);
    assert(r.buffer + join_lines(lines) =~= join_lines(lines));
}

} // verus!
