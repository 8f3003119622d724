//! What a session's bridge tasks decide, and what its SSE stream carries.
//!
//! A session runs three tasks around the MCP child process: a writer that
//! forwards posted messages to the child's stdin, a reader that broadcasts
//! the child's stdout lines, and the SSE stream that hands them to the client.
//! The waiting and the I/O happen outside; here each task's reaction to what
//! it was woken by is decided.
use vstd::prelude::*;
use crate::text::{append_str, chars_of, lemma_split_append_plain, push_char, split_char, string_of};
use crate::request::{
    endpoint_query, header_lookup, header_text, header_value_text, lemma_header_lookup_first,
    lemma_header_lookup_none, HeaderList,
};
use crate::ids::session_id_text;

verus! {

/// Capacity of the queue of messages waiting for the child's stdin.
pub const STDIN_QUEUE_CAPACITY: usize = 64;

/// Capacity of the broadcast of the child's stdout lines.
pub const BROADCAST_CAPACITY: usize = 256;

/// Seconds between keep-alive comments on an idle SSE stream.
pub const KEEP_ALIVE_SECONDS: u64 = 15;

/// What the writer task was woken by.
pub enum WriterEvent {
    /// The session was cancelled.
    Cancelled,
    /// A message arrived for the child's stdin.
    Message(String),
    /// The message queue was closed.
    QueueClosed,
    /// Writing to the child's stdin failed.
    WriteFailed,
    /// Flushing the child's stdin failed.
    FlushFailed,
}

/// What the writer task does next.
pub enum WriterAction {
    /// Write this text to the child's stdin and flush it.
    Write(String),
    /// Keep the child's stdin open and wait for the session to be cancelled:
    /// closing it would make the MCP server exit.
    HoldUntilCancelled,
    /// Stop, releasing the child's stdin.
    Stop,
}

/// What the reader task was woken by.
pub enum ReaderEvent {
    /// The session was cancelled.
    Cancelled,
    /// A line came from the child's stdout.
    Line(String),
    /// The child's stdout ended: the child exited.
    EndOfOutput,
    /// Reading from the child's stdout failed.
    ReadFailed,
}

/// What the reader task does next.
pub enum ReaderAction {
    /// Broadcast this line to the SSE subscribers.
    Broadcast(String),
    /// Nothing to send; read on.
    Skip,
    /// Cancel the session, so that it is removed at once, and stop.
    CancelSession,
    /// Stop.
    Stop,
}

/// What the broadcast gave the SSE stream.
pub enum Received {
    /// A line of the child's output.
    Line(String),
    /// The subscriber fell behind and this many lines were lost.
    Lagged(u64),
}

/// An item of an SSE stream.
pub enum SseOut {
    /// An event with its name and data.
    Event { name: String, data: String },
    /// A comment line.
    Comment(String),
}

/// A writer event, its message as characters.
pub enum WriterEventView {
    Cancelled,
    Message(Seq<char>),
    QueueClosed,
    WriteFailed,
    FlushFailed,
}

/// A writer action, its text as characters.
pub enum WriterActionView {
    Write(Seq<char>),
    HoldUntilCancelled,
    Stop,
}

/// A reader event, its line as characters.
pub enum ReaderEventView {
    Cancelled,
    Line(Seq<char>),
    EndOfOutput,
    ReadFailed,
}

/// A reader action, its line as characters.
pub enum ReaderActionView {
    Broadcast(Seq<char>),
    Skip,
    CancelSession,
    Stop,
}

impl View for WriterEvent {
    type V = WriterEventView;

    open spec fn view(&self) -> WriterEventView {
        match self {
            WriterEvent::Cancelled => WriterEventView::Cancelled,
            WriterEvent::Message(m) => WriterEventView::Message(m@),
            WriterEvent::QueueClosed => WriterEventView::QueueClosed,
            WriterEvent::WriteFailed => WriterEventView::WriteFailed,
            WriterEvent::FlushFailed => WriterEventView::FlushFailed,
        }
    }
}

impl View for WriterAction {
    type V = WriterActionView;

    open spec fn view(&self) -> WriterActionView {
        match self {
            WriterAction::Write(t) => WriterActionView::Write(t@),
            WriterAction::HoldUntilCancelled => WriterActionView::HoldUntilCancelled,
            WriterAction::Stop => WriterActionView::Stop,
        }
    }
}

impl View for ReaderEvent {
    type V = ReaderEventView;

    open spec fn view(&self) -> ReaderEventView {
        match self {
            ReaderEvent::Cancelled => ReaderEventView::Cancelled,
            ReaderEvent::Line(l) => ReaderEventView::Line(l@),
            ReaderEvent::EndOfOutput => ReaderEventView::EndOfOutput,
            ReaderEvent::ReadFailed => ReaderEventView::ReadFailed,
        }
    }
}

impl View for ReaderAction {
    type V = ReaderActionView;

    open spec fn view(&self) -> ReaderActionView {
        match self {
            ReaderAction::Broadcast(l) => ReaderActionView::Broadcast(l@),
            ReaderAction::Skip => ReaderActionView::Skip,
            ReaderAction::CancelSession => ReaderActionView::CancelSession,
            ReaderAction::Stop => ReaderActionView::Stop,
        }
    }
}

/// The writer's reaction to one event (see `writer_reaction`).
pub open spec fn writer_step(e: WriterEventView) -> WriterActionView {
    match e {
        WriterEventView::Message(m) => WriterActionView::Write(framed(m)),
        WriterEventView::QueueClosed => WriterActionView::HoldUntilCancelled,
        _ => WriterActionView::Stop,
    }
}

/// The reader's reaction to one event (see `reader_reaction`).
pub open spec fn reader_step(e: ReaderEventView) -> ReaderActionView {
    match e {
        ReaderEventView::Line(l) => if l.len() > 0 {
            ReaderActionView::Broadcast(l)
        } else {
            ReaderActionView::Skip
        },
        ReaderEventView::EndOfOutput => ReaderActionView::CancelSession,
        _ => ReaderActionView::Stop,
    }
}

/// A line as it is written to the child's stdin: ending in a newline.
pub open spec fn framed(line: Seq<char>) -> Seq<char> {
    if line.len() > 0 && line.last() == '\n' {
        line
    } else {
        line.push('\n')
    }
}

pub open spec fn default_host() -> Seq<char> {
    seq!['1', '2', '7', '.', '0', '.', '0', '.', '1', ':', '3', '0', '0', '0']
}

/// The host the endpoint URL names: that of the request's `host` header when
/// it is visible ASCII, `127.0.0.1:3000` otherwise.
pub open spec fn endpoint_host(h: Seq<(Seq<char>, Seq<u8>)>) -> Seq<char> {
    match header_lookup(h, seq!['h', 'o', 's', 't']) {
        Some(b) => match header_text(b) {
            Some(t) => t,
            None => default_host(),
        },
        None => default_host(),
    }
}

/// `http://HOST/mcp?session_id=UUID`.
pub open spec fn endpoint_url_text(h: Seq<(Seq<char>, Seq<u8>)>, sid: u128) -> Seq<char> {
    seq!['h', 't', 't', 'p', ':', '/', '/'] + endpoint_host(h) + seq!['/', 'm', 'c', 'p', '?']
        + endpoint_query(sid)
}

/// `line` with a newline at its end, unless it has one already.
pub fn framed_line(line: String) -> (r: String)
    ensures
        r@ == framed(line@),
{
    let v = chars_of(line.as_str());
    if v.len() > 0 && v[v.len() - 1] == '\n' {
        line
    } else {
        let mut r = line;
        push_char(&mut r, '\n');
        r
    }
}

/// The writer's reaction: a message is written, newline-terminated; when the
/// queue closes the child's stdin is held open until the session is
/// cancelled; cancellation or a failed write or flush stops the writer.
pub fn writer_reaction(e: WriterEvent) -> (r: WriterAction)
    ensures
        r@ == writer_step(e@),
{
    match e {
        WriterEvent::Message(m) => WriterAction::Write(framed_line(m)),
        WriterEvent::QueueClosed => WriterAction::HoldUntilCancelled,
        _ => WriterAction::Stop,
    }
}

/// The reader's reaction: a non-empty line is broadcast, an empty one
/// skipped; the end of the child's output cancels the session; cancellation
/// or a failed read stops the reader.
pub fn reader_reaction(e: ReaderEvent) -> (r: ReaderAction)
    ensures
        r@ == reader_step(e@),
{
    match e {
        ReaderEvent::Line(l) => {
            let v = chars_of(l.as_str());
            if v.len() > 0 {
                ReaderAction::Broadcast(l)
            } else {
                ReaderAction::Skip
            }
        },
        ReaderEvent::EndOfOutput => ReaderAction::CancelSession,
        _ => ReaderAction::Stop,
    }
}

/// The URL a client posts its messages to: `http://HOST/mcp?session_id=UUID`,
/// with the host of the request's `host` header (when it is visible ASCII;
/// `127.0.0.1:3000` otherwise).
pub fn endpoint_url(headers: &HeaderList, sid: u128) -> (r: String)
    ensures
        r@ == endpoint_url_text(headers@, sid),
{
    proof {
        reveal_strlit("host");
        assert("host"@ =~= seq!['h', 'o', 's', 't']);
    }
    let host = match headers.get("host") {
        Some(b) => match header_value_text(&b) {
            Some(t) => t,
            None => string_of(&chars_of("127.0.0.1:3000")),
        },
        None => string_of(&chars_of("127.0.0.1:3000")),
    };
    let mut out = string_of(&chars_of("http://"));
    append_str(&mut out, host.as_str());
    append_str(&mut out, "/mcp?session_id=");
    let id = session_id_text(sid);
    append_str(&mut out, id.as_str());
    proof {
        reveal_strlit("127.0.0.1:3000");
        reveal_strlit("http://");
        reveal_strlit("/mcp?session_id=");
        assert("127.0.0.1:3000"@ =~= default_host());
        assert(host@ == endpoint_host(headers@));
        assert(out@ =~= endpoint_url_text(headers@, sid));
    }
    out
}

/// The first event of a session's stream: `endpoint`, with the URL to post
/// messages to.
pub fn endpoint_event(headers: &HeaderList, sid: u128) -> (r: SseOut)
    ensures
        r matches SseOut::Event { name, data } && name@ == seq!['e', 'n', 'd', 'p', 'o', 'i', 'n', 't']
            && data@ == endpoint_url_text(headers@, sid),
{
    let name = string_of(&chars_of("endpoint"));
    proof {
        reveal_strlit("endpoint");
    }
    SseOut::Event { name, data: endpoint_url(headers, sid) }
}

/// What the stream sends for what the broadcast gave: a `message` event with
/// the line; nothing when lines were lost to lag.
pub fn forwarded_event(item: Received) -> (r: Option<SseOut>)
    ensures
        match item {
            Received::Line(l) => r matches Some(SseOut::Event { name, data }) && name@ == seq![
                'm',
                'e',
                's',
                's',
                'a',
                'g',
                'e',
            ] && data@ == l@,
            Received::Lagged(_) => r is None,
        },
{
    match item {
        Received::Line(l) => {
            let name = string_of(&chars_of("message"));
            proof {
                reveal_strlit("message");
            }
            Some(SseOut::Event { name, data: l })
        },
        Received::Lagged(_) => None,
    }
}

/// The last item of a session's stream, sent once the session is removed: the
/// comment `bye`.
pub fn closing_comment() -> (r: SseOut)
    ensures
        r matches SseOut::Comment(c) && c@ == seq!['b', 'y', 'e'],
{
    let c = string_of(&chars_of("bye"));
    proof {
        reveal_strlit("bye");
    }
    SseOut::Comment(c)
}

/// The text of the keep-alive comments.
pub fn keep_alive_text() -> (r: String)
    ensures
        r@ == seq!['p', 'i', 'n', 'g'],
{
    let r = string_of(&chars_of("ping"));
    proof {
        reveal_strlit("ping");
    }
    r
}

/// Framing a framed line changes nothing, and a framed line ends in a
/// newline and starts with the line it frames.
pub proof fn lemma_framed_idempotent(line: Seq<char>)
    ensures
        framed(framed(line)) == framed(line),
        framed(line).len() > 0 && framed(line).last() == '\n',
        framed(line).take(line.len() as int) == line,
        framed(line).len() <= line.len() + 1,
        line.len() > 0 && line.last() == '\n' ==> framed(line) == line,
{
    assert(line.push('\n').take(line.len() as int) =~= line);
    assert(line.take(line.len() as int) =~= line);
}

} // verus!

verus! {

/// The messages, each framed, one after another: what the child's stdin
/// receives when they are written in order.
pub open spec fn framed_all(ms: Seq<Seq<char>>) -> Seq<char>
    decreases ms.len(),
{
    if ms.len() == 0 {
        Seq::<char>::empty()
    } else {
        framed_all(ms.drop_last()) + framed(ms.last())
    }
}

/// Messages without newlines, framed and written one after another, read
/// back line by line as the same messages, in order: none is lost, split,
/// joined or repeated.
pub proof fn lemma_framed_lines_read_back(ms: Seq<Seq<char>>)
    requires
        forall|i: int, j: int| 0 <= i < ms.len() && 0 <= j < ms[i].len() ==> #[trigger] ms[i][j] != '\n',
    ensures
        split_char(framed_all(ms), '\n') == ms.push(Seq::<char>::empty()),
    decreases ms.len(),
{
    if ms.len() == 0 {
        assert(split_char(Seq::<char>::empty(), '\n') =~= ms.push(Seq::<char>::empty()));
    } else {
        let init = ms.drop_last();
        let m = ms.last();
        assert forall|i: int, j: int| 0 <= i < init.len() && 0 <= j < init[i].len() implies #[trigger] init[i][j]
            != '\n' by {
            assert(init[i] == ms[i]);
        }
        lemma_framed_lines_read_back(init);
        let f = framed_all(init);
        assert forall|j: int| 0 <= j < m.len() implies m[j] != '\n' by {
            assert(ms[ms.len() - 1][j] == m[j]);
        }
        if m.len() > 0 {
            assert(m.last() == m[m.len() - 1]);
        }
        assert(framed(m) == m.push('\n'));
        lemma_split_append_plain(f, m, '\n');
        let p = init.push(Seq::<char>::empty());
        assert(p.update(p.len() - 1, p.last() + m) =~= init.push(m));
        assert(init.push(m) =~= ms);
        let s = f + m.push('\n');
        assert(s =~= (f + m).push('\n'));
        assert(s.drop_last() =~= f + m);
        assert(framed_all(ms) == f + framed(m));
    }
}

} // verus!

verus! {

/// What the writer has written to the child's stdin after reacting to
/// `events` in turn, and whether it still runs: each `Write` appends its
/// text; holding stdin open or stopping ends the writing for good.
pub open spec fn writer_run(events: Seq<WriterEventView>) -> (Seq<char>, bool)
    decreases events.len(),
{
    if events.len() == 0 {
        (Seq::<char>::empty(), true)
    } else {
        let (written, running) = writer_run(events.drop_last());
        if !running {
            (written, false)
        } else {
            match writer_step(events.last()) {
                WriterActionView::Write(t) => (written + t, true),
                _ => (written, false),
            }
        }
    }
}

/// The writer events for messages that arrive in this order.
pub open spec fn message_events(ms: Seq<Seq<char>>) -> Seq<WriterEventView> {
    ms.map_values(|m: Seq<char>| WriterEventView::Message(m))
}

/// Messages that arrive in order are written in that order, each framed
/// once: the child's stdin receives exactly `framed_all(ms)` and the writer
/// runs on. With `lemma_framed_lines_read_back`, messages without newlines
/// read back from stdin line by line as the same messages.
pub proof fn lemma_writer_writes_messages_in_order(ms: Seq<Seq<char>>)
    ensures
        writer_run(message_events(ms)) == (framed_all(ms), true),
    decreases ms.len(),
{
    if ms.len() > 0 {
        lemma_writer_writes_messages_in_order(ms.drop_last());
        assert(message_events(ms).drop_last() =~= message_events(ms.drop_last()));
        assert(message_events(ms).last() == WriterEventView::Message(ms.last()));
    } else {
        assert(message_events(ms) =~= Seq::<WriterEventView>::empty());
    }
}

/// Once the writer has held stdin open or stopped, nothing more is written,
/// whatever events follow.
pub proof fn lemma_writer_stops_for_good(
    before: Seq<WriterEventView>,
    after: Seq<WriterEventView>,
)
    requires
        !writer_run(before).1,
    ensures
        writer_run(before + after) == writer_run(before),
    decreases after.len(),
{
    if after.len() == 0 {
        assert(before + after =~= before);
    } else {
        lemma_writer_stops_for_good(before, after.drop_last());
        assert((before + after).drop_last() =~= before + after.drop_last());
    }
}

/// A line of output as the line reader gives it: a line that ended in
/// `\n` loses a trailing `\r`.
pub open spec fn strip_cr(l: Seq<char>) -> Seq<char> {
    if l.len() > 0 && l.last() == '\r' {
        l.drop_last()
    } else {
        l
    }
}

/// The lines that a line reader (tokio's `Lines::next_line`) gives for the
/// whole output `t`: the pieces between newlines, each without a trailing
/// `\r`, and the unterminated rest at the end when it is not empty.
pub open spec fn output_lines(t: Seq<char>) -> Seq<Seq<char>> {
    let p = split_char(t, '\n');
    let done = p.drop_last().map_values(|l: Seq<char>| strip_cr(l));
    if p.last().len() == 0 {
        done
    } else {
        done.push(p.last())
    }
}

/// The non-empty texts of `ls`, in order.
pub open spec fn non_empty(ls: Seq<Seq<char>>) -> Seq<Seq<char>>
    decreases ls.len(),
{
    if ls.len() == 0 {
        Seq::<Seq<char>>::empty()
    } else if ls.last().len() > 0 {
        non_empty(ls.drop_last()).push(ls.last())
    } else {
        non_empty(ls.drop_last())
    }
}

/// What the reader has broadcast after reacting to `events` in turn,
/// whether it still runs, and whether it cancelled the session.
pub open spec fn reader_run(events: Seq<ReaderEventView>) -> (Seq<Seq<char>>, bool, bool)
    decreases events.len(),
{
    if events.len() == 0 {
        (Seq::<Seq<char>>::empty(), true, false)
    } else {
        let (sent, running, cancelled) = reader_run(events.drop_last());
        if !running {
            (sent, false, cancelled)
        } else {
            match reader_step(events.last()) {
                ReaderActionView::Broadcast(l) => (sent.push(l), true, false),
                ReaderActionView::Skip => (sent, true, false),
                ReaderActionView::CancelSession => (sent, false, true),
                ReaderActionView::Stop => (sent, false, false),
            }
        }
    }
}

/// The reader events for lines read in this order.
pub open spec fn line_events(ls: Seq<Seq<char>>) -> Seq<ReaderEventView> {
    ls.map_values(|l: Seq<char>| ReaderEventView::Line(l))
}

/// Reading lines in order broadcasts their non-empty ones in that order and
/// keeps the reader running.
pub proof fn lemma_reader_broadcasts_non_empty_lines(ls: Seq<Seq<char>>)
    ensures
        reader_run(line_events(ls)) == (non_empty(ls), true, false),
    decreases ls.len(),
{
    if ls.len() > 0 {
        lemma_reader_broadcasts_non_empty_lines(ls.drop_last());
        assert(line_events(ls).drop_last() =~= line_events(ls.drop_last()));
        assert(line_events(ls).last() == ReaderEventView::Line(ls.last()));
    } else {
        assert(line_events(ls) =~= Seq::<ReaderEventView>::empty());
    }
}

/// For a child whose whole output is `t`, read line by line and then ended,
/// the reader broadcasts exactly the non-empty lines of `t`, in order, never
/// an empty one, and then cancels the session.
pub proof fn lemma_reader_whole_output(t: Seq<char>)
    ensures
        reader_run(line_events(output_lines(t)).push(ReaderEventView::EndOfOutput)) == (
            non_empty(output_lines(t)),
            false,
            true,
        ),
        forall|k: int|
            0 <= k < non_empty(output_lines(t)).len() ==> #[trigger] non_empty(
                output_lines(t),
            )[k].len() > 0,
{
    let ls = output_lines(t);
    lemma_reader_broadcasts_non_empty_lines(ls);
    let es = line_events(ls).push(ReaderEventView::EndOfOutput);
    assert(es.drop_last() =~= line_events(ls));
    lemma_non_empty_has_no_empty(ls);
}

/// `non_empty` keeps no empty text.
pub proof fn lemma_non_empty_has_no_empty(ls: Seq<Seq<char>>)
    ensures
        forall|k: int| 0 <= k < non_empty(ls).len() ==> #[trigger] non_empty(ls)[k].len() > 0,
    decreases ls.len(),
{
    if ls.len() > 0 {
        lemma_non_empty_has_no_empty(ls.drop_last());
        let r = non_empty(ls.drop_last());
        if ls.last().len() > 0 {
            assert forall|k: int| 0 <= k < non_empty(ls).len() implies #[trigger] non_empty(
                ls,
            )[k].len() > 0 by {
                if k < r.len() {
                    assert(non_empty(ls)[k] == r[k]);
                }
            }
        }
    }
}

} // verus!

verus! {

/// The endpoint URL names the host that the request's first `host` header
/// gives, its text exactly, whatever it holds (with or without a port),
/// when it is visible ASCII; `127.0.0.1:3000` when it is not.
pub proof fn lemma_endpoint_url_uses_host_header(h: Seq<(Seq<char>, Seq<u8>)>, sid: u128, i: int)
    requires
        0 <= i < h.len(),
        h[i].0 == seq!['h', 'o', 's', 't'],
        forall|k: int| 0 <= k < i ==> h[k].0 != seq!['h', 'o', 's', 't'],
    ensures
        (forall|j: int| 0 <= j < h[i].1.len() ==> (32 <= #[trigger] h[i].1[j] < 127 || h[i].1[j] == 9))
            ==> endpoint_url_text(h, sid) == seq!['h', 't', 't', 'p', ':', '/', '/']
            + h[i].1.map_values(|x: u8| x as char) + seq!['/', 'm', 'c', 'p', '?'] + endpoint_query(
            sid,
        ),
        !(forall|j: int| 0 <= j < h[i].1.len() ==> (32 <= #[trigger] h[i].1[j] < 127 || h[i].1[j] == 9))
            ==> endpoint_url_text(h, sid) == seq!['h', 't', 't', 'p', ':', '/', '/'] + seq![
            '1',
            '2',
            '7',
            '.',
            '0',
            '.',
            '0',
            '.',
            '1',
            ':',
            '3',
            '0',
            '0',
            '0',
        ] + seq!['/', 'm', 'c', 'p', '?'] + endpoint_query(sid),
{
    lemma_header_lookup_first(h, seq!['h', 'o', 's', 't'], i);
}

/// Without a `host` header the endpoint URL names `127.0.0.1:3000`.
pub proof fn lemma_endpoint_url_default_host(h: Seq<(Seq<char>, Seq<u8>)>, sid: u128)
    requires
        forall|k: int| 0 <= k < h.len() ==> h[k].0 != seq!['h', 'o', 's', 't'],
    ensures
        endpoint_url_text(h, sid) == seq!['h', 't', 't', 'p', ':', '/', '/'] + seq![
            '1',
            '2',
            '7',
            '.',
            '0',
            '.',
            '0',
            '.',
            '1',
            ':',
            '3',
            '0',
            '0',
            '0',
        ] + seq!['/', 'm', 'c', 'p', '?'] + endpoint_query(sid),
{
    lemma_header_lookup_none(h, seq!['h', 'o', 's', 't']);
}

} // verus!
