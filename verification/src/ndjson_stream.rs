//! The frame parser for newline-delimited JSON.
//!
//! Every line that ends with a line feed and is not blank is one event,
//! whose data is the line without the white space around it. When the body
//! ends, text that is left without a line feed is handed out as a last
//! event, unless it is blank.

use crate::event_stream::{reports, Outcome};
use crate::message_event::{default_event_chars, default_event_type, MessageEvent, MessageEventView};
use crate::stream::{Input, StreamError, StreamPoll};
use crate::text::{first_index, lemma_first_index, lemma_first_index_unique, string_from_chars, trim, trimmed};
use crate::utf8_stream::{decodable, decode_step, finish_step, lemma_decode_step_split, Utf8Stream};
use vstd::prelude::*;
use vstd::slice::slice_subrange;

verus! {

/// How far a stream has come.
#[derive(Debug, Clone, Copy, PartialEq, Eq)]
pub enum NdJsonStreamState {
    /// No text has arrived yet.
    NotStarted,
    /// Text has arrived and the body has not ended.
    Started,
    /// The body has ended.
    Terminated,
}

impl NdJsonStreamState {
    /// Whether the body has ended.
    pub fn is_terminated(self) -> (r: bool)
        ensures
            r == (self is Terminated),
    {
        matches!(self, NdJsonStreamState::Terminated)
    }
}

/// A stream of newline-delimited JSON events over the bytes handed to it.
pub struct NdJsonStream {
    stream: Utf8Stream,
    buffer: Vec<char>,
    state: NdJsonStreamState,
    last_event_id: String,
}

/// The mathematical value of an [`NdJsonStream`].
pub struct NdJsonStreamView {
    /// The bytes of a character that the chunks so far left unfinished.
    pub pending: Seq<u8>,
    /// The text that has not been handed out yet.
    pub buffer: Seq<char>,
    pub state: NdJsonStreamState,
    /// The id that every event carries.
    pub last_event_id: Seq<char>,
}

impl View for NdJsonStream {
    type V = NdJsonStreamView;

    closed spec fn view(&self) -> NdJsonStreamView {
        NdJsonStreamView {
            pending: self.stream.pending(),
            buffer: self.buffer@,
            state: self.state,
            last_event_id: self.last_event_id@,
        }
    }
}

/// The character that ends a line.
pub open spec fn is_line_feed(c: char) -> bool {
    c == '\n'
}

/// The first line of `buffer` that ends with a line feed and is not blank,
/// without the white space around it, and the text after that line. Without
/// such a line, what is left after the blank lines.
pub open spec fn next_json_line(buffer: Seq<char>) -> (Option<Seq<char>>, Seq<char>)
    decreases buffer.len(),
{
    let end = first_index(buffer, |c: char| is_line_feed(c)) as int;
    if end >= buffer.len() {
        (None, buffer)
    } else {
        let line = trim(buffer.take(end));
        let rest = buffer.skip(end + 1);
        if line.len() == 0 {
            next_json_line(rest)
        } else {
            (Some(line), rest)
        }
    }
}

/// The event for one line.
pub open spec fn line_event(line: Seq<char>, id: Seq<char>) -> MessageEventView {
    MessageEventView { event: default_event_type(), data: line, id, retry: None }
}

/// What is left after `next_json_line` is no longer than the buffer, shorter
/// when a line was found, and holds no line feed when none was.
pub proof fn lemma_next_json_line_shrinks(buffer: Seq<char>)
    ensures
        next_json_line(buffer).1.len() <= buffer.len(),
        next_json_line(buffer).0 is Some ==> next_json_line(buffer).1.len() < buffer.len(),
        next_json_line(buffer).0 is None ==> first_index(
            next_json_line(buffer).1,
            |c: char| is_line_feed(c),
        ) >= next_json_line(buffer).1.len(),
    decreases buffer.len(),
{
    let end = first_index(buffer, |c: char| is_line_feed(c)) as int;
    lemma_first_index(buffer, |c: char| is_line_feed(c));
    if end < buffer.len() {
        if trim(buffer.take(end)).len() == 0 {
            lemma_next_json_line_shrinks(buffer.skip(end + 1));
        }
    }
}

/// Text that arrives later does not change the line found in the text that
/// is already there. When none is found there, the search in the longer text
/// goes on from where it stopped.
pub proof fn lemma_next_json_line_extend(buffer: Seq<char>, more: Seq<char>)
    ensures
        ({
            let x = next_json_line(buffer);
            let y = next_json_line(buffer + more);
            if x.0 is Some {
                y == (x.0, x.1 + more)
            } else {
                y == next_json_line(x.1 + more)
            }
        }),
    decreases buffer.len(),
{
    let p = |c: char| is_line_feed(c);
    let end = first_index(buffer, p) as int;
    lemma_first_index(buffer, p);
    if end < buffer.len() {
        let whole = buffer + more;
        assert forall|i: int| 0 <= i < end implies !p(#[trigger] whole[i]) by {
            assert(whole[i] == buffer[i]);
        }
        assert(whole[end] == buffer[end]);
        lemma_first_index_unique(whole, p, end);
        assert(whole.take(end) =~= buffer.take(end));
        assert(whole.skip(end + 1) =~= buffer.skip(end + 1) + more);
        if trim(buffer.take(end)).len() == 0 {
            lemma_next_json_line_extend(buffer.skip(end + 1), more);
        }
    }
}

/// A stream that has been handed nothing.
pub open spec fn new_stream() -> NdJsonStreamView {
    NdJsonStreamView {
        pending: seq![],
        buffer: seq![],
        state: NdJsonStreamState::NotStarted,
        last_event_id: seq![],
    }
}

/// The stream after `text` has arrived.
pub open spec fn accept_text(v: NdJsonStreamView, text: Seq<char>) -> NdJsonStreamView {
    if text.len() == 0 {
        v
    } else {
        NdJsonStreamView { state: NdJsonStreamState::Started, buffer: v.buffer + text, ..v }
    }
}

/// A poll that reads nothing: the next line in the buffered text. Without
/// one, the request to read while the body has not ended; once it has, the
/// text that is left as a last event, and the end if it is blank.
pub open spec fn poll_buffered(v: NdJsonStreamView) -> (Outcome, NdJsonStreamView) {
    let (line, rest) = next_json_line(v.buffer);
    match line {
        Some(line) => (
            Outcome::Event(line_event(line, v.last_event_id)),
            NdJsonStreamView { buffer: rest, ..v },
        ),
        None => if !(v.state is Terminated) {
            (Outcome::Read, NdJsonStreamView { buffer: rest, ..v })
        } else if trim(rest).len() == 0 {
            (Outcome::End, NdJsonStreamView { buffer: rest, ..v })
        } else {
            (
                Outcome::Event(line_event(trim(rest), v.last_event_id)),
                NdJsonStreamView { buffer: seq![], ..v },
            )
        },
    }
}

/// A poll that is handed the next bytes of the body.
pub open spec fn poll_chunk(v: NdJsonStreamView, bytes: Seq<u8>) -> (Outcome, NdJsonStreamView) {
    let (decoded, pending) = decode_step(v.pending, bytes);
    let fed = NdJsonStreamView { pending, ..v };
    match decoded {
        Err(e) => (Outcome::Failed(StreamError::Utf8(e)), fed),
        Ok(text) => if text.len() == 0 {
            (Outcome::Read, fed)
        } else {
            poll_buffered(accept_text(fed, text))
        },
    }
}

/// A poll that is told that the body has ended. Bytes of an unfinished
/// character are an error; the text that is left is still handed out by the
/// poll after it.
pub open spec fn poll_closed(v: NdJsonStreamView) -> (Outcome, NdJsonStreamView) {
    let ended = NdJsonStreamView { state: NdJsonStreamState::Terminated, ..v };
    match finish_step(v.pending) {
        Err(e) => (Outcome::Failed(StreamError::Utf8(e)), NdJsonStreamView { pending: seq![], ..ended }),
        Ok(_) => poll_buffered(ended),
    }
}

/// A poll that is handed what a read of the transport gave. Once the stream
/// has ended, whatever is handed over is left aside.
pub open spec fn poll_answer(v: NdJsonStreamView, input: Input) -> (Outcome, NdJsonStreamView) {
    if v.state is Terminated {
        poll_buffered(v)
    } else {
        match input {
            Input::Pending => (Outcome::Pending, v),
            Input::Chunk(bytes) => poll_chunk(v, bytes@),
            Input::Closed => poll_closed(v),
            Input::Failed(e) => (Outcome::Failed(StreamError::Transport(e)), v),
        }
    }
}

fn find_line_feed(s: &[char]) -> (r: usize)
    ensures
        r == first_index(s@, |c: char| is_line_feed(c)),
        r <= s@.len(),
{
    let mut i: usize = 0;
    while i < s.len() && s[i] != '\n'
        invariant
            i <= s@.len(),
            forall|j: int| 0 <= j < i ==> !is_line_feed(#[trigger] s@[j]),
        decreases s@.len() - i,
    {
        i += 1;
    }
    proof {
        lemma_first_index_unique(s@, |c: char| is_line_feed(c), i as int);
    }
    i
}

/// Takes the next line that is not blank out of the buffered text of
/// `stream`, and the blank lines before it. It never fails.
pub fn try_parse_line(stream: &mut NdJsonStream) -> (r: Result<Option<MessageEvent>, StreamError>)
    ensures
        r is Ok,
        ({
            let (line, rest) = next_json_line(old(stream)@.buffer);
            &&& final(stream)@ == (NdJsonStreamView { buffer: rest, ..old(stream)@ })
            &&& match r {
                Ok(Some(event)) => line is Some && event@ == line_event(
                    line->0,
                    old(stream)@.last_event_id,
                ),
                _ => line is None,
            }
        }),
{
    let ghost goal = next_json_line(stream.buffer@);
    let mut at: usize = 0;
    let mut found: Option<Vec<char>> = None;
    assert(stream.buffer@.skip(0) =~= stream.buffer@);
    loop
        invariant_except_break
            found is None,
            next_json_line(stream.buffer@.skip(at as int)) == goal,
        invariant
            at <= stream.buffer@.len(),
            stream.buffer@ == old(stream).buffer@,
        ensures
            at <= stream.buffer@.len(),
            stream.buffer@ == old(stream).buffer@,
            goal.1 == stream.buffer@.skip(at as int),
            match found {
                Some(line) => goal.0 == Some(line@),
                None => goal.0 is None,
            },
        decreases stream.buffer@.len() - at,
    {
        let ghost rest = stream.buffer@.skip(at as int);
        let tail = slice_subrange(stream.buffer.as_slice(), at, stream.buffer.len());
        assert(tail@ =~= rest);
        let end = find_line_feed(tail);
        if end >= tail.len() {
            break ;
        }
        let line = trimmed(slice_subrange(tail, 0, end));
        proof {
            assert(tail@.subrange(0, end as int) =~= rest.take(end as int));
            assert(rest.skip(end + 1) =~= stream.buffer@.skip(at + end + 1));
        }
        at = at + end + 1;
        if line.len() > 0 {
            found = Some(line);
            break ;
        }
    }
    let rest = stream.buffer.split_off(at);
    stream.buffer = rest;
    match found {
        Some(line) => Ok(Some(stream.event_for(line))),
        None => Ok(None),
    }
}

impl NdJsonStream {
    /// A stream that has been handed nothing.
    pub fn new() -> (r: NdJsonStream)
        ensures
            r@ == new_stream(),
    {
        NdJsonStream {
            stream: Utf8Stream::new(),
            buffer: Vec::new(),
            state: NdJsonStreamState::NotStarted,
            last_event_id: String::new(),
        }
    }

    /// Sets the id that the events carry.
    pub fn set_last_event_id(&mut self, id: String)
        ensures
            final(self)@ == (NdJsonStreamView { last_event_id: id@, ..old(self)@ }),
    {
        self.last_event_id = id;
    }

    /// The id that the events carry.
    pub fn last_event_id(&self) -> (r: &str)
        ensures
            r@ == self@.last_event_id,
    {
        self.last_event_id.as_str()
    }

    /// How far the stream has come.
    pub fn state(&self) -> (r: NdJsonStreamState)
        ensures
            r == self@.state,
    {
        self.state
    }

    fn event_for(&self, line: Vec<char>) -> (r: MessageEvent)
        ensures
            r@ == line_event(line@, self@.last_event_id),
    {
        let name = default_event_chars();
        MessageEvent {
            event: string_from_chars(name.as_slice()),
            data: string_from_chars(line.as_slice()),
            id: self.last_event_id.clone(),
            retry: None,
        }
    }

    /// The next event in the text that is buffered.
    fn buffered(&mut self) -> (r: StreamPoll)
        ensures
            reports(r, poll_buffered(old(self)@).0),
            final(self)@ == poll_buffered(old(self)@).1,
    {
        match try_parse_line(self) {
            Ok(Some(event)) => StreamPoll::Ready(Some(Ok(event))),
            Ok(None) => {
                if !self.state.is_terminated() {
                    return StreamPoll::Read;
                }
                let remaining = trimmed(self.buffer.as_slice());
                if remaining.len() == 0 {
                    StreamPoll::Ready(None)
                } else {
                    self.buffer = Vec::new();
                    StreamPoll::Ready(Some(Ok(self.event_for(remaining))))
                }
            },
            Err(e) => StreamPoll::Ready(Some(Err(e))),
        }
    }

    /// Polls the stream without reading: hands out the next line that is
    /// buffered. Without one it asks for a read, whose answer goes to
    /// [`NdJsonStream::poll_input`]; once the body has ended it hands out the
    /// text that is left, and then reports the end.
    pub fn poll_next(&mut self) -> (r: StreamPoll)
        ensures
            reports(r, poll_buffered(old(self)@).0),
            final(self)@ == poll_buffered(old(self)@).1,
    {
        self.buffered()
    }

    /// Goes on with a poll that asked for a read, with what the read gave.
    pub fn poll_input(&mut self, input: Input) -> (r: StreamPoll)
        ensures
            reports(r, poll_answer(old(self)@, input).0),
            final(self)@ == poll_answer(old(self)@, input).1,
    {
        if self.state.is_terminated() {
            return self.buffered();
        }
        match input {
            Input::Pending => StreamPoll::Pending,
            Input::Failed(e) => StreamPoll::Ready(Some(Err(StreamError::Transport(e)))),
            Input::Closed => {
                self.state = NdJsonStreamState::Terminated;
                match self.stream.finish() {
                    Err(e) => {
                        self.stream = Utf8Stream::new();
                        StreamPoll::Ready(Some(Err(StreamError::Utf8(e))))
                    },
                    Ok(_) => self.buffered(),
                }
            },
            Input::Chunk(bytes) => {
                match self.stream.decode_chars(bytes.as_slice()) {
                    Err(e) => StreamPoll::Ready(Some(Err(StreamError::Utf8(e)))),
                    Ok(text) => {
                        if text.len() == 0 {
                            return StreamPoll::Read;
                        }
                        let mut text = text;
                        self.state = NdJsonStreamState::Started;
                        self.buffer.append(&mut text);
                        self.buffered()
                    },
                }
            },
        }
    }
}

/// Every line of `buffer` that ends with a line feed and is not blank, in
/// order, with the text that is left after the last line feed.
pub open spec fn lines_in(buffer: Seq<char>) -> (Seq<Seq<char>>, Seq<char>)
    decreases buffer.len(),
{
    let (line, rest) = next_json_line(buffer);
    match line {
        Some(line) => {
            proof {
                lemma_next_json_line_shrinks(buffer);
            }
            let (lines, left) = lines_in(rest);
            (seq![line] + lines, left)
        },
        None => (seq![], rest),
    }
}

/// What is left after `lines_in` holds no further line.
pub proof fn lemma_lines_in_left(buffer: Seq<char>)
    ensures
        lines_in(lines_in(buffer).1) == (Seq::<Seq<char>>::empty(), lines_in(buffer).1),
    decreases buffer.len(),
{
    let (line, rest) = next_json_line(buffer);
    lemma_next_json_line_shrinks(buffer);
    if line is Some {
        lemma_lines_in_left(rest);
    }
}

/// The lines of a text that arrives in two parts are those of the first
/// part, followed by those of what the first part left with the second part
/// behind it.
pub proof fn lemma_lines_in_extend(buffer: Seq<char>, more: Seq<char>)
    ensures
        ({
            let (first, rest) = lines_in(buffer);
            let (second, left) = lines_in(rest + more);
            lines_in(buffer + more) == (first + second, left)
        }),
    decreases buffer.len(),
{
    let (line, rest) = next_json_line(buffer);
    lemma_next_json_line_shrinks(buffer);
    lemma_next_json_line_extend(buffer, more);
    match line {
        Some(line) => {
            lemma_lines_in_extend(rest, more);
            let (lines, mid) = lines_in(rest);
            let (second, left) = lines_in(mid + more);
            assert(seq![line] + (lines + second) =~= (seq![line] + lines) + second);
        },
        None => {
            let (second, left) = lines_in(rest + more);
            assert(Seq::<Seq<char>>::empty() + second =~= second);
        },
    }
}

/// The events for lines, each with the given id.
pub open spec fn line_events(lines: Seq<Seq<char>>, id: Seq<char>) -> Seq<MessageEventView> {
    lines.map_values(|line: Seq<char>| line_event(line, id))
}

/// The stream has handed out all that it holds and waits for a read.
pub open spec fn awaits_read(v: NdJsonStreamView) -> bool {
    poll_buffered(v) == (Outcome::Read, v)
}

/// The events that polls without reading hand out, one after the other,
/// until one hands out none, and the stream after them, while the body has
/// not ended.
pub open spec fn drain(v: NdJsonStreamView) -> (Seq<MessageEventView>, NdJsonStreamView)
    decreases v.buffer.len(),
{
    let (line, rest) = next_json_line(v.buffer);
    match line {
        Some(line) => {
            proof {
                lemma_next_json_line_shrinks(v.buffer);
            }
            let (events, last) = drain(poll_buffered(v).1);
            (seq![line_event(line, v.last_event_id)] + events, last)
        },
        None => (seq![], NdJsonStreamView { buffer: rest, ..v }),
    }
}

/// The polls of `drain` hand out the events for the lines of the buffered
/// text.
pub proof fn lemma_drain(v: NdJsonStreamView)
    ensures
        drain(v) == (
            line_events(lines_in(v.buffer).0, v.last_event_id),
            NdJsonStreamView { buffer: lines_in(v.buffer).1, ..v },
        ),
    decreases v.buffer.len(),
{
    let (line, rest) = next_json_line(v.buffer);
    lemma_next_json_line_shrinks(v.buffer);
    match line {
        Some(line) => {
            let next = poll_buffered(v).1;
            lemma_drain(next);
            let lines = lines_in(rest).0;
            assert(line_events(seq![line] + lines, v.last_event_id) =~= seq![
                line_event(line, v.last_event_id),
            ] + line_events(lines, v.last_event_id));
        },
        None => {
            assert(line_events(Seq::<Seq<char>>::empty(), v.last_event_id) =~= Seq::<
                MessageEventView,
            >::empty());
        },
    }
}

/// The events that a stream hands out from the poll that is handed `bytes`
/// up to the next poll that hands out none, and the stream after them.
pub open spec fn feed(v: NdJsonStreamView, bytes: Seq<u8>) -> (
    Seq<MessageEventView>,
    NdJsonStreamView,
) {
    let (outcome, next) = poll_chunk(v, bytes);
    match outcome {
        Outcome::Event(event) => {
            let (events, last) = drain(next);
            (seq![event] + events, last)
        },
        _ => (seq![], next),
    }
}

/// The events that a stream hands out when the chunks are handed to it one
/// after the other, and the stream after the last.
pub open spec fn feed_all(v: NdJsonStreamView, chunks: Seq<Seq<u8>>) -> (
    Seq<MessageEventView>,
    NdJsonStreamView,
)
    decreases chunks.len(),
{
    if chunks.len() == 0 {
        (seq![], v)
    } else {
        let (first, mid) = feed(v, chunks.first());
        let (rest, last) = feed_all(mid, chunks.drop_first());
        (first + rest, last)
    }
}

/// A stream that waits for a read and is handed a chunk that decodes hands
/// out the events for the lines of its text with the text of the chunk
/// behind it, and waits for a read again.
pub proof fn lemma_feed(v: NdJsonStreamView, bytes: Seq<u8>)
    requires
        awaits_read(v),
        decode_step(v.pending, bytes).0 is Ok,
    ensures
        ({
            let (decoded, pending) = decode_step(v.pending, bytes);
            let w = accept_text(NdJsonStreamView { pending, ..v }, decoded->Ok_0);
            feed(v, bytes) == (
                line_events(lines_in(w.buffer).0, v.last_event_id),
                NdJsonStreamView { buffer: lines_in(w.buffer).1, ..w },
            )
        }),
        awaits_read(feed(v, bytes).1),
{
    let (decoded, pending) = decode_step(v.pending, bytes);
    let text = decoded->Ok_0;
    let fed = NdJsonStreamView { pending, ..v };
    let w = accept_text(fed, text);
    lemma_drain(w);
    lemma_lines_in_left(w.buffer);
    lemma_next_json_line_shrinks(w.buffer);
    let (line, rest) = next_json_line(w.buffer);
    if text.len() == 0 {
        assert(line_events(Seq::<Seq<char>>::empty(), v.last_event_id) =~= Seq::<
            MessageEventView,
        >::empty());
    } else {
        match line {
            Some(line) => {
                let next = poll_buffered(w).1;
                lemma_drain(next);
                let lines = lines_in(rest).0;
                assert(line_events(seq![line] + lines, v.last_event_id) =~= seq![
                    line_event(line, v.last_event_id),
                ] + line_events(lines, v.last_event_id));
            },
            None => {
                assert(line_events(Seq::<Seq<char>>::empty(), v.last_event_id) =~= Seq::<
                    MessageEventView,
                >::empty());
            },
        }
    }
    let left = lines_in(w.buffer).1;
    assert(next_json_line(left).0 is None);
}

/// Where a stream is cut into chunks does not matter: two chunks handed
/// over one after the other give the events, and leave the stream, that
/// their concatenation gives handed over at once.
pub proof fn lemma_feed_split(v: NdJsonStreamView, a: Seq<u8>, b: Seq<u8>)
    requires
        awaits_read(v),
        decode_step(v.pending, a).0 is Ok,
        decode_step(decode_step(v.pending, a).1, b).0 is Ok,
    ensures
        feed(v, a + b) == (feed(v, a).0 + feed(feed(v, a).1, b).0, feed(feed(v, a).1, b).1),
{
    let (d1, p1) = decode_step(v.pending, a);
    let t1 = d1->Ok_0;
    let (d2, p2) = decode_step(p1, b);
    let t2 = d2->Ok_0;
    lemma_decode_step_split(v.pending, a, b);
    lemma_feed(v, a);
    let v1 = feed(v, a).1;
    lemma_feed(v1, b);
    lemma_feed(v, a + b);
    let w1 = accept_text(NdJsonStreamView { pending: p1, ..v }, t1);
    let w2 = accept_text(NdJsonStreamView { pending: p2, ..v1 }, t2);
    let w = accept_text(NdJsonStreamView { pending: p2, ..v }, t1 + t2);
    let (l1, b1) = lines_in(w1.buffer);
    let (l2, b2) = lines_in(w2.buffer);
    if t1.len() == 0 {
        assert(t1 + t2 =~= t2);
        assert(l1 + l2 =~= l2);
    } else if t2.len() == 0 {
        assert(t1 + t2 =~= t1);
        lemma_lines_in_left(w1.buffer);
        assert(l1 + l2 =~= l1);
    } else {
        assert(w2.buffer =~= b1 + t2);
        assert(w.buffer =~= w1.buffer + t2);
        lemma_lines_in_extend(w1.buffer, t2);
    }
    assert(line_events(l1 + l2, v.last_event_id) =~= line_events(l1, v.last_event_id)
        + line_events(l2, v.last_event_id));
}

/// Where a stream is cut into chunks does not matter: the chunks handed over
/// one after the other give the events, and leave the stream, that their
/// concatenation gives handed over as a single chunk.
pub proof fn lemma_chunking_is_immaterial(v: NdJsonStreamView, chunks: Seq<Seq<u8>>)
    requires
        awaits_read(v),
        chunks.len() > 0,
        decodable(v.pending, chunks),
    ensures
        decode_step(v.pending, chunks.flatten()).0 is Ok,
        feed_all(v, chunks) == feed(v, chunks.flatten()),
        awaits_read(feed_all(v, chunks).1),
    decreases chunks.len(),
{
    let first = chunks.first();
    let rest = chunks.drop_first();
    lemma_feed(v, first);
    let mid = feed(v, first).1;
    assert(mid.pending == decode_step(v.pending, first).1);
    assert(feed_all(v, chunks) == (feed(v, first).0 + feed_all(mid, rest).0, feed_all(mid, rest).1));
    assert(chunks.flatten() == first + rest.flatten());
    if rest.len() == 0 {
        assert(rest.flatten() =~= Seq::<u8>::empty());
        assert(first + rest.flatten() =~= first);
        assert(feed_all(mid, rest) == (Seq::<MessageEventView>::empty(), mid));
        assert(feed(v, first).0 + Seq::<MessageEventView>::empty() =~= feed(v, first).0);
    } else {
        assert(decodable(mid.pending, rest));
        lemma_chunking_is_immaterial(mid, rest);
        lemma_feed_split(v, first, rest.flatten());
        lemma_decode_step_split(v.pending, first, rest.flatten());
    }
}

} // verus!
