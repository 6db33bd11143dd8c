//! The frame parser for server-sent events.
//!
//! An event is put together from the fields of the lines up to the next
//! empty line. The data of an event is the values of its `data` fields, one
//! per line. An event without data is not handed out. The `id` field sets the
//! last event id, which stays until another `id` field changes it.

use crate::message_event::{default_event_chars, default_event_type, MessageEvent, MessageEventView};
use crate::parser::{lemma_parse_line_consumes, lemma_parse_line_extend, next_line, parse_line, RawEventLine, RawLine};
use crate::stream::{Input, StreamError, StreamPoll};
use crate::text::{
    lemma_first_index, lemma_first_index_unique, parse_decimal, parse_u64,
    string_from_chars,
};
use crate::utf8_stream::{decodable, decode_step, finish_step, lemma_decode_step_split, Utf8Stream};
use vstd::prelude::*;
use vstd::slice::slice_subrange;

verus! {

/// The byte order mark, which may open a stream and is not part of it.
pub open spec fn is_bom(c: char) -> bool {
    c == '\u{feff}'
}

/// The name of the field that sets the event type.
pub open spec fn name_event() -> Seq<char> {
    seq!['e', 'v', 'e', 'n', 't']
}

/// The name of the field that adds a line of data.
pub open spec fn name_data() -> Seq<char> {
    seq!['d', 'a', 't', 'a']
}

/// The name of the field that sets the last event id.
pub open spec fn name_id() -> Seq<char> {
    seq!['i', 'd']
}

/// The name of the field that sets the reconnection time.
pub open spec fn name_retry() -> Seq<char> {
    seq!['r', 'e', 't', 'r', 'y']
}

/// The fields gathered for the event that is being read.
pub struct EventBuilder {
    event: Vec<char>,
    data: Vec<char>,
    id: Vec<char>,
    retry: Option<u64>,
    is_complete: bool,
}

/// The mathematical value of an [`EventBuilder`].
pub struct Builder {
    pub event: Seq<char>,
    pub data: Seq<char>,
    pub id: Seq<char>,
    pub retry: Option<u64>,
    pub is_complete: bool,
}

impl View for EventBuilder {
    type V = Builder;

    closed spec fn view(&self) -> Builder {
        Builder {
            event: self.event@,
            data: self.data@,
            id: self.id@,
            retry: self.retry,
            is_complete: self.is_complete,
        }
    }
}

/// The builder before any line.
pub open spec fn empty_builder() -> Builder {
    Builder { event: seq![], data: seq![], id: seq![], retry: None, is_complete: false }
}

/// The builder after one more line.
///
/// `event` sets the event type. `data` adds its value and a line feed to the
/// data. `id` sets the id unless the value holds a NUL. `retry` sets the
/// reconnection time if its value is a number. Other fields and comments
/// change nothing. An empty line completes the event.
pub open spec fn add_line(b: Builder, line: RawLine) -> Builder {
    match line {
        RawLine::Field(name, value) => {
            let value = match value {
                Some(v) => v,
                None => seq![],
            };
            if name == name_event() {
                Builder { event: value, ..b }
            } else if name == name_data() {
                Builder { data: b.data + value + seq!['\n'], ..b }
            } else if name == name_id() {
                if value.contains('\0') {
                    b
                } else {
                    Builder { id: value, ..b }
                }
            } else if name == name_retry() {
                match parse_decimal(value) {
                    Some(ms) => Builder { retry: Some(ms), ..b },
                    None => b,
                }
            } else {
                b
            }
        },
        RawLine::Comment(_) => b,
        RawLine::Empty => Builder { is_complete: true, ..b },
    }
}

/// The builder after an event was completed: only the id stays.
pub open spec fn cleared(b: Builder) -> Builder {
    Builder { id: b.id, ..empty_builder() }
}

/// The event that a completed builder holds, if it has data: the data
/// without its last line feed, and `message` for a type left empty.
pub open spec fn dispatched(b: Builder) -> Option<MessageEventView> {
    if b.data.len() == 0 {
        None
    } else {
        Some(
            MessageEventView {
                event: if b.event.len() == 0 {
                    default_event_type()
                } else {
                    b.event
                },
                data: if b.data.last() == '\n' {
                    b.data.drop_last()
                } else {
                    b.data
                },
                id: b.id,
                retry: b.retry,
            },
        )
    }
}

/// The result of looking for the next event in buffered text.
pub struct Extract {
    /// The event, if the text holds a whole one.
    pub event: Option<MessageEventView>,
    /// The text that was not used up.
    pub buffer: Seq<char>,
    /// The builder after the lines that were used up.
    pub builder: Builder,
}

/// Reads lines off the front of `buffer` into `builder` until an event is
/// complete or the next line is not.
pub open spec fn next_event(buffer: Seq<char>, builder: Builder) -> Extract
    decreases buffer.len(),
{
    match parse_line(buffer) {
        None => Extract { event: None, buffer, builder },
        Some((line, n)) => {
            proof {
                lemma_parse_line_consumes(buffer);
            }
            let rest = buffer.skip(n as int);
            let b = add_line(builder, line);
            if b.is_complete {
                match dispatched(b) {
                    Some(event) => Extract { event: Some(event), buffer: rest, builder: cleared(b) },
                    None => next_event(rest, cleared(b)),
                }
            } else {
                next_event(rest, b)
            }
        },
    }
}

/// What is left after `next_event` is a suffix of the buffer, and a shorter
/// one when an event was found.
pub proof fn lemma_next_event_shrinks(buffer: Seq<char>, builder: Builder)
    ensures
        next_event(buffer, builder).buffer.len() <= buffer.len(),
        next_event(buffer, builder).event is Some ==> next_event(buffer, builder).buffer.len()
            < buffer.len(),
        next_event(buffer, builder).event is None ==> parse_line(
            next_event(buffer, builder).buffer,
        ) is None,
    decreases buffer.len(),
{
    match parse_line(buffer) {
        None => {},
        Some((line, n)) => {
            lemma_parse_line_consumes(buffer);
            let rest = buffer.skip(n as int);
            let b = add_line(builder, line);
            if b.is_complete {
                if dispatched(b) is None {
                    lemma_next_event_shrinks(rest, cleared(b));
                }
            } else {
                lemma_next_event_shrinks(rest, b);
            }
        },
    }
}

/// Text that arrives later does not change the event found in the text that
/// is already there. When none is found there, the search in the longer text
/// goes on from where it stopped.
pub proof fn lemma_next_event_extend(buffer: Seq<char>, builder: Builder, more: Seq<char>)
    ensures
        ({
            let x = next_event(buffer, builder);
            let y = next_event(buffer + more, builder);
            if x.event is Some {
                y == (Extract { event: x.event, buffer: x.buffer + more, builder: x.builder })
            } else {
                y == next_event(x.buffer + more, x.builder)
            }
        }),
    decreases buffer.len(),
{
    match parse_line(buffer) {
        None => {},
        Some((line, n)) => {
            lemma_parse_line_consumes(buffer);
            lemma_parse_line_extend(buffer, more);
            let rest = buffer.skip(n as int);
            assert((buffer + more).skip(n as int) =~= rest + more);
            let b = add_line(builder, line);
            if b.is_complete {
                if dispatched(b) is None {
                    lemma_next_event_extend(rest, cleared(b), more);
                }
            } else {
                lemma_next_event_extend(rest, b, more);
            }
        },
    }
}

impl EventBuilder {
    fn new() -> (r: EventBuilder)
        ensures
            r@ == empty_builder(),
    {
        EventBuilder {
            event: Vec::new(),
            data: Vec::new(),
            id: Vec::new(),
            retry: None,
            is_complete: false,
        }
    }

    /// Takes in one line.
    fn add(&mut self, line: RawEventLine)
        ensures
            final(self)@ == add_line(old(self)@, line@),
    {
        match line {
            RawEventLine::Field(name, value) => {
                let value: Vec<char> = match value {
                    Some(v) => v,
                    None => Vec::new(),
                };
                if is_event(name.as_slice()) {
                    self.event = value;
                } else if is_data(name.as_slice()) {
                    let mut value = value;
                    let ghost added = value@;
                    self.data.append(&mut value);
                    self.data.push('\n');
                    assert(self.data@ =~= old(self).data@ + added + seq!['\n']);
                } else if is_id(name.as_slice()) {
                    if !has_nul(value.as_slice()) {
                        self.id = value;
                    }
                } else if is_retry(name.as_slice()) {
                    match parse_u64(value.as_slice()) {
                        Some(ms) => {
                            self.retry = Some(ms);
                        },
                        None => {},
                    }
                }
            },
            RawEventLine::Comment(_) => {},
            RawEventLine::Empty => {
                self.is_complete = true;
            },
        }
    }

    /// Hands out the completed event, if it has data, and starts the next.
    fn dispatch(&mut self) -> (r: Option<MessageEvent>)
        ensures
            final(self)@ == cleared(old(self)@),
            match r {
                Some(event) => dispatched(old(self)@) == Some(event@),
                None => dispatched(old(self)@) is None,
            },
    {
        let mut data: Vec<char> = Vec::new();
        let mut event: Vec<char> = Vec::new();
        std::mem::swap(&mut self.data, &mut data);
        std::mem::swap(&mut self.event, &mut event);
        let retry = self.retry;
        self.retry = None;
        self.is_complete = false;
        if data.len() == 0 {
            return None;
        }
        if data[data.len() - 1] == '\n' {
            data.pop();
        }
        if event.len() == 0 {
            event = default_event_chars();
        }
        Some(
            MessageEvent {
                event: string_from_chars(event.as_slice()),
                data: string_from_chars(data.as_slice()),
                id: string_from_chars(self.id.as_slice()),
                retry,
            },
        )
    }
}

fn is_event(name: &[char]) -> (r: bool)
    ensures
        r == (name@ == name_event()),
{
    let r = name.len() == 5 && name[0] == 'e' && name[1] == 'v' && name[2] == 'e' && name[3] == 'n'
        && name[4] == 't';
    assert(r == (name@ =~= name_event()));
    r
}

fn is_data(name: &[char]) -> (r: bool)
    ensures
        r == (name@ == name_data()),
{
    let r = name.len() == 4 && name[0] == 'd' && name[1] == 'a' && name[2] == 't' && name[3] == 'a';
    assert(r == (name@ =~= name_data()));
    r
}

fn is_id(name: &[char]) -> (r: bool)
    ensures
        r == (name@ == name_id()),
{
    let r = name.len() == 2 && name[0] == 'i' && name[1] == 'd';
    assert(r == (name@ =~= name_id()));
    r
}

fn is_retry(name: &[char]) -> (r: bool)
    ensures
        r == (name@ == name_retry()),
{
    let r = name.len() == 5 && name[0] == 'r' && name[1] == 'e' && name[2] == 't' && name[3] == 'r'
        && name[4] == 'y';
    assert(r == (name@ =~= name_retry()));
    r
}

fn has_nul(value: &[char]) -> (r: bool)
    ensures
        r == value@.contains('\0'),
{
    let mut i: usize = 0;
    while i < value.len()
        invariant
            i <= value@.len(),
            forall|j: int| 0 <= j < i ==> value@[j] != '\0',
        decreases value@.len() - i,
    {
        if value[i] == '\0' {
            return true;
        }
        i += 1;
    }
    false
}

/// Takes the next event out of the buffered text.
fn parse_event(buffer: &mut Vec<char>, builder: &mut EventBuilder) -> (r: Option<MessageEvent>)
    ensures
        ({
            let x = next_event(old(buffer)@, old(builder)@);
            &&& final(buffer)@ == x.buffer
            &&& final(builder)@ == x.builder
            &&& match r {
                Some(event) => x.event == Some(event@),
                None => x.event is None,
            }
        }),
{
    let ghost goal = next_event(buffer@, builder@);
    let mut at: usize = 0;
    let mut found: Option<MessageEvent> = None;
    assert(buffer@.skip(0) =~= buffer@);
    loop
        invariant_except_break
            found is None,
            next_event(buffer@.skip(at as int), builder@) == goal,
        invariant
            at <= buffer@.len(),
            buffer@ == old(buffer)@,
        ensures
            at <= buffer@.len(),
            buffer@ == old(buffer)@,
            goal.buffer == buffer@.skip(at as int),
            goal.builder == builder@,
            match found {
                Some(event) => goal.event == Some(event@),
                None => goal.event is None,
            },
        decreases buffer@.len() - at,
    {
        let ghost rest = buffer@.skip(at as int);
        let tail = slice_subrange(buffer.as_slice(), at, buffer.len());
        assert(tail@ =~= rest);
        match next_line(tail) {
            None => {
                break ;
            },
            Some((line, n)) => {
                proof {
                    lemma_parse_line_consumes(rest);
                    assert(rest.skip(n as int) =~= buffer@.skip(at + n));
                }
                builder.add(line);
                at = at + n;
                if builder.is_complete {
                    let event = builder.dispatch();
                    if event.is_some() {
                        found = event;
                        break ;
                    }
                }
            },
        }
    }
    let rest = buffer.split_off(at);
    *buffer = rest;
    found
}

/// How far a stream has come.
#[derive(Debug, Clone, Copy, PartialEq, Eq)]
pub enum EventStreamState {
    /// No text has arrived yet.
    NotStarted,
    /// Text has arrived and the body has not ended.
    Started,
    /// The body has ended.
    Terminated,
}

impl EventStreamState {
    /// Whether the body has ended.
    pub fn is_terminated(self) -> (r: bool)
        ensures
            r == (self is Terminated),
    {
        matches!(self, EventStreamState::Terminated)
    }

    /// Whether text has arrived and the body has not ended.
    pub fn is_started(self) -> (r: bool)
        ensures
            r == (self is Started),
    {
        matches!(self, EventStreamState::Started)
    }
}

/// A stream of server-sent events over the bytes handed to it.
pub struct EventStream {
    stream: Utf8Stream,
    buffer: Vec<char>,
    builder: EventBuilder,
    state: EventStreamState,
    last_event_id: String,
}

/// The mathematical value of an [`EventStream`].
pub struct EventStreamView {
    /// The bytes of a character that the chunks so far left unfinished.
    pub pending: Seq<u8>,
    /// The text that has not been read into an event yet.
    pub buffer: Seq<char>,
    /// The fields of the event that is being read.
    pub builder: Builder,
    pub state: EventStreamState,
    /// The id of the last event handed out.
    pub last_event_id: Seq<char>,
}

impl View for EventStream {
    type V = EventStreamView;

    closed spec fn view(&self) -> EventStreamView {
        EventStreamView {
            pending: self.stream.pending(),
            buffer: self.buffer@,
            builder: self.builder@,
            state: self.state,
            last_event_id: self.last_event_id@,
        }
    }
}

/// What a poll comes to, as a mathematical value.
pub enum Outcome {
    /// An event is handed out.
    Event(MessageEventView),
    /// An error is handed out.
    Failed(StreamError),
    /// The stream has ended.
    End,
    /// The transport had nothing yet.
    Pending,
    /// The transport is to be read.
    Read,
}

/// The poll result `r` says what `outcome` says.
pub open spec fn reports(r: StreamPoll, outcome: Outcome) -> bool {
    match outcome {
        Outcome::Event(event) => r matches StreamPoll::Ready(Some(Ok(e))) && e@ == event,
        Outcome::Failed(error) => r == StreamPoll::Ready(Some(Err(error))),
        Outcome::End => r == StreamPoll::Ready(None),
        Outcome::Pending => r == StreamPoll::Pending,
        Outcome::Read => r == StreamPoll::Read,
    }
}

/// A stream that has been handed nothing.
pub open spec fn new_stream() -> EventStreamView {
    EventStreamView {
        pending: seq![],
        buffer: seq![],
        builder: empty_builder(),
        state: EventStreamState::NotStarted,
        last_event_id: seq![],
    }
}

/// The stream after `text` has arrived. A byte order mark at the very start
/// of the stream is dropped.
pub open spec fn accept_text(v: EventStreamView, text: Seq<char>) -> EventStreamView {
    if text.len() == 0 {
        v
    } else if v.state is NotStarted {
        EventStreamView {
            state: EventStreamState::Started,
            buffer: v.buffer + if is_bom(text[0]) {
                text.skip(1)
            } else {
                text
            },
            ..v
        }
    } else {
        EventStreamView { buffer: v.buffer + text, ..v }
    }
}

/// A poll that reads nothing: the next event in the buffered text; without
/// one, the end if the body has ended, and else the request to read.
pub open spec fn poll_buffered(v: EventStreamView) -> (Outcome, EventStreamView) {
    let x = next_event(v.buffer, v.builder);
    let rest = EventStreamView { buffer: x.buffer, builder: x.builder, ..v };
    match x.event {
        Some(event) => (Outcome::Event(event), EventStreamView { last_event_id: event.id, ..rest }),
        None => if v.state is Terminated {
            (Outcome::End, rest)
        } else {
            (Outcome::Read, rest)
        },
    }
}

/// A poll that is handed the next bytes of the body.
pub open spec fn poll_chunk(v: EventStreamView, bytes: Seq<u8>) -> (Outcome, EventStreamView) {
    let (decoded, pending) = decode_step(v.pending, bytes);
    let fed = EventStreamView { pending, ..v };
    match decoded {
        Err(e) => (Outcome::Failed(StreamError::Utf8(e)), fed),
        Ok(text) => if text.len() == 0 {
            (Outcome::Read, fed)
        } else {
            poll_buffered(accept_text(fed, text))
        },
    }
}

/// A poll that is told that the body has ended. An unfinished event is not
/// handed out. Bytes of an unfinished character are an error.
pub open spec fn poll_closed(v: EventStreamView) -> (Outcome, EventStreamView) {
    let ended = EventStreamView { state: EventStreamState::Terminated, ..v };
    match finish_step(v.pending) {
        Err(e) => (Outcome::Failed(StreamError::Utf8(e)), ended),
        Ok(_) => (Outcome::End, ended),
    }
}

/// A poll that is handed what a read of the transport gave. Once the stream
/// has ended, whatever is handed over is left aside.
pub open spec fn poll_answer(v: EventStreamView, input: Input) -> (Outcome, EventStreamView) {
    if v.state is Terminated {
        (Outcome::End, v)
    } else {
        match input {
            Input::Pending => (Outcome::Pending, v),
            Input::Chunk(bytes) => poll_chunk(v, bytes@),
            Input::Closed => poll_closed(v),
            Input::Failed(e) => (Outcome::Failed(StreamError::Transport(e)), v),
        }
    }
}

impl EventStream {
    /// A stream that has been handed nothing.
    pub fn new() -> (r: EventStream)
        ensures
            r@ == new_stream(),
    {
        EventStream {
            stream: Utf8Stream::new(),
            buffer: Vec::new(),
            builder: EventBuilder::new(),
            state: EventStreamState::NotStarted,
            last_event_id: String::new(),
        }
    }

    /// Sets the last event id of the stream.
    pub fn set_last_event_id(&mut self, id: String)
        ensures
            final(self)@ == (EventStreamView { last_event_id: id@, ..old(self)@ }),
    {
        self.last_event_id = id;
    }

    /// The id of the last event handed out.
    pub fn last_event_id(&self) -> (r: &str)
        ensures
            r@ == self@.last_event_id,
    {
        self.last_event_id.as_str()
    }

    /// How far the stream has come.
    pub fn state(&self) -> (r: EventStreamState)
        ensures
            r == self@.state,
    {
        self.state
    }

    /// The next event in the text that is buffered.
    fn buffered(&mut self) -> (r: StreamPoll)
        ensures
            reports(r, poll_buffered(old(self)@).0),
            final(self)@ == poll_buffered(old(self)@).1,
    {
        match parse_event(&mut self.buffer, &mut self.builder) {
            Some(event) => {
                self.last_event_id = event.id.clone();
                StreamPoll::Ready(Some(Ok(event)))
            },
            None => {
                if self.state.is_terminated() {
                    StreamPoll::Ready(None)
                } else {
                    StreamPoll::Read
                }
            },
        }
    }

    /// Polls the stream without reading: hands out the next event that is
    /// buffered. Without one it reports the end if the body has ended, and
    /// else asks for a read, whose answer goes to [`EventStream::poll_input`].
    pub fn poll_next(&mut self) -> (r: StreamPoll)
        ensures
            reports(r, poll_buffered(old(self)@).0),
            final(self)@ == poll_buffered(old(self)@).1,
    {
        self.buffered()
    }

    /// Goes on with a poll that asked for a read, with what the read gave.
    pub fn poll_input(&mut self, input: Input) -> (r: StreamPoll)
        ensures
            reports(r, poll_answer(old(self)@, input).0),
            final(self)@ == poll_answer(old(self)@, input).1,
    {
        if self.state.is_terminated() {
            return StreamPoll::Ready(None);
        }
        match input {
            Input::Pending => StreamPoll::Pending,
            Input::Failed(e) => StreamPoll::Ready(Some(Err(StreamError::Transport(e)))),
            Input::Closed => {
                self.state = EventStreamState::Terminated;
                match self.stream.finish() {
                    Err(e) => StreamPoll::Ready(Some(Err(StreamError::Utf8(e)))),
                    Ok(_) => StreamPoll::Ready(None),
                }
            },
            Input::Chunk(bytes) => {
                match self.stream.decode_chars(bytes.as_slice()) {
                    Err(e) => StreamPoll::Ready(Some(Err(StreamError::Utf8(e)))),
                    Ok(text) => {
                        if text.len() == 0 {
                            return StreamPoll::Read;
                        }
                        let mut text = text;
                        if !self.state.is_started() {
                            self.state = EventStreamState::Started;
                            if text[0] == '\u{feff}' {
                                let ghost whole = text@;
                                text = text.split_off(1);
                                assert(text@ == whole.skip(1));
                            }
                        }
                        self.buffer.append(&mut text);
                        self.buffered()
                    },
                }
            },
        }
    }
}

/// Every event that `buffer` holds, in order, with the text and the builder
/// that are left after the last of them.
pub open spec fn events_in(buffer: Seq<char>, builder: Builder) -> (
    Seq<MessageEventView>,
    Seq<char>,
    Builder,
)
    decreases buffer.len(),
{
    let x = next_event(buffer, builder);
    match x.event {
        Some(event) => {
            proof {
                lemma_next_event_shrinks(buffer, builder);
            }
            let (events, rest, last) = events_in(x.buffer, x.builder);
            (seq![event] + events, rest, last)
        },
        None => (seq![], x.buffer, x.builder),
    }
}

/// What is left after `events_in` holds no further event.
pub proof fn lemma_events_in_left(buffer: Seq<char>, builder: Builder)
    ensures
        ({
            let (events, rest, last) = events_in(buffer, builder);
            events_in(rest, last) == (Seq::<MessageEventView>::empty(), rest, last)
        }),
    decreases buffer.len(),
{
    let x = next_event(buffer, builder);
    lemma_next_event_shrinks(buffer, builder);
    if x.event is Some {
        lemma_events_in_left(x.buffer, x.builder);
    }
}

/// The events of a text that arrives in two parts are those of the first
/// part, followed by those of what the first part left with the second part
/// behind it.
pub proof fn lemma_events_in_extend(buffer: Seq<char>, builder: Builder, more: Seq<char>)
    ensures
        ({
            let (first, rest, mid) = events_in(buffer, builder);
            let (second, left, last) = events_in(rest + more, mid);
            events_in(buffer + more, builder) == (first + second, left, last)
        }),
    decreases buffer.len(),
{
    let x = next_event(buffer, builder);
    lemma_next_event_shrinks(buffer, builder);
    lemma_next_event_extend(buffer, builder, more);
    match x.event {
        Some(event) => {
            lemma_events_in_extend(x.buffer, x.builder, more);
            let (events, rest, mid) = events_in(x.buffer, x.builder);
            let (second, left, last) = events_in(rest + more, mid);
            assert(seq![event] + (events + second) =~= (seq![event] + events) + second);
        },
        None => {
            let (second, left, last) = events_in(x.buffer + more, x.builder);
            assert(Seq::<MessageEventView>::empty() + second =~= second);
        },
    }
}

/// The id of the last event of `events`, or `id` when there is none.
pub open spec fn last_id(events: Seq<MessageEventView>, id: Seq<char>) -> Seq<char> {
    if events.len() > 0 {
        events.last().id
    } else {
        id
    }
}

/// The events that polls without reading hand out, one after the other,
/// until one hands out none, and the stream after them.
pub open spec fn drain(v: EventStreamView) -> (Seq<MessageEventView>, EventStreamView)
    decreases v.buffer.len(),
{
    let (outcome, next) = poll_buffered(v);
    match outcome {
        Outcome::Event(event) => {
            proof {
                lemma_next_event_shrinks(v.buffer, v.builder);
            }
            let (events, last) = drain(next);
            (seq![event] + events, last)
        },
        _ => (seq![], next),
    }
}

/// The polls of `drain` hand out the events of the buffered text.
pub proof fn lemma_drain(v: EventStreamView)
    ensures
        ({
            let (events, rest, builder) = events_in(v.buffer, v.builder);
            drain(v) == (
                events,
                EventStreamView {
                    buffer: rest,
                    builder,
                    last_event_id: last_id(events, v.last_event_id),
                    ..v
                },
            )
        }),
    decreases v.buffer.len(),
{
    let x = next_event(v.buffer, v.builder);
    lemma_next_event_shrinks(v.buffer, v.builder);
    match x.event {
        Some(event) => {
            let next = poll_buffered(v).1;
            lemma_drain(next);
            let (events, rest, builder) = events_in(x.buffer, x.builder);
            assert((seq![event] + events).last() == if events.len() > 0 {
                events.last()
            } else {
                event
            });
        },
        None => {},
    }
}

/// The stream has handed out all that it holds and waits for a read.
pub open spec fn awaits_read(v: EventStreamView) -> bool {
    poll_buffered(v) == (Outcome::Read, v)
}

/// The events that a stream hands out from the poll that is handed `bytes`
/// up to the next poll that hands out none, and the stream after them.
pub open spec fn feed(v: EventStreamView, bytes: Seq<u8>) -> (Seq<MessageEventView>, EventStreamView) {
    let (outcome, next) = poll_chunk(v, bytes);
    match outcome {
        Outcome::Event(event) => {
            let (events, last) = drain(next);
            (seq![event] + events, last)
        },
        _ => (seq![], next),
    }
}

/// The events that a stream hands out when the chunks are handed to it one
/// after the other, and the stream after the last.
pub open spec fn feed_all(v: EventStreamView, chunks: Seq<Seq<u8>>) -> (
    Seq<MessageEventView>,
    EventStreamView,
)
    decreases chunks.len(),
{
    if chunks.len() == 0 {
        (seq![], v)
    } else {
        let (first, mid) = feed(v, chunks.first());
        let (rest, last) = feed_all(mid, chunks.drop_first());
        (first + rest, last)
    }
}

/// A stream that waits for a read and is handed a chunk that decodes hands
/// out the events of its text with the text of the chunk behind it, and
/// waits for a read again.
pub proof fn lemma_feed(v: EventStreamView, bytes: Seq<u8>)
    requires
        awaits_read(v),
        decode_step(v.pending, bytes).0 is Ok,
    ensures
        ({
            let (decoded, pending) = decode_step(v.pending, bytes);
            let w = accept_text(EventStreamView { pending, ..v }, decoded->Ok_0);
            let (events, rest, builder) = events_in(w.buffer, w.builder);
            feed(v, bytes) == (
                events,
                EventStreamView {
                    buffer: rest,
                    builder,
                    last_event_id: last_id(events, v.last_event_id),
                    ..w
                },
            )
        }),
        awaits_read(feed(v, bytes).1),
{
    let (decoded, pending) = decode_step(v.pending, bytes);
    let text = decoded->Ok_0;
    let fed = EventStreamView { pending, ..v };
    let w = accept_text(fed, text);
    lemma_drain(w);
    lemma_events_in_left(w.buffer, w.builder);
    lemma_next_event_shrinks(w.buffer, w.builder);
    let x = next_event(w.buffer, w.builder);
    if text.len() == 0 {
        assert(w == fed);
    } else {
        match x.event {
            Some(event) => {
                let next = poll_buffered(w).1;
                lemma_drain(next);
                let (events, rest, builder) = events_in(x.buffer, x.builder);
                assert((seq![event] + events).last() == if events.len() > 0 {
                    events.last()
                } else {
                    event
                });
            },
            None => {},
        }
    }
    let (events, rest, builder) = events_in(w.buffer, w.builder);
    let out = feed(v, bytes).1;
    assert(next_event(rest, builder).event is None);
}

/// Where a stream is cut into chunks does not matter: two chunks handed
/// over one after the other give the events, and leave the stream, that
/// their concatenation gives handed over at once.
pub proof fn lemma_feed_split(v: EventStreamView, a: Seq<u8>, b: Seq<u8>)
    requires
        awaits_read(v),
        decode_step(v.pending, a).0 is Ok,
        decode_step(decode_step(v.pending, a).1, b).0 is Ok,
    ensures
        feed(v, a + b) == (feed(v, a).0 + feed(feed(v, a).1, b).0, feed(feed(v, a).1, b).1),
{
    let (d1, p1) = decode_step(v.pending, a);
    let t1 = d1->Ok_0;
    let (d2, p2) = decode_step(p1, b);
    let t2 = d2->Ok_0;
    lemma_decode_step_split(v.pending, a, b);
    lemma_feed(v, a);
    let v1 = feed(v, a).1;
    lemma_feed(v1, b);
    lemma_feed(v, a + b);
    let w1 = accept_text(EventStreamView { pending: p1, ..v }, t1);
    let w2 = accept_text(EventStreamView { pending: p2, ..v1 }, t2);
    let w = accept_text(EventStreamView { pending: p2, ..v }, t1 + t2);
    let (e1, b1, bl1) = events_in(w1.buffer, w1.builder);
    let (e2, b2, bl2) = events_in(w2.buffer, w2.builder);
    if t1.len() == 0 {
        assert(t1 + t2 =~= t2);
        assert(w1.buffer == v.buffer);
        assert(e1 + e2 =~= e2);
    } else {
        let more = w2.buffer.skip(b1.len() as int);
        assert(w2.buffer =~= b1 + t2);
        assert(w.buffer =~= w1.buffer + t2) by {
            if is_bom(t1[0]) {
                assert((t1 + t2).skip(1) =~= t1.skip(1) + t2);
            }
        }
        lemma_events_in_extend(w1.buffer, w1.builder, t2);
        assert(last_id(e1 + e2, v.last_event_id) == last_id(e2, last_id(e1, v.last_event_id)));
    }
}

/// Where a stream is cut into chunks does not matter: the chunks handed over
/// one after the other give the events, and leave the stream, that their
/// concatenation gives handed over as a single chunk.
pub proof fn lemma_chunking_is_immaterial(v: EventStreamView, chunks: Seq<Seq<u8>>)
    requires
        awaits_read(v),
        chunks.len() > 0,
        decodable(v.pending, chunks),
    ensures
        decode_step(v.pending, chunks.flatten()).0 is Ok,
        feed_all(v, chunks) == feed(v, chunks.flatten()),
        awaits_read(feed_all(v, chunks).1),
    decreases chunks.len(),
{
    let first = chunks.first();
    let rest = chunks.drop_first();
    lemma_feed(v, first);
    let mid = feed(v, first).1;
    assert(mid.pending == decode_step(v.pending, first).1);
    assert(feed_all(v, chunks) == (feed(v, first).0 + feed_all(mid, rest).0, feed_all(mid, rest).1));
    assert(chunks.flatten() == first + rest.flatten());
    if rest.len() == 0 {
        assert(rest.flatten() =~= Seq::<u8>::empty());
        assert(first + rest.flatten() =~= first);
        assert(feed_all(mid, rest) == (Seq::<MessageEventView>::empty(), mid));
        assert(feed(v, first).0 + Seq::<MessageEventView>::empty() =~= feed(v, first).0);
    } else {
        assert(decodable(mid.pending, rest));
        lemma_chunking_is_immaterial(mid, rest);
        lemma_feed_split(v, first, rest.flatten());
        lemma_decode_step_split(v.pending, first, rest.flatten());
    }
}

/// The builder is between two events: it holds nothing but an id.
pub open spec fn is_idle(b: Builder) -> bool {
    cleared(b) == b
}

/// `text` is one well-formed block: read from between two events, it gives
/// exactly one event and leaves nothing, and the builder is between two
/// events again.
pub open spec fn is_frame(text: Seq<char>) -> bool {
    forall|b: Builder|
        is_idle(b) ==> {
            let (events, rest, last) = #[trigger] events_in(text, b);
            events.len() == 1 && rest.len() == 0 && is_idle(last)
        }
}

/// The events of blocks that are read one after the other: each block gives
/// its event, read with what the blocks before it left of the builder.
pub open spec fn frame_events(frames: Seq<Seq<char>>, b: Builder) -> Seq<MessageEventView>
    decreases frames.len(),
{
    if frames.len() == 0 {
        seq![]
    } else {
        let (events, rest, next) = events_in(frames.first(), b);
        seq![events[0]] + frame_events(frames.drop_first(), next)
    }
}

/// Blocks one after the other give one event each: the events of the
/// blocks, in the order of the blocks.
pub proof fn lemma_frames(frames: Seq<Seq<char>>, b: Builder)
    requires
        forall|i: int| 0 <= i < frames.len() ==> is_frame(#[trigger] frames[i]),
        is_idle(b),
    ensures
        events_in(frames.flatten(), b).0 == frame_events(frames, b),
        events_in(frames.flatten(), b).0.len() == frames.len(),
        events_in(frames.flatten(), b).1.len() == 0,
        is_idle(events_in(frames.flatten(), b).2),
    decreases frames.len(),
{
    if frames.len() == 0 {
        lemma_first_index(Seq::<char>::empty(), |c: char| crate::parser::is_line_break(c));
    } else {
        let first = frames.first();
        let rest = frames.drop_first();
        assert(is_frame(first));
        let (e1, r1, mid) = events_in(first, b);
        assert forall|i: int| 0 <= i < rest.len() implies is_frame(#[trigger] rest[i]) by {
            assert(rest[i] == frames[i + 1]);
        }
        lemma_frames(rest, mid);
        lemma_events_in_extend(first, b, rest.flatten());
        assert(r1 + rest.flatten() =~= rest.flatten());
        assert(e1 =~= seq![e1[0]]);
    }
}

/// Two events are the same but for their ids.
pub open spec fn same_apart_from_id(a: MessageEventView, b: MessageEventView) -> bool {
    a.event == b.event && a.data == b.data && a.retry == b.retry
}

/// Two builders hold the same but for their ids.
pub open spec fn builders_alike(a: Builder, b: Builder) -> bool {
    a.event == b.event && a.data == b.data && a.retry == b.retry && a.is_complete == b.is_complete
}

/// The id that a builder holds has no part in what is read but the id of
/// the events: from builders that are alike, the same text gives events
/// that are the same but for their ids, and leaves the same text.
pub proof fn lemma_id_apart(buffer: Seq<char>, a: Builder, b: Builder)
    requires
        builders_alike(a, b),
    ensures
        events_in(buffer, a).0.len() == events_in(buffer, b).0.len(),
        forall|i: int|
            0 <= i < events_in(buffer, a).0.len() ==> same_apart_from_id(
                #[trigger] events_in(buffer, a).0[i],
                events_in(buffer, b).0[i],
            ),
        events_in(buffer, a).1 == events_in(buffer, b).1,
        builders_alike(events_in(buffer, a).2, events_in(buffer, b).2),
    decreases buffer.len(),
{
    lemma_next_event_alike(buffer, a, b);
    lemma_next_event_shrinks(buffer, a);
    let x = next_event(buffer, a);
    let y = next_event(buffer, b);
    if x.event is Some {
        lemma_id_apart(x.buffer, x.builder, y.builder);
        let rest_a = events_in(x.buffer, x.builder).0;
        let rest_b = events_in(y.buffer, y.builder).0;
        assert forall|i: int| 0 <= i < events_in(buffer, a).0.len() implies same_apart_from_id(
            #[trigger] events_in(buffer, a).0[i],
            events_in(buffer, b).0[i],
        ) by {
            if i > 0 {
                assert(events_in(buffer, a).0[i] == rest_a[i - 1]);
                assert(events_in(buffer, b).0[i] == rest_b[i - 1]);
            }
        }
    }
}

/// From builders that are alike, the search for the next event uses up the
/// same text and finds events that are the same but for their ids.
pub proof fn lemma_next_event_alike(buffer: Seq<char>, a: Builder, b: Builder)
    requires
        builders_alike(a, b),
    ensures
        next_event(buffer, a).buffer == next_event(buffer, b).buffer,
        builders_alike(next_event(buffer, a).builder, next_event(buffer, b).builder),
        next_event(buffer, a).event is Some <==> next_event(buffer, b).event is Some,
        next_event(buffer, a).event is Some ==> same_apart_from_id(
            next_event(buffer, a).event->0,
            next_event(buffer, b).event->0,
        ),
    decreases buffer.len(),
{
    match parse_line(buffer) {
        None => {},
        Some((line, n)) => {
            lemma_parse_line_consumes(buffer);
            let rest = buffer.skip(n as int);
            let a1 = add_line(a, line);
            let b1 = add_line(b, line);
            assert(builders_alike(a1, b1));
            if a1.is_complete {
                if dispatched(a1) is None {
                    lemma_next_event_alike(rest, cleared(a1), cleared(b1));
                }
            } else {
                lemma_next_event_alike(rest, a1, b1);
            }
        },
    }
}

/// Each of the events of blocks that are read one after the other is, but
/// for its id, the event that its block gives when it is read alone.
pub proof fn lemma_frame_events_are_the_blocks(frames: Seq<Seq<char>>, b: Builder)
    requires
        forall|i: int| 0 <= i < frames.len() ==> is_frame(#[trigger] frames[i]),
        is_idle(b),
    ensures
        frame_events(frames, b).len() == frames.len(),
        forall|i: int|
            0 <= i < frames.len() ==> same_apart_from_id(
                #[trigger] frame_events(frames, b)[i],
                events_in(frames[i], empty_builder()).0[0],
            ),
    decreases frames.len(),
{
    if frames.len() > 0 {
        let first = frames.first();
        let rest = frames.drop_first();
        assert(is_frame(first));
        let (events, left, next) = events_in(first, b);
        assert forall|i: int| 0 <= i < rest.len() implies is_frame(#[trigger] rest[i]) by {
            assert(rest[i] == frames[i + 1]);
        }
        lemma_frame_events_are_the_blocks(rest, next);
        lemma_id_apart(first, b, empty_builder());
        assert(is_idle(empty_builder()));
        assert forall|i: int| 0 <= i < frames.len() implies same_apart_from_id(
            #[trigger] frame_events(frames, b)[i],
            events_in(frames[i], empty_builder()).0[0],
        ) by {
            if i > 0 {
                assert(frame_events(frames, b)[i] == frame_events(rest, next)[i - 1]);
                assert(frames[i] == rest[i - 1]);
            }
        }
    }
}

/// The line `data: ` with a payload and an empty line after it are a block,
/// provided that the payload holds no line break.
pub proof fn lemma_data_frame(payload: Seq<char>)
    requires
        forall|i: int| 0 <= i < payload.len() ==> !crate::parser::is_line_break(
            #[trigger] payload[i],
        ),
    ensures
        is_frame(name_data() + seq![':', ' '] + payload + seq!['\n', '\n']),
{
    let text = name_data() + seq![':', ' '] + payload + seq!['\n', '\n'];
    let p = |c: char| crate::parser::is_line_break(c);
    let q = |c: char| crate::parser::is_colon(c);
    let end = 6 + payload.len() as int;
    assert forall|i: int| 0 <= i < end implies !p(#[trigger] text[i]) by {
        if i >= 6 {
            assert(text[i] == payload[i - 6]);
        }
    }
    assert(text[end] == '\n');
    lemma_first_index_unique(text, p, end);
    let content = text.take(end);
    assert(content[0] == 'd');
    lemma_first_index_unique(content, q, 4);
    assert(content.take(4) =~= name_data());
    assert(content.skip(5).skip(1) =~= payload);
    assert(content[5] == ' ');
    let line = RawLine::Field(name_data(), Some(payload));
    assert(parse_line(text) == Some((line, (end + 1) as nat)));
    let after = text.skip(end + 1);
    assert(after =~= seq!['\n']);
    lemma_first_index_unique(after, p, 0);
    assert(after.take(0) =~= Seq::<char>::empty());
    assert(parse_line(after) == Some((RawLine::Empty, 1nat)));
    let last = after.skip(1);
    assert(last =~= Seq::<char>::empty());
    lemma_first_index(last, p);
    assert(parse_line(last) is None);
    assert(name_data() != name_event());
    assert forall|b: Builder| is_idle(b) implies ({
        let (events, rest, left) = #[trigger] events_in(text, b);
        events.len() == 1 && rest.len() == 0 && is_idle(left)
    }) by {
        let b1 = add_line(b, line);
        assert(b1.data =~= payload + seq!['\n']);
        let b2 = add_line(b1, RawLine::Empty);
        assert(dispatched(b2) is Some);
        assert(next_event(after, b1).event is Some);
        assert(next_event(text, b).event is Some);
        assert(next_event(text, b).buffer == last);
        assert(events_in(last, cleared(b2)).0.len() == 0);
    }
}

/// The text of a stream without the byte order mark that may open it.
pub open spec fn without_bom(text: Seq<char>) -> Seq<char> {
    if text.len() > 0 && is_bom(text[0]) {
        text.skip(1)
    } else {
        text
    }
}

/// A poll that reads nothing hands out no error.
pub proof fn lemma_poll_buffered_hands_out_no_error(v: EventStreamView)
    ensures
        !(poll_buffered(v).0 is Failed),
        !(poll_buffered(v).0 is Pending),
{
}

/// A poll that is told that nothing has arrived yet hands out nothing and
/// leaves the stream as it is.
pub proof fn lemma_pending_loses_nothing(v: EventStreamView)
    ensures
        poll_answer(v, Input::Pending).1 == v,
        !(poll_answer(v, Input::Pending).0 is Event),
        !(poll_answer(v, Input::Pending).0 is Failed),
{
}

/// A poll that is handed bytes that decode hands out an event or asks for
/// the next read: it hands out no error.
pub proof fn lemma_poll_chunk_hands_out_no_error(v: EventStreamView, bytes: Seq<u8>)
    requires
        decode_step(v.pending, bytes).0 is Ok,
        !(v.state is Terminated),
    ensures
        poll_chunk(v, bytes).0 is Event || poll_chunk(v, bytes).0 is Read,
{
}

/// A stream that arrives in chunks of bytes and holds well-formed blocks,
/// with or without a byte order mark before them, gives one event for each
/// block, wherever the cuts between the chunks fall. The events are those
/// of the blocks, in the order of the blocks, and they are the events that
/// the stream gives when it arrives as a single chunk.
pub proof fn lemma_frame_integrity(chunks: Seq<Seq<u8>>, frames: Seq<Seq<char>>)
    requires
        chunks.len() > 0,
        vstd::utf8::valid_utf8(chunks.flatten()),
        without_bom(vstd::utf8::decode_utf8(chunks.flatten())) == frames.flatten(),
        forall|i: int| 0 <= i < frames.len() ==> is_frame(#[trigger] frames[i]),
    ensures
        feed_all(new_stream(), chunks) == feed(new_stream(), chunks.flatten()),
        feed_all(new_stream(), chunks).0 == frame_events(frames, empty_builder()),
        feed_all(new_stream(), chunks).0.len() == frames.len(),
        forall|i: int|
            0 <= i < frames.len() ==> same_apart_from_id(
                #[trigger] feed_all(new_stream(), chunks).0[i],
                events_in(frames[i], empty_builder()).0[0],
            ),
        decodable(new_stream().pending, chunks),
        awaits_read(feed_all(new_stream(), chunks).1),
{
    let v = new_stream();
    let bytes = chunks.flatten();
    let none = Seq::<char>::empty();
    lemma_first_index(none, |c: char| crate::parser::is_line_break(c));
    assert(awaits_read(v));
    assert(v.pending + bytes + Seq::<u8>::empty() =~= bytes);
    crate::utf8_stream::lemma_valid_is_decodable(v.pending, chunks, Seq::<u8>::empty());
    lemma_chunking_is_immaterial(v, chunks);
    lemma_feed(v, bytes);
    assert(v.pending + bytes =~= bytes);
    crate::utf8_stream::lemma_valid_up_to_whole(bytes);
    assert(bytes.take(bytes.len() as int) =~= bytes);
    let text = vstd::utf8::decode_utf8(bytes);
    assert(decode_step(v.pending, bytes).0 == Ok::<Seq<char>, crate::utf8_stream::Utf8Error>(text));
    assert(is_idle(empty_builder()));
    lemma_frames(frames, empty_builder());
    lemma_frame_events_are_the_blocks(frames, empty_builder());
    if text.len() > 0 {
        assert(none + without_bom(text) =~= without_bom(text));
    }
}

} // verus!
