//! The transport session: what a response has to meet before any of its
//! body is read, and the pull of events from the frame parser that the
//! content type of the response selects.

use crate::error::{error_of, Error};
use crate::event_stream::{EventStream, Outcome};
use crate::message_event::{MessageEvent, MessageEventView};
use crate::ndjson_stream::NdJsonStream;
use crate::stream::{Input, StreamPoll, StreamType, StreamTypeView};
use crate::text::{chars_of, contains, contains_text, string_from_chars};
use vstd::prelude::*;
use vstd::std_specs::convert::FromSpecImpl;

verus! {

/// The ready state of an [`EventSource`].
#[derive(Debug, Clone, Copy, PartialEq, Eq, PartialOrd, Ord)]
pub enum ReadyState {
    /// The source is waiting on a response from the endpoint.
    Connecting,
    /// The source is connected.
    Open,
    /// The source is closed and hands out no more events.
    Closed,
}

/// Events created by an [`EventSource`].
#[derive(Debug, PartialEq, Eq)]
pub enum Event {
    /// The connection is open.
    Open,
    /// A message has arrived.
    Message(MessageEvent),
}

impl From<MessageEvent> for Event {
    fn from(event: MessageEvent) -> (r: Event) {
        Event::Message(event)
    }
}

impl FromSpecImpl<MessageEvent> for Event {
    open spec fn obeys_from_spec() -> bool {
        true
    }

    open spec fn from_spec(event: MessageEvent) -> Event {
        Event::Message(event)
    }
}

/// What a session reads of a response before it reads the body.
#[derive(Debug, PartialEq, Eq)]
pub struct ResponseHead {
    /// The status code.
    pub status: u16,
    /// The bytes of the content type header, if the response has one.
    pub content_type: Option<Vec<u8>>,
}

/// The mathematical value of a [`ResponseHead`].
pub struct ResponseHeadView {
    pub status: u16,
    pub content_type: Option<Seq<u8>>,
}

impl View for ResponseHead {
    type V = ResponseHeadView;

    open spec fn view(&self) -> ResponseHeadView {
        ResponseHeadView {
            status: self.status,
            content_type: match self.content_type {
                Some(value) => Some(value@),
                None => None,
            },
        }
    }
}

/// The outcome of polling a session.
#[derive(Debug, PartialEq, Eq)]
pub enum SourcePoll {
    /// An event or an error, or `None` once the session has ended.
    Ready(Option<Result<Event, Error>>),
    /// The transport had nothing yet: poll again when it is readable.
    Pending,
    /// Nothing more is buffered: read the transport and hand over the answer.
    Read,
}

/// The one status that is accepted.
pub open spec fn accepted_status() -> u16 {
    200
}

/// A byte that may stand in the text of a header: a printable ASCII
/// character, a space or a tab.
pub open spec fn is_visible_ascii(b: u8) -> bool {
    (32 <= b < 127) || b == 9
}

/// The text of a header value, if every byte of it may stand in text.
pub open spec fn header_text(value: Seq<u8>) -> Option<Seq<char>> {
    if forall|i: int| 0 <= i < value.len() ==> is_visible_ascii(#[trigger] value[i]) {
        Some(Seq::new(value.len(), |i: int| value[i] as char))
    } else {
        None
    }
}

/// The type and the subtype of the media type that `value` writes, as the
/// `mime` crate reads it; `None` where it reads no media type.
pub uninterp spec fn mime_names(value: Seq<char>) -> Option<(Seq<char>, Seq<char>)>;

/// The type of the media type of server-sent events.
pub open spec fn text_type() -> Seq<char> {
    seq!['t', 'e', 'x', 't']
}

/// The subtype of the media type of server-sent events.
pub open spec fn event_stream_subtype() -> Seq<char> {
    seq!['e', 'v', 'e', 'n', 't', '-', 's', 't', 'r', 'e', 'a', 'm']
}

/// What the content type of newline-delimited JSON holds.
pub open spec fn ndjson() -> Seq<char> {
    seq!['n', 'd', 'j', 's', 'o', 'n']
}

/// A media type with these names is one of an event source: it is
/// `text/event-stream`, or its subtype holds `ndjson`.
pub open spec fn names_accepted(kind: Seq<char>, subtype: Seq<char>) -> bool {
    (kind == text_type() && subtype == event_stream_subtype()) || contains_text(subtype, ndjson())
}

/// The content type is one of an event source: it writes a media type whose
/// names are accepted.
pub open spec fn is_event_source_type(value: Seq<char>) -> bool {
    match mime_names(value) {
        Some((kind, subtype)) => names_accepted(kind, subtype),
        None => false,
    }
}

/// The text of the content type of a response that is accepted: the
/// status is the accepted one, and the content type is there, is text, and
/// is one of an event source.
pub open spec fn accepted(response: ResponseHeadView) -> Option<Seq<char>> {
    if response.status != accepted_status() {
        None
    } else {
        match response.content_type {
            Some(value) => match header_text(value) {
                Some(text) => if is_event_source_type(text) {
                    Some(text)
                } else {
                    None
                },
                None => None,
            },
            None => None,
        }
    }
}

/// The frame parser for a content type: the one for newline-delimited JSON
/// where the content type holds `ndjson`, else the one for server-sent
/// events. Either has been handed nothing yet.
pub open spec fn stream_for(content_type: Seq<char>) -> StreamTypeView {
    if contains_text(content_type, ndjson()) {
        StreamTypeView::NdJsonStream(crate::ndjson_stream::new_stream())
    } else {
        StreamTypeView::EventStream(crate::event_stream::new_stream())
    }
}

/// `mime::Mime::from_str`, and `type_` and `subtype` of the media type it
/// gives: the two names as text, or `None` where the text is no media type.
#[verifier::external_body]
fn parse_mime(value: &str) -> (r: Option<(String, String)>)
    ensures
        r is Some <==> mime_names(value@) is Some,
        r matches Some(names) ==> mime_names(value@) == Some((names.0@, names.1@)),
{
    match value.parse::<mime::Mime>() {
        Ok(m) => Some((m.type_().as_str().to_owned(), m.subtype().as_str().to_owned())),
        Err(_) => None,
    }
}

fn ndjson_chars() -> (r: Vec<char>)
    ensures
        r@ == ndjson(),
{
    let r = vec!['n', 'd', 'j', 's', 'o', 'n'];
    assert(r@ =~= ndjson());
    r
}

fn is_text_type(name: &[char]) -> (r: bool)
    ensures
        r == (name@ == text_type()),
{
    let r = name.len() == 4 && name[0] == 't' && name[1] == 'e' && name[2] == 'x' && name[3] == 't';
    assert(r == (name@ =~= text_type()));
    r
}

fn is_event_stream_subtype(name: &[char]) -> (r: bool)
    ensures
        r == (name@ == event_stream_subtype()),
{
    let r = name.len() == 12 && name[0] == 'e' && name[1] == 'v' && name[2] == 'e' && name[3] == 'n'
        && name[4] == 't' && name[5] == '-' && name[6] == 's' && name[7] == 't' && name[8] == 'r'
        && name[9] == 'e' && name[10] == 'a' && name[11] == 'm';
    assert(r == (name@ =~= event_stream_subtype()));
    r
}

/// The text of a header value, if every byte of it may stand in text.
pub fn header_to_text(value: &[u8]) -> (r: Option<Vec<char>>)
    ensures
        match r {
            Some(text) => header_text(value@) == Some(text@),
            None => header_text(value@) is None,
        },
{
    let mut text: Vec<char> = Vec::new();
    let mut i: usize = 0;
    while i < value.len()
        invariant
            i <= value@.len(),
            text@.len() == i,
            forall|j: int| 0 <= j < i ==> is_visible_ascii(#[trigger] value@[j]),
            forall|j: int| 0 <= j < i ==> text@[j] == value@[j] as char,
        decreases value@.len() - i,
    {
        let b = value[i];
        if !((32 <= b && b < 127) || b == 9) {
            return None;
        }
        text.push(b as char);
        i += 1;
    }
    assert(text@ =~= Seq::new(value@.len(), |i: int| value@[i] as char));
    Some(text)
}

/// Decides whether a media type with the given type and subtype is one of
/// an event source.
pub fn media_type_accepted(kind: &[char], subtype: &[char]) -> (r: bool)
    ensures
        r == names_accepted(kind@, subtype@),
{
    let needle = ndjson_chars();
    (is_text_type(kind) && is_event_stream_subtype(subtype)) || contains(
        subtype,
        needle.as_slice(),
    )
}

/// Decides whether a content type is one of an event source.
pub fn content_type_accepted(value: &[char]) -> (r: bool)
    ensures
        r == is_event_source_type(value@),
{
    let text = string_from_chars(value);
    match parse_mime(text.as_str()) {
        Some((kind, subtype)) => {
            let kind = chars_of(kind.as_str());
            let subtype = chars_of(subtype.as_str());
            media_type_accepted(kind.as_slice(), subtype.as_slice())
        },
        None => false,
    }
}

/// Decides whether a response is accepted: its status has to be the accepted
/// one, and its content type one of an event source. It gives the text of
/// the content type, or the reason why the response is refused.
pub fn check_response(response: &ResponseHead) -> (r: Result<Vec<char>, Error>)
    ensures
        match r {
            Ok(text) => accepted(response@) == Some(
                text@,
            ),
            Err(Error::InvalidStatusCode(status)) => {
                &&& response.status != accepted_status()
                &&& status == response.status
            },
            Err(Error::InvalidContentType(value)) => {
                &&& response.status == accepted_status()
                &&& accepted(response@) is None
                &&& value@ == match response@.content_type {
                    Some(header) => header,
                    None => Seq::<u8>::empty(),
                }
            },
            Err(_) => false,
        },
{
    if response.status != 200 {
        return Err(Error::InvalidStatusCode(response.status));
    }
    match &response.content_type {
        None => Err(Error::InvalidContentType(Vec::new())),
        Some(header) => {
            match header_to_text(header.as_slice()) {
                Some(text) => {
                    if content_type_accepted(text.as_slice()) {
                        return Ok(text);
                    }
                },
                None => {},
            }
            Err(Error::InvalidContentType(header.clone()))
        },
    }
}

/// A session over one response: the frame parser that the content type
/// selected, and whether the session was closed.
pub struct EventSource {
    stream: StreamType,
    is_closed: bool,
}

/// The mathematical value of an [`EventSource`].
pub struct EventSourceView {
    pub stream: StreamTypeView,
    pub is_closed: bool,
}

impl View for EventSource {
    type V = EventSourceView;

    closed spec fn view(&self) -> EventSourceView {
        EventSourceView { stream: self.stream@, is_closed: self.is_closed }
    }
}

/// The poll result `r` of a session says what `outcome` says.
pub open spec fn source_reports(r: SourcePoll, outcome: Outcome) -> bool {
    match outcome {
        Outcome::Event(event) => r matches SourcePoll::Ready(Some(Ok(Event::Message(e)))) && e@
            == event,
        Outcome::Failed(error) => r == SourcePoll::Ready(Some(Err(error_of(error)))),
        Outcome::End => r == SourcePoll::Ready(None),
        Outcome::Pending => r == SourcePoll::Pending,
        Outcome::Read => r == SourcePoll::Read,
    }
}

/// A poll of a session that reads nothing. A closed session has ended,
/// whatever its parser holds.
pub open spec fn source_poll(v: EventSourceView) -> (Outcome, EventSourceView) {
    if v.is_closed {
        (Outcome::End, v)
    } else {
        match v.stream {
            StreamTypeView::EventStream(s) => {
                let (outcome, next) = crate::event_stream::poll_buffered(s);
                (outcome, EventSourceView { stream: StreamTypeView::EventStream(next), ..v })
            },
            StreamTypeView::NdJsonStream(s) => {
                let (outcome, next) = crate::ndjson_stream::poll_buffered(s);
                (outcome, EventSourceView { stream: StreamTypeView::NdJsonStream(next), ..v })
            },
        }
    }
}

/// A poll of a session that is handed what a read of the transport gave. A
/// closed session has ended and leaves the answer aside.
pub open spec fn source_answer(v: EventSourceView, input: Input) -> (Outcome, EventSourceView) {
    if v.is_closed {
        (Outcome::End, v)
    } else {
        match v.stream {
            StreamTypeView::EventStream(s) => {
                let (outcome, next) = crate::event_stream::poll_answer(s, input);
                (outcome, EventSourceView { stream: StreamTypeView::EventStream(next), ..v })
            },
            StreamTypeView::NdJsonStream(s) => {
                let (outcome, next) = crate::ndjson_stream::poll_answer(s, input);
                (outcome, EventSourceView { stream: StreamTypeView::NdJsonStream(next), ..v })
            },
        }
    }
}

fn to_source_poll(poll: StreamPoll) -> (r: SourcePoll)
    ensures
        forall|outcome: Outcome| crate::event_stream::reports(poll, outcome) ==> source_reports(
            r,
            outcome,
        ),
{
    match poll {
        StreamPoll::Ready(Some(Ok(event))) => SourcePoll::Ready(Some(Ok(Event::Message(event)))),
        StreamPoll::Ready(Some(Err(error))) => SourcePoll::Ready(Some(Err(Error::from(error)))),
        StreamPoll::Ready(None) => SourcePoll::Ready(None),
        StreamPoll::Pending => SourcePoll::Pending,
        StreamPoll::Read => SourcePoll::Read,
    }
}

impl EventSource {
    /// Opens a session over a response that is accepted. Any other response
    /// is refused with the reason, and nothing of the body is read.
    pub fn new(response: &ResponseHead) -> (r: Result<EventSource, Error>)
        ensures
            match r {
                Ok(source) => {
                    &&& accepted(response@) is Some
                    &&& source@ == (EventSourceView {
                        stream: stream_for(
                            accepted(response@)->0,
                        ),
                        is_closed: false,
                    })
                },
                Err(Error::InvalidStatusCode(status)) => {
                    &&& response.status != accepted_status()
                    &&& status == response.status
                },
                Err(Error::InvalidContentType(value)) => {
                    &&& response.status == accepted_status()
                    &&& accepted(response@) is None
                    &&& value@ == match response@.content_type {
                        Some(header) => header,
                        None => Seq::<u8>::empty(),
                    }
                },
                Err(_) => false,
            },
    {
        match check_response(response) {
            Ok(text) => {
                let needle = ndjson_chars();
                let stream = if contains(text.as_slice(), needle.as_slice()) {
                    StreamType::NdJsonStream(NdJsonStream::new())
                } else {
                    StreamType::EventStream(EventStream::new())
                };
                Ok(EventSource { stream, is_closed: false })
            },
            Err(e) => Err(e),
        }
    }

    /// Closes the session. From then on a poll reports the end and leaves
    /// the parser and the transport alone.
    pub fn close(&mut self)
        ensures
            final(self)@ == (EventSourceView { is_closed: true, ..old(self)@ }),
    {
        self.is_closed = true;
    }

    /// The ready state: closed once the session was closed, else open.
    pub fn ready_state(&self) -> (r: ReadyState)
        ensures
            r == if self@.is_closed {
                ReadyState::Closed
            } else {
                ReadyState::Open
            },
    {
        if self.is_closed {
            ReadyState::Closed
        } else {
            ReadyState::Open
        }
    }

    /// The last event id of the session: where a new session would take up
    /// the stream.
    pub fn last_event_id(&self) -> (r: &str)
        ensures
            r@ == match self@.stream {
                StreamTypeView::EventStream(s) => s.last_event_id,
                StreamTypeView::NdJsonStream(s) => s.last_event_id,
            },
    {
        match &self.stream {
            StreamType::EventStream(stream) => stream.last_event_id(),
            StreamType::NdJsonStream(stream) => stream.last_event_id(),
        }
    }

    /// Polls the session without reading. It hands out the next event that
    /// is buffered; without one it reports the end if the body has ended, and
    /// else asks for a read, whose answer goes to [`EventSource::poll_input`].
    pub fn poll_next(&mut self) -> (r: SourcePoll)
        ensures
            source_reports(r, source_poll(old(self)@).0),
            final(self)@ == source_poll(old(self)@).1,
    {
        if self.is_closed {
            return SourcePoll::Ready(None);
        }
        match &mut self.stream {
            StreamType::EventStream(stream) => to_source_poll(stream.poll_next()),
            StreamType::NdJsonStream(stream) => to_source_poll(stream.poll_next()),
        }
    }

    /// Goes on with a poll that asked for a read, with what the read gave.
    pub fn poll_input(&mut self, input: Input) -> (r: SourcePoll)
        ensures
            source_reports(r, source_answer(old(self)@, input).0),
            final(self)@ == source_answer(old(self)@, input).1,
    {
        if self.is_closed {
            return SourcePoll::Ready(None);
        }
        match &mut self.stream {
            StreamType::EventStream(stream) => to_source_poll(stream.poll_input(input)),
            StreamType::NdJsonStream(stream) => to_source_poll(stream.poll_input(input)),
        }
    }
}

/// The content type `text/event-stream` holds no `ndjson`.
pub proof fn lemma_event_stream_type_holds_no_ndjson()
    ensures
        !contains_text(text_type() + seq!['/'] + event_stream_subtype(), ndjson()),
{
    let hay = text_type() + seq!['/'] + event_stream_subtype();
    let needle = ndjson();
    assert(hay =~= seq![
        't',
        'e',
        'x',
        't',
        '/',
        'e',
        'v',
        'e',
        'n',
        't',
        '-',
        's',
        't',
        'r',
        'e',
        'a',
        'm',
    ]);
    assert forall|at: int| !crate::text::occurs_at(hay, needle, at) by {
        if 0 <= at && at + needle.len() <= hay.len() {
            let part = hay.subrange(at, at + needle.len());
            if at == 8 {
                assert(part[1] == 't');
            } else {
                assert(part[0] == hay[at]);
            }
        }
    }
}

/// A session that was opened for a content type that holds no `ndjson` is
/// an open session over an event stream that has been handed nothing.
pub proof fn lemma_event_stream_session(content_type: Seq<char>)
    requires
        !contains_text(content_type, ndjson()),
    ensures
        stream_for(content_type) == StreamTypeView::EventStream(crate::event_stream::new_stream()),
{
}

/// The body of the session has ended and its parser for newline-delimited
/// JSON may still hold text that it hands out as a last event.
pub open spec fn may_salvage(v: EventSourceView) -> bool {
    v.stream matches StreamTypeView::NdJsonStream(s) && s.state is Terminated
}

/// An open session polls its parser: what a poll of the session comes to
/// is what the poll of the parser comes to, and nothing but the parser
/// changes. A poll that is told that nothing has arrived yet hands out
/// nothing and leaves the session as it is, unless the body has ended and
/// text is left to be handed out.
pub proof fn lemma_session_polls_its_parser(v: EventSourceView, input: Input)
    requires
        !v.is_closed,
    ensures
        match v.stream {
            StreamTypeView::EventStream(s) => {
                &&& source_poll(v) == (
                    crate::event_stream::poll_buffered(s).0,
                    EventSourceView {
                        stream: StreamTypeView::EventStream(
                            crate::event_stream::poll_buffered(s).1,
                        ),
                        ..v
                    },
                )
                &&& source_answer(v, input) == (
                    crate::event_stream::poll_answer(s, input).0,
                    EventSourceView {
                        stream: StreamTypeView::EventStream(
                            crate::event_stream::poll_answer(s, input).1,
                        ),
                        ..v
                    },
                )
            },
            StreamTypeView::NdJsonStream(s) => {
                &&& source_poll(v) == (
                    crate::ndjson_stream::poll_buffered(s).0,
                    EventSourceView {
                        stream: StreamTypeView::NdJsonStream(
                            crate::ndjson_stream::poll_buffered(s).1,
                        ),
                        ..v
                    },
                )
                &&& source_answer(v, input) == (
                    crate::ndjson_stream::poll_answer(s, input).0,
                    EventSourceView {
                        stream: StreamTypeView::NdJsonStream(
                            crate::ndjson_stream::poll_answer(s, input).1,
                        ),
                        ..v
                    },
                )
            },
        },
        !may_salvage(v) ==> source_answer(v, Input::Pending).1 == v,
        !may_salvage(v) ==> !(source_answer(v, Input::Pending).0 is Event),
        !(source_answer(v, Input::Pending).0 is Failed),
{
}

/// The events that an open session hands out when the chunks of a body are
/// handed to it one after the other as it asks for them: those that its
/// parser hands out.
pub open spec fn session_events(v: EventSourceView, chunks: Seq<Seq<u8>>) -> Seq<MessageEventView> {
    match v.stream {
        StreamTypeView::EventStream(s) => crate::event_stream::feed_all(s, chunks).0,
        StreamTypeView::NdJsonStream(s) => crate::ndjson_stream::feed_all(s, chunks).0,
    }
}

/// A session for server-sent events whose body arrives in chunks and holds
/// well-formed blocks, with or without a byte order mark before them, hands
/// out one event for each block and no error, wherever the cuts between the
/// chunks fall. The events are those of the blocks, in the order of the
/// blocks, and they are the events that a session hands out whose body
/// arrives as a single chunk.
pub proof fn lemma_session_frame_integrity(
    response: ResponseHeadView,
    chunks: Seq<Seq<u8>>,
    frames: Seq<Seq<char>>,
)
    requires
        accepted(response) matches Some(text) && !contains_text(text, ndjson()),
        chunks.len() > 0,
        vstd::utf8::valid_utf8(chunks.flatten()),
        crate::event_stream::without_bom(vstd::utf8::decode_utf8(chunks.flatten()))
            == frames.flatten(),
        forall|i: int| 0 <= i < frames.len() ==> crate::event_stream::is_frame(#[trigger] frames[i]),
    ensures
        ({
            let v = EventSourceView {
                stream: stream_for(accepted(response)->0),
                is_closed: false,
            };
            &&& session_events(v, chunks) == session_events(v, seq![chunks.flatten()])
            &&& session_events(v, chunks) == crate::event_stream::frame_events(
                frames,
                crate::event_stream::empty_builder(),
            )
            &&& session_events(v, chunks).len() == frames.len()
            &&& forall|i: int|
                0 <= i < frames.len() ==> crate::event_stream::same_apart_from_id(
                    #[trigger] session_events(v, chunks)[i],
                    crate::event_stream::events_in(
                        frames[i],
                        crate::event_stream::empty_builder(),
                    ).0[0],
                )
        }),
{
    let start = crate::event_stream::new_stream();
    let bytes = chunks.flatten();
    crate::event_stream::lemma_frame_integrity(chunks, frames);
    let one = seq![bytes];
    assert(one.drop_first() =~= Seq::<Seq<u8>>::empty());
    assert(one.first() == bytes);
    let fed = crate::event_stream::feed(start, bytes);
    assert(crate::event_stream::feed_all(fed.1, one.drop_first()) == (
        Seq::<MessageEventView>::empty(),
        fed.1,
    ));
    assert(fed.0 + Seq::<MessageEventView>::empty() =~= fed.0);
    assert(crate::event_stream::feed_all(start, one).0 == fed.0);
}

} // verus!
