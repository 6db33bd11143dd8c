//! The live chat stream: a transport session whose messages are read into
//! the events of a chat.
//!
//! A failure of the transport and a payload that cannot be read end the
//! stream with an error event. Nothing is retried.

use crate::error::{describe, error_of};
use crate::event_source::{
    source_answer, source_poll, source_reports, Event, EventSource, EventSourceView, SourcePoll,
};
use crate::event_stream::Outcome;
use crate::llm::{events_view, Error, ErrorCode, ErrorView, StreamEvent, StreamEventView};
use crate::stream::Input;
use crate::text::same_text;
use vstd::prelude::*;
use vstd::string::StringExecFns;

verus! {

/// The kind of error that a status of a response stands for.
pub open spec fn code_of_status(status: u16) -> ErrorCode {
    if status == 429 {
        ErrorCode::RateLimitExceeded
    } else if status == 401 || status == 403 || status == 402 {
        ErrorCode::AuthenticationFailed
    } else if 400 <= status < 500 {
        ErrorCode::InvalidRequest
    } else {
        ErrorCode::InternalError
    }
}

/// Tells the kind of error from the status of a response.
pub fn error_code_from_status(status: u16) -> (r: ErrorCode)
    ensures
        r == code_of_status(status),
{
    if status == 429 {
        ErrorCode::RateLimitExceeded
    } else if status == 401 || status == 403 || status == 402 {
        ErrorCode::AuthenticationFailed
    } else if 400 <= status && status < 500 {
        ErrorCode::InvalidRequest
    } else {
        ErrorCode::InternalError
    }
}

/// The error of a chat for an error of the event source: an internal error
/// whose message is what was being done and the error in words.
pub open spec fn source_failure(details: Seq<char>, error: crate::error::Error) -> ErrorView {
    ErrorView {
        code: ErrorCode::InternalError,
        message: details + ": "@ + describe(error),
        provider_error_json: None,
    }
}

/// Makes the error of a chat from an error of the event source.
pub fn from_event_source_error(details: &str, error: &crate::error::Error) -> (r: Error)
    ensures
        r@ == source_failure(details@, *error),
{
    let mut message = details.to_owned();
    message.append(": ");
    let text = error.message();
    message.append(text.as_str());
    Error { code: ErrorCode::InternalError, message, provider_error_json: None }
}

/// What a line of the answer is read into, as a mathematical value.
pub open spec fn decoded_view(r: Result<Option<StreamEvent>, String>) -> Result<
    Option<StreamEventView>,
    Seq<char>,
> {
    match r {
        Ok(Some(event)) => Ok(Some(event@)),
        Ok(None) => Ok(None),
        Err(message) => Err(message@),
    }
}

/// What a provider adds to a live chat stream: how a payload is read.
pub trait LlmChatStreamState {
    /// What a payload is read into.
    spec fn decoded(raw: Seq<char>) -> Result<Option<StreamEventView>, Seq<char>>;

    /// Reads one payload into an event of the chat, if it stands for one.
    fn decode_message(&self, raw: &str) -> (r: Result<Option<StreamEvent>, String>)
        ensures
            decoded_view(r) == Self::decoded(raw@),
    ;
}

/// A live chat stream. It has a session, or the error that kept it from
/// getting one.
pub struct LlmChatStream<T> {
    implementation: T,
    stream: Option<EventSource>,
    failure: Option<Error>,
    finished: bool,
}

/// The mathematical value of an [`LlmChatStream`].
pub struct ChatStreamView {
    pub stream: Option<EventSourceView>,
    pub failure: Option<ErrorView>,
    pub finished: bool,
}

impl<T> View for LlmChatStream<T> {
    type V = ChatStreamView;

    closed spec fn view(&self) -> ChatStreamView {
        ChatStreamView {
            stream: match self.stream {
                Some(stream) => Some(stream@),
                None => None,
            },
            failure: match self.failure {
                Some(error) => Some(error@),
                None => None,
            },
            finished: self.finished,
        }
    }
}

/// The outcome of polling a live chat stream.
#[derive(Debug, PartialEq, Eq)]
pub enum ChatPoll {
    /// A batch of events; `None` where there is nothing yet.
    Ready(Option<Vec<StreamEvent>>),
    /// Nothing more is buffered: read the transport and hand over the answer.
    Read,
}

/// What a poll of a live chat stream comes to, as a mathematical value.
pub enum ChatOutcome {
    Ready(Option<Seq<StreamEventView>>),
    Read,
}

/// The poll result `r` says what `outcome` says.
pub open spec fn chat_reports(r: ChatPoll, outcome: ChatOutcome) -> bool {
    match outcome {
        ChatOutcome::Ready(Some(events)) => r matches ChatPoll::Ready(Some(e)) && events_view(e@)
            == events,
        ChatOutcome::Ready(None) => r == ChatPoll::Ready(None),
        ChatOutcome::Read => r == ChatPoll::Read,
    }
}

/// The payload that closes a stream of some providers and stands for no
/// event.
pub open spec fn done_marker() -> Seq<char> {
    "[DONE]"@
}

/// The error event for a payload that cannot be read.
pub open spec fn decode_failure(message: Seq<char>) -> StreamEventView {
    StreamEventView::Error(
        ErrorView { code: ErrorCode::InternalError, message, provider_error_json: None },
    )
}

impl<T: LlmChatStreamState> LlmChatStream<T> {
    /// What the chat stream makes of a poll of its session, and whether it
    /// has finished then.
    ///
    /// The end of the session finishes the stream with an empty batch. An
    /// error of the session finishes it with an error event. A message is read
    /// into an event; a finish event finishes the stream, and a payload that
    /// cannot be read finishes it with an error event.
    pub open spec fn settle(outcome: Outcome, finished: bool) -> (ChatOutcome, bool) {
        match outcome {
            Outcome::End => (ChatOutcome::Ready(Some(seq![])), true),
            Outcome::Failed(error) => match error_of(error) {
                crate::error::Error::StreamEnded => (ChatOutcome::Ready(Some(seq![])), true),
                other => (
                    ChatOutcome::Ready(
                        Some(
                            seq![
                                StreamEventView::Error(
                                    source_failure("Streaming request failed"@, other),
                                ),
                            ],
                        ),
                    ),
                    true,
                ),
            },
            Outcome::Event(message) => if message.data == done_marker() {
                (ChatOutcome::Ready(None), finished)
            } else {
                match T::decoded(message.data) {
                    Ok(Some(event)) => (
                        ChatOutcome::Ready(Some(seq![event])),
                        finished || event is Finish,
                    ),
                    Ok(None) => (ChatOutcome::Ready(None), finished),
                    Err(text) => (ChatOutcome::Ready(Some(seq![decode_failure(text)])), true),
                }
            },
            Outcome::Pending => (ChatOutcome::Ready(None), finished),
            Outcome::Read => (ChatOutcome::Read, finished),
        }
    }

    /// A poll of a stream that has no session to poll: a finished stream
    /// gives an empty batch; a stream that failed to open gives its error
    /// once and has finished; any other has nothing.
    pub open spec fn idle(v: ChatStreamView) -> (ChatOutcome, ChatStreamView) {
        if v.finished {
            (ChatOutcome::Ready(Some(seq![])), v)
        } else {
            match v.failure {
                Some(error) => (
                    ChatOutcome::Ready(Some(seq![StreamEventView::Error(error)])),
                    ChatStreamView { finished: true, ..v },
                ),
                None => (ChatOutcome::Ready(None), v),
            }
        }
    }

    /// A poll that reads nothing.
    pub open spec fn poll(v: ChatStreamView) -> (ChatOutcome, ChatStreamView) {
        if v.finished || v.stream is None {
            Self::idle(v)
        } else {
            let (outcome, stream) = source_poll(v.stream->0);
            let (chat, finished) = Self::settle(outcome, v.finished);
            (chat, ChatStreamView { stream: Some(stream), finished, ..v })
        }
    }

    /// A poll that is handed what a read of the transport gave.
    pub open spec fn answer(v: ChatStreamView, input: Input) -> (ChatOutcome, ChatStreamView) {
        if v.finished || v.stream is None {
            Self::idle(v)
        } else {
            let (outcome, stream) = source_answer(v.stream->0, input);
            let (chat, finished) = Self::settle(outcome, v.finished);
            (chat, ChatStreamView { stream: Some(stream), finished, ..v })
        }
    }

    /// A chat stream over a session that was opened.
    pub fn new(implementation: T, stream: EventSource) -> (r: Self)
        ensures
            r@ == (ChatStreamView { stream: Some(stream@), failure: None, finished: false }),
    {
        LlmChatStream { implementation, stream: Some(stream), failure: None, finished: false }
    }

    /// A chat stream for a call that failed before a session was opened.
    pub fn failed(implementation: T, error: Error) -> (r: Self)
        ensures
            r@ == (ChatStreamView { stream: None, failure: Some(error@), finished: false }),
    {
        LlmChatStream { implementation, stream: None, failure: Some(error), finished: false }
    }

    /// The error that kept the stream from getting a session.
    pub fn failure(&self) -> (r: &Option<Error>)
        ensures
            match r {
                Some(error) => self@.failure == Some(error@),
                None => self@.failure is None,
            },
    {
        &self.failure
    }

    /// Whether the stream has finished.
    pub fn is_finished(&self) -> (r: bool)
        ensures
            r == self@.finished,
    {
        self.finished
    }

    /// Marks the stream as finished.
    pub fn set_finished(&mut self)
        ensures
            final(self)@ == (ChatStreamView { finished: true, ..old(self)@ }),
    {
        self.finished = true;
    }

    /// The session of the stream.
    pub fn stream(&self) -> (r: &Option<EventSource>)
        ensures
            match r {
                Some(stream) => self@.stream == Some(stream@),
                None => self@.stream is None,
            },
    {
        &self.stream
    }

    fn idle_poll(&mut self) -> (r: ChatPoll)
        requires
            old(self)@.finished || old(self)@.stream is None,
        ensures
            chat_reports(r, Self::idle(old(self)@).0),
            final(self)@ == Self::idle(old(self)@).1,
    {
        if self.finished {
            let batch: Vec<StreamEvent> = Vec::new();
            assert(events_view(batch@) =~= Seq::<StreamEventView>::empty());
            return ChatPoll::Ready(Some(batch));
        }
        match &self.failure {
            Some(error) => {
                let mut batch: Vec<StreamEvent> = Vec::new();
                batch.push(StreamEvent::Error(error.clone()));
                assert(events_view(batch@) =~= seq![StreamEventView::Error(error@)]);
                self.finished = true;
                ChatPoll::Ready(Some(batch))
            },
            None => ChatPoll::Ready(None),
        }
    }

    fn settled(&mut self, poll: SourcePoll, Ghost(outcome): Ghost<Outcome>) -> (r: ChatPoll)
        requires
            source_reports(poll, outcome),
        ensures
            chat_reports(r, Self::settle(outcome, old(self)@.finished).0),
            final(self)@ == (ChatStreamView {
                finished: Self::settle(outcome, old(self)@.finished).1,
                ..old(self)@
            }),
    {
        match poll {
            SourcePoll::Ready(None) => {
                self.finished = true;
                let batch: Vec<StreamEvent> = Vec::new();
                assert(events_view(batch@) =~= Seq::<StreamEventView>::empty());
                ChatPoll::Ready(Some(batch))
            },
            SourcePoll::Ready(Some(Err(error))) => {
                self.finished = true;
                let mut batch: Vec<StreamEvent> = Vec::new();
                match error {
                    crate::error::Error::StreamEnded => {
                        assert(events_view(batch@) =~= Seq::<StreamEventView>::empty());
                    },
                    other => {
                        let failure = from_event_source_error("Streaming request failed", &other);
                        batch.push(StreamEvent::Error(failure));
                        assert(events_view(batch@) =~= seq![StreamEventView::Error(failure@)]);
                    },
                }
                ChatPoll::Ready(Some(batch))
            },
            SourcePoll::Ready(Some(Ok(Event::Open))) => ChatPoll::Ready(None),
            SourcePoll::Ready(Some(Ok(Event::Message(message)))) => {
                if same_text(message.data.as_str(), "[DONE]") {
                    return ChatPoll::Ready(None);
                }
                match self.implementation.decode_message(message.data.as_str()) {
                    Ok(Some(event)) => {
                        if matches!(event, StreamEvent::Finish(_)) {
                            self.finished = true;
                        }
                        let ghost seen = event@;
                        let mut batch: Vec<StreamEvent> = Vec::new();
                        batch.push(event);
                        assert(events_view(batch@) =~= seq![seen]);
                        ChatPoll::Ready(Some(batch))
                    },
                    Ok(None) => ChatPoll::Ready(None),
                    Err(text) => {
                        self.finished = true;
                        let mut batch: Vec<StreamEvent> = Vec::new();
                        let ghost shown = text@;
                        batch.push(
                            StreamEvent::Error(
                                Error {
                                    code: ErrorCode::InternalError,
                                    message: text,
                                    provider_error_json: None,
                                },
                            ),
                        );
                        assert(events_view(batch@) =~= seq![decode_failure(shown)]);
                        ChatPoll::Ready(Some(batch))
                    },
                }
            },
            SourcePoll::Pending => ChatPoll::Ready(None),
            SourcePoll::Read => ChatPoll::Read,
        }
    }

    /// Polls the stream without reading: the next batch of events, nothing,
    /// or the request for a read, whose answer goes to
    /// [`LlmChatStream::get_input`].
    pub fn get_next(&mut self) -> (r: ChatPoll)
        ensures
            chat_reports(r, Self::poll(old(self)@).0),
            final(self)@ == Self::poll(old(self)@).1,
    {
        if self.finished || self.stream.is_none() {
            return self.idle_poll();
        }
        let ghost before = self.stream->0@;
        let poll = match &mut self.stream {
            Some(stream) => stream.poll_next(),
            None => SourcePoll::Pending,
        };
        self.settled(poll, Ghost(source_poll(before).0))
    }

    /// Goes on with a poll that asked for a read, with what the read gave.
    pub fn get_input(&mut self, input: Input) -> (r: ChatPoll)
        ensures
            chat_reports(r, Self::answer(old(self)@, input).0),
            final(self)@ == Self::answer(old(self)@, input).1,
    {
        if self.finished || self.stream.is_none() {
            return self.idle_poll();
        }
        let ghost before = self.stream->0@;
        let poll = match &mut self.stream {
            Some(stream) => stream.poll_input(input),
            None => SourcePoll::Pending,
        };
        self.settled(poll, Ghost(source_answer(before, input).0))
    }

    /// Closes the session of the stream, if it has one.
    pub fn close(&mut self)
        ensures
            final(self)@ == (ChatStreamView {
                stream: match old(self)@.stream {
                    Some(s) => Some(EventSourceView { is_closed: true, ..s }),
                    None => None,
                },
                ..old(self)@
            }),
    {
        match &mut self.stream {
            Some(stream) => {
                stream.close();
            },
            None => {},
        }
    }
}

} // verus!
