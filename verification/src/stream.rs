//! What the two frame parsers share: the answers of the transport that feed
//! them, the outcome of a poll, and the error of a stream.

use crate::event_stream::{EventStream, EventStreamView};
use crate::message_event::MessageEvent;
use crate::ndjson_stream::{NdJsonStream, NdJsonStreamView};
use crate::utf8_stream::Utf8Error;
use vstd::prelude::*;
use vstd::std_specs::convert::FromSpecImpl;
use vstd::string::StringExecFns;

verus! {

/// A failure of the transport under a stream.
#[derive(Debug, PartialEq, Eq)]
pub enum TransportError {
    /// The transport was closed.
    Closed,
    /// The last operation on the transport failed; the text describes how.
    LastOperationFailed(String),
}

/// Error raised while a stream is read and cut into frames.
#[derive(Debug, PartialEq, Eq)]
pub enum StreamError {
    /// The source is not valid UTF-8.
    Utf8(Utf8Error),
    /// The transport failed.
    Transport(TransportError),
}

impl From<Utf8Error> for StreamError {
    fn from(error: Utf8Error) -> (r: StreamError) {
        StreamError::Utf8(error)
    }
}

impl FromSpecImpl<Utf8Error> for StreamError {
    open spec fn obeys_from_spec() -> bool {
        true
    }

    open spec fn from_spec(error: Utf8Error) -> StreamError {
        StreamError::Utf8(error)
    }
}

/// The error of a stream in words.
pub open spec fn stream_error_text(error: StreamError) -> Seq<char> {
    match error {
        StreamError::Utf8(Utf8Error::Malformed) => "UTF8 error: invalid utf-8 sequence"@,
        StreamError::Utf8(Utf8Error::Truncated) => "UTF8 error: incomplete utf-8 byte sequence"@,
        StreamError::Transport(TransportError::Closed) => "Transport error: closed"@,
        StreamError::Transport(TransportError::LastOperationFailed(text)) => "Transport error: "@
            + text@,
    }
}

impl StreamError {
    /// The error in words.
    pub fn message(&self) -> (r: String)
        ensures
            r@ == stream_error_text(*self),
    {
        match self {
            StreamError::Utf8(Utf8Error::Malformed) => {
                "UTF8 error: invalid utf-8 sequence".to_owned()
            },
            StreamError::Utf8(Utf8Error::Truncated) => {
                "UTF8 error: incomplete utf-8 byte sequence".to_owned()
            },
            StreamError::Transport(TransportError::Closed) => "Transport error: closed".to_owned(),
            StreamError::Transport(TransportError::LastOperationFailed(text)) => {
                let mut r = "Transport error: ".to_owned();
                r.append(text.as_str());
                r
            },
        }
    }
}

/// What one read of the transport gave.
#[derive(Debug, PartialEq, Eq)]
pub enum Input {
    /// Nothing has arrived yet.
    Pending,
    /// The next bytes of the body.
    Chunk(Vec<u8>),
    /// The body has ended.
    Closed,
    /// The read failed.
    Failed(TransportError),
}

/// The outcome of polling a stream.
#[derive(Debug, PartialEq, Eq)]
pub enum StreamPoll {
    /// An event or an error, or `None` once the stream has ended.
    Ready(Option<Result<MessageEvent, StreamError>>),
    /// The transport had nothing yet: poll again when it is readable.
    Pending,
    /// Nothing more is buffered: read the transport and hand over the answer.
    Read,
}

/// The frame parser of a session: one of the two kinds.
pub enum StreamType {
    EventStream(EventStream),
    NdJsonStream(NdJsonStream),
}

/// The mathematical value of a [`StreamType`].
pub enum StreamTypeView {
    EventStream(EventStreamView),
    NdJsonStream(NdJsonStreamView),
}

impl View for StreamType {
    type V = StreamTypeView;

    open spec fn view(&self) -> StreamTypeView {
        match self {
            StreamType::EventStream(stream) => StreamTypeView::EventStream(stream@),
            StreamType::NdJsonStream(stream) => StreamTypeView::NdJsonStream(stream@),
        }
    }
}

} // verus!
