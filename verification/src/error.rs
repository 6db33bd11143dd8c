//! The errors of an event source.

use crate::stream::{StreamError, TransportError};
use crate::text::{decimal_chars, decimal_text, string_from_chars};
use crate::utf8_stream::Utf8Error;
use vstd::prelude::*;
use vstd::std_specs::convert::FromSpecImpl;
use vstd::string::StringExecFns;

verus! {

/// Error raised when a request cannot be cloned.
#[derive(Debug, Clone, Copy)]
pub struct CannotCloneRequestError;

/// The text that describes a [`CannotCloneRequestError`].
pub open spec fn cannot_clone_text() -> Seq<char> {
    "expected a cloneable request"@
}

impl CannotCloneRequestError {
    /// What went wrong, in words.
    pub fn message(&self) -> (r: String)
        ensures
            r@ == cannot_clone_text(),
    {
        "expected a cloneable request".to_owned()
    }
}

/// Error raised while an event source is opened, read and cut into frames.
#[derive(Debug, PartialEq, Eq)]
pub enum Error {
    /// The source is not valid UTF-8.
    Utf8(Utf8Error),
    /// The request could not be completed; the text says why.
    Transport(String),
    /// The stream under the response failed; the text says how.
    TransportStream(String),
    /// The content type of the response is missing or is none of an event
    /// source. It holds the bytes of the header, none if there was no header.
    InvalidContentType(Vec<u8>),
    /// The status of the response is not the one that is accepted.
    InvalidStatusCode(u16),
    /// The last event id cannot be sent in a header.
    InvalidLastEventId(String),
    /// The stream ended.
    StreamEnded,
}

/// The error of an event source for the error of one of its streams. A
/// closed transport is the end of the stream.
pub open spec fn error_of(error: StreamError) -> Error {
    match error {
        StreamError::Utf8(e) => Error::Utf8(e),
        StreamError::Transport(TransportError::Closed) => Error::StreamEnded,
        StreamError::Transport(TransportError::LastOperationFailed(text)) => Error::TransportStream(
            text,
        ),
    }
}

impl From<StreamError> for Error {
    fn from(error: StreamError) -> (r: Error) {
        match error {
            StreamError::Utf8(e) => Error::Utf8(e),
            StreamError::Transport(TransportError::Closed) => Error::StreamEnded,
            StreamError::Transport(TransportError::LastOperationFailed(text)) => {
                Error::TransportStream(text)
            },
        }
    }
}

impl FromSpecImpl<StreamError> for Error {
    open spec fn obeys_from_spec() -> bool {
        true
    }

    open spec fn from_spec(error: StreamError) -> Error {
        error_of(error)
    }
}

/// An error in words. The bytes of a content type that was refused are not
/// part of the words; the error holds them.
pub open spec fn describe(error: Error) -> Seq<char> {
    match error {
        Error::Utf8(Utf8Error::Malformed) => "invalid utf-8 sequence"@,
        Error::Utf8(Utf8Error::Truncated) => "incomplete utf-8 byte sequence"@,
        Error::Transport(text) => text@,
        Error::TransportStream(text) => "Transport stream error: "@ + text@,
        Error::InvalidContentType(_) => "Invalid header value"@,
        Error::InvalidStatusCode(status) => "Invalid status code: "@ + decimal_text(status as nat),
        Error::InvalidLastEventId(text) => "Invalid `Last-Event-ID`: "@ + text@,
        Error::StreamEnded => "Stream ended"@,
    }
}

impl Error {
    /// The error in words.
    pub fn message(&self) -> (r: String)
        ensures
            r@ == describe(*self),
    {
        match self {
            Error::Utf8(Utf8Error::Malformed) => "invalid utf-8 sequence".to_owned(),
            Error::Utf8(Utf8Error::Truncated) => "incomplete utf-8 byte sequence".to_owned(),
            Error::Transport(text) => text.clone(),
            Error::TransportStream(text) => {
                let mut r = "Transport stream error: ".to_owned();
                r.append(text.as_str());
                r
            },
            Error::InvalidContentType(_) => "Invalid header value".to_owned(),
            Error::InvalidStatusCode(status) => {
                let mut r = "Invalid status code: ".to_owned();
                let digits = decimal_chars(*status as u64);
                let digits = string_from_chars(digits.as_slice());
                r.append(digits.as_str());
                r
            },
            Error::InvalidLastEventId(text) => {
                let mut r = "Invalid `Last-Event-ID`: ".to_owned();
                r.append(text.as_str());
                r
            },
            Error::StreamEnded => "Stream ended".to_owned(),
        }
    }
}

} // verus!
