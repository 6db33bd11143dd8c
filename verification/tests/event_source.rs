use llm_stream::error::{CannotCloneRequestError, Error};
use llm_stream::event_source::{
    check_response, content_type_accepted, header_to_text, media_type_accepted, Event,
    EventSource, ReadyState, ResponseHead, SourcePoll,
};
use llm_stream::message_event::MessageEvent;
use llm_stream::stream::{Input, StreamError, TransportError};
use llm_stream::utf8_stream::Utf8Error;

fn head(status: u16, content_type: Option<&str>) -> ResponseHead {
    ResponseHead { status, content_type: content_type.map(|v| v.as_bytes().to_vec()) }
}

fn message(data: &str) -> Event {
    Event::Message(MessageEvent {
        event: "message".to_string(),
        data: data.to_string(),
        id: String::new(),
        retry: None,
    })
}

fn open(content_type: &str) -> EventSource {
    match EventSource::new(&head(200, Some(content_type))) {
        Ok(source) => source,
        Err(e) => panic!("refused: {:?}", e),
    }
}

fn refused(response: ResponseHead) -> Error {
    match EventSource::new(&response) {
        Ok(_) => panic!("accepted"),
        Err(e) => e,
    }
}

#[test]
fn status_500_is_refused() {
    assert_eq!(refused(head(500, Some("text/event-stream"))), Error::InvalidStatusCode(500));
    assert_eq!(refused(head(201, Some("text/event-stream"))), Error::InvalidStatusCode(201));
    assert_eq!(refused(head(404, None)), Error::InvalidStatusCode(404));
}

#[test]
fn text_plain_is_refused() {
    assert_eq!(
        refused(head(200, Some("text/plain"))),
        Error::InvalidContentType(b"text/plain".to_vec())
    );
    assert_eq!(
        refused(head(200, Some("application/json"))),
        Error::InvalidContentType(b"application/json".to_vec())
    );
}

#[test]
fn a_missing_or_unreadable_content_type_is_refused() {
    assert_eq!(refused(head(200, None)), Error::InvalidContentType(Vec::new()));
    assert_eq!(refused(head(200, Some(""))), Error::InvalidContentType(Vec::new()));
    assert_eq!(
        refused(head(200, Some("no slash"))),
        Error::InvalidContentType(b"no slash".to_vec())
    );
    let bytes = vec![b't', b'e', b'x', b't', b'/', 0xff];
    assert_eq!(
        refused(ResponseHead { status: 200, content_type: Some(bytes.clone()) }),
        Error::InvalidContentType(bytes)
    );
}

#[test]
fn event_stream_and_ndjson_are_accepted() {
    for value in [
        "text/event-stream",
        "Text/Event-Stream",
        "text/event-stream; charset=utf-8",
        "application/x-ndjson",
        "application/ndjson",
        "application/X-NDJSON; charset=utf-8",
    ] {
        let chars: Vec<char> = value.chars().collect();
        assert!(content_type_accepted(&chars), "{}", value);
        assert!(check_response(&head(200, Some(value))).is_ok(), "{}", value);
    }
    for value in ["text/plain", "application/json+ndjson", "event-stream", "text/event-stream;;"] {
        let chars: Vec<char> = value.chars().collect();
        assert!(!content_type_accepted(&chars), "{}", value);
    }
}

#[test]
fn check_response_gives_the_text_of_the_content_type() {
    assert_eq!(
        check_response(&head(200, Some("application/x-ndjson"))),
        Ok("application/x-ndjson".chars().collect::<Vec<char>>())
    );
    assert_eq!(header_to_text(b"a\tb ~"), Some(vec!['a', '\t', 'b', ' ', '~']));
    assert_eq!(header_to_text(b"a\nb"), None);
    assert_eq!(header_to_text(&[0x7f]), None);
    assert_eq!(header_to_text(&[]), Some(Vec::new()));
}

#[test]
fn the_content_type_selects_the_parser() {
    let mut source = open("application/x-ndjson");
    assert_eq!(source.poll_next(), SourcePoll::Read);
    assert_eq!(
        source.poll_input(Input::Chunk(b"data: x\n\n".to_vec())),
        SourcePoll::Ready(Some(Ok(message("data: x"))))
    );
    let mut source = open("text/event-stream");
    assert_eq!(source.poll_next(), SourcePoll::Read);
    assert_eq!(
        source.poll_input(Input::Chunk(b"data: x\n\n".to_vec())),
        SourcePoll::Ready(Some(Ok(message("x"))))
    );
    let mut source = open("text/event-stream; boundary=ndjson");
    assert_eq!(
        source.poll_input(Input::Chunk(b"data: x\n\n".to_vec())),
        SourcePoll::Ready(Some(Ok(message("data: x"))))
    );
}

#[test]
fn three_chunks_through_a_session() {
    let mut source = open("text/event-stream");
    assert_eq!(source.ready_state(), ReadyState::Open);
    assert_eq!(source.poll_next(), SourcePoll::Read);
    assert_eq!(source.poll_input(Input::Chunk(b"data: he".to_vec())), SourcePoll::Read);
    assert_eq!(
        source.poll_input(Input::Chunk(b"llo\n\n".to_vec())),
        SourcePoll::Ready(Some(Ok(message("hello"))))
    );
    assert_eq!(source.poll_next(), SourcePoll::Read);
    assert_eq!(
        source.poll_input(Input::Chunk(b"data: world\n\n".to_vec())),
        SourcePoll::Ready(Some(Ok(message("world"))))
    );
    assert_eq!(source.poll_next(), SourcePoll::Read);
    assert_eq!(source.poll_input(Input::Pending), SourcePoll::Pending);
    assert_eq!(source.poll_input(Input::Closed), SourcePoll::Ready(None));
    assert_eq!(source.poll_next(), SourcePoll::Ready(None));
}

#[test]
fn a_closed_session_has_ended() {
    let mut source = open("text/event-stream");
    assert_eq!(
        source.poll_input(Input::Chunk(b"data: a\n\ndata: b\n\n".to_vec())),
        SourcePoll::Ready(Some(Ok(message("a"))))
    );
    source.close();
    assert_eq!(source.ready_state(), ReadyState::Closed);
    assert_eq!(source.poll_next(), SourcePoll::Ready(None));
    assert_eq!(source.poll_input(Input::Chunk(b"data: c\n\n".to_vec())), SourcePoll::Ready(None));
    assert_eq!(source.poll_next(), SourcePoll::Ready(None));
}

#[test]
fn errors_of_the_stream_become_errors_of_the_session() {
    let mut source = open("text/event-stream");
    assert_eq!(
        source.poll_input(Input::Failed(TransportError::Closed)),
        SourcePoll::Ready(Some(Err(Error::StreamEnded)))
    );
    assert_eq!(
        source.poll_input(Input::Failed(TransportError::LastOperationFailed("io".to_string()))),
        SourcePoll::Ready(Some(Err(Error::TransportStream("io".to_string()))))
    );
    assert_eq!(
        source.poll_input(Input::Chunk(vec![0xc0])),
        SourcePoll::Ready(Some(Err(Error::Utf8(Utf8Error::Malformed))))
    );
    assert_eq!(Error::from(StreamError::Utf8(Utf8Error::Truncated)), Error::Utf8(Utf8Error::Truncated));
    assert_eq!(Error::from(StreamError::Transport(TransportError::Closed)), Error::StreamEnded);
}

#[test]
fn a_message_event_becomes_an_event() {
    let event = MessageEvent {
        event: "e".to_string(),
        data: "d".to_string(),
        id: "i".to_string(),
        retry: Some(3),
    };
    assert_eq!(Event::from(event.clone()), Event::Message(event));
}

#[test]
fn errors_in_words() {
    assert_eq!(Error::StreamEnded.message(), "Stream ended");
    assert_eq!(Error::InvalidStatusCode(500).message(), "Invalid status code: 500");
    assert_eq!(Error::InvalidStatusCode(0).message(), "Invalid status code: 0");
    assert_eq!(Error::InvalidContentType(b"text/plain".to_vec()).message(), "Invalid header value");
    assert_eq!(Error::InvalidContentType(Vec::new()).message(), "Invalid header value");
    assert_eq!(Error::TransportStream("x".to_string()).message(), "Transport stream error: x");
    assert_eq!(Error::Transport("refused".to_string()).message(), "refused");
    assert_eq!(Error::InvalidLastEventId("a\nb".to_string()).message(), "Invalid `Last-Event-ID`: a\nb");
    assert_eq!(Error::Utf8(Utf8Error::Malformed).message(), "invalid utf-8 sequence");
    assert_eq!(Error::Utf8(Utf8Error::Truncated).message(), "incomplete utf-8 byte sequence");
    assert_eq!(CannotCloneRequestError.message(), "expected a cloneable request");
}

#[test]
fn the_session_keeps_the_last_event_id() {
    let mut source = open("text/event-stream");
    assert_eq!(source.last_event_id(), "");
    let _ = source.poll_input(Input::Chunk(b"id: 42\ndata: a\n\nid: 43\n".to_vec()));
    assert_eq!(source.last_event_id(), "42");
}

#[test]
fn the_names_of_a_media_type_decide() {
    let accepted = |kind: &str, subtype: &str| {
        let kind: Vec<char> = kind.chars().collect();
        let subtype: Vec<char> = subtype.chars().collect();
        media_type_accepted(&kind, &subtype)
    };
    assert!(accepted("text", "event-stream"));
    assert!(accepted("application", "x-ndjson"));
    assert!(accepted("application", "ndjson"));
    assert!(accepted("text", "ndjson-seq"));
    assert!(!accepted("text", "plain"));
    assert!(!accepted("application", "event-stream"));
    assert!(!accepted("Text", "event-stream"));
    assert!(!accepted("text", "event-streams"));
    assert!(!accepted("application", "json"));
    assert!(!accepted("ndjson", "json"));
    assert!(!accepted("", ""));
}
