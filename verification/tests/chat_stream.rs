use llm_stream::chat_stream::{error_code_from_status, from_event_source_error, ChatPoll};
use llm_stream::event_source::{EventSource, ResponseHead};
use llm_stream::llm::{
    ContentPart, Error, ErrorCode, FinishReason, StreamDelta, StreamEvent,
};
use llm_stream::ollama::OllamaChatStream;
use llm_stream::stream::{Input, TransportError};

fn session() -> EventSource {
    let head = ResponseHead { status: 200, content_type: Some(b"application/x-ndjson".to_vec()) };
    match EventSource::new(&head) {
        Ok(source) => source,
        Err(e) => panic!("refused: {:?}", e),
    }
}

fn delta(t: &str) -> StreamEvent {
    StreamEvent::Delta(StreamDelta {
        content: Some(vec![ContentPart::Text(t.to_string())]),
        tool_calls: None,
    })
}

#[test]
fn lines_become_batches_of_events() {
    let mut stream = OllamaChatStream::new(session());
    assert!(!stream.is_finished());
    assert_eq!(stream.get_next(), ChatPoll::Read);
    let body = b"{\"message\":{\"content\":\"Hel\"}}\n{\"message\":{\"content\":\"\"}}\n{\"message\":{\"content\":\"lo\"}}\n{\"done\":true}\n".to_vec();
    assert_eq!(stream.get_input(Input::Chunk(body)), ChatPoll::Ready(Some(vec![delta("Hel")])));
    assert_eq!(stream.get_next(), ChatPoll::Ready(None));
    assert_eq!(stream.get_next(), ChatPoll::Ready(Some(vec![delta("lo")])));
    match stream.get_next() {
        ChatPoll::Ready(Some(events)) => {
            assert_eq!(events.len(), 1);
            match &events[0] {
                StreamEvent::Finish(metadata) => {
                    assert_eq!(metadata.finish_reason, Some(FinishReason::Stop))
                }
                other => panic!("unexpected: {:?}", other),
            }
        }
        other => panic!("unexpected: {:?}", other),
    }
    assert!(stream.is_finished());
    assert_eq!(stream.get_next(), ChatPoll::Ready(Some(vec![])));
    assert_eq!(stream.get_input(Input::Closed), ChatPoll::Ready(Some(vec![])));
}

#[test]
fn nothing_yet_is_no_batch() {
    let mut stream = OllamaChatStream::new(session());
    assert_eq!(stream.get_input(Input::Pending), ChatPoll::Ready(None));
    assert_eq!(stream.get_next(), ChatPoll::Read);
}

#[test]
fn the_end_of_the_body_finishes_the_stream() {
    let mut stream = OllamaChatStream::new(session());
    assert_eq!(stream.get_input(Input::Closed), ChatPoll::Ready(Some(vec![])));
    assert!(stream.is_finished());
    let mut stream = OllamaChatStream::new(session());
    assert_eq!(
        stream.get_input(Input::Failed(TransportError::Closed)),
        ChatPoll::Ready(Some(vec![]))
    );
    assert!(stream.is_finished());
}

#[test]
fn a_failure_of_the_transport_is_an_error_event() {
    let mut stream = OllamaChatStream::new(session());
    assert_eq!(
        stream.get_input(Input::Failed(TransportError::LastOperationFailed("reset".to_string()))),
        ChatPoll::Ready(Some(vec![StreamEvent::Error(Error {
            code: ErrorCode::InternalError,
            message: "Streaming request failed: Transport stream error: reset".to_string(),
            provider_error_json: None,
        })]))
    );
    assert!(stream.is_finished());
    assert_eq!(stream.get_next(), ChatPoll::Ready(Some(vec![])));
}

#[test]
fn a_line_that_cannot_be_read_is_an_error_event_and_ends_the_stream() {
    let mut stream = OllamaChatStream::new(session());
    let poll = stream.get_input(Input::Chunk(b"not json\n{\"message\":{\"content\":\"x\"}}\n".to_vec()));
    match poll {
        ChatPoll::Ready(Some(events)) => {
            assert_eq!(events.len(), 1);
            match &events[0] {
                StreamEvent::Error(error) => {
                    assert_eq!(error.code, ErrorCode::InternalError);
                    assert!(error.message.starts_with("JSON parse error: "));
                    assert_eq!(error.provider_error_json, None);
                }
                other => panic!("unexpected: {:?}", other),
            }
        }
        other => panic!("unexpected: {:?}", other),
    }
    assert!(stream.is_finished());
    assert_eq!(stream.get_next(), ChatPoll::Ready(Some(vec![])));
}

#[test]
fn the_done_marker_is_no_event() {
    let mut stream = OllamaChatStream::new(session());
    assert_eq!(stream.get_input(Input::Chunk(b"[DONE]\n".to_vec())), ChatPoll::Ready(None));
    assert!(!stream.is_finished());
}

#[test]
fn a_stream_that_failed_to_open_gives_its_error_once() {
    let error = Error {
        code: ErrorCode::AuthenticationFailed,
        message: "denied".to_string(),
        provider_error_json: Some("{}".to_string()),
    };
    let mut stream = OllamaChatStream::failed(error.clone());
    assert_eq!(stream.failure(), &Some(error.clone()));
    assert!(stream.stream().is_none());
    assert_eq!(stream.get_next(), ChatPoll::Ready(Some(vec![StreamEvent::Error(error)])));
    assert!(stream.is_finished());
    assert_eq!(stream.get_next(), ChatPoll::Ready(Some(vec![])));
}

#[test]
fn a_closed_session_finishes_the_stream() {
    let mut stream = OllamaChatStream::new(session());
    stream.close();
    assert_eq!(stream.get_next(), ChatPoll::Ready(Some(vec![])));
    assert!(stream.is_finished());
    let mut stream = OllamaChatStream::new(session());
    stream.set_finished();
    assert_eq!(stream.get_next(), ChatPoll::Ready(Some(vec![])));
}

#[test]
fn the_status_tells_the_kind_of_error() {
    assert_eq!(error_code_from_status(429), ErrorCode::RateLimitExceeded);
    assert_eq!(error_code_from_status(401), ErrorCode::AuthenticationFailed);
    assert_eq!(error_code_from_status(402), ErrorCode::AuthenticationFailed);
    assert_eq!(error_code_from_status(403), ErrorCode::AuthenticationFailed);
    assert_eq!(error_code_from_status(400), ErrorCode::InvalidRequest);
    assert_eq!(error_code_from_status(499), ErrorCode::InvalidRequest);
    assert_eq!(error_code_from_status(500), ErrorCode::InternalError);
    assert_eq!(error_code_from_status(399), ErrorCode::InternalError);
    assert_eq!(error_code_from_status(200), ErrorCode::InternalError);
}

#[test]
fn an_error_of_the_source_becomes_an_error_of_the_chat() {
    assert_eq!(
        from_event_source_error(
            "Failed to create EventSource stream",
            &llm_stream::error::Error::InvalidStatusCode(503)
        ),
        Error {
            code: ErrorCode::InternalError,
            message: "Failed to create EventSource stream: Invalid status code: 503".to_string(),
            provider_error_json: None,
        }
    );
}
