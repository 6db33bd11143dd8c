use llm_stream::durability::{
    partial_content, retry_prompt, tool_call_text, DurableChatStream, DurableLLM, ExtendedGuest,
    Step, Subscription,
};
use llm_stream::llm::{
    ContentPart, Error, ErrorCode, FinishReason, ImageDetail, ImageReference, ImageUrl, Message,
    ResponseMetadata, Role, StreamDelta, StreamEvent, ToolCall,
};
use llm_stream::ollama::OllamaComponent;

const INTERRUPTED: &str = "You were asked the same question previously, but the response was interrupted before completion. Please continue your response from where you left off. Do not include the part of the response that was already seen.";

fn text(t: &str) -> ContentPart {
    ContentPart::Text(t.to_string())
}

fn question() -> Vec<Message> {
    vec![
        Message { role: Role::System, name: None, content: vec![text("Be brief.")] },
        Message {
            role: Role::User,
            name: Some("vigoo".to_string()),
            content: vec![
                text("What is this?"),
                ContentPart::Image(ImageReference::Url(ImageUrl {
                    url: "https://example.com/image.png".to_string(),
                    detail: Some(ImageDetail::High),
                })),
            ],
        },
    ]
}

fn delta(t: &str) -> StreamEvent {
    StreamEvent::Delta(StreamDelta { content: Some(vec![text(t)]), tool_calls: None })
}

fn finish() -> StreamEvent {
    StreamEvent::Finish(ResponseMetadata {
        finish_reason: Some(FinishReason::Stop),
        usage: None,
        provider_id: None,
        timestamp: None,
        provider_metadata_json: None,
    })
}

fn config() -> llm_stream::llm::Config {
    llm_stream::llm::Config {
        model: "m".to_string(),
        temperature: None,
        max_tokens: Some(100),
        stop_sequences: None,
        tools: vec![],
        tool_choice: None,
        provider_options: vec![],
    }
}

fn replay() -> DurableChatStream<OllamaComponent> {
    DurableChatStream::<OllamaComponent>::replay(question(), config())
}

#[test]
fn replay_hands_out_the_record_as_it_is() {
    let log = vec![Some(vec![delta("Hel")]), None, Some(vec![delta("lo"), finish()])];
    let mut first = replay();
    let mut second = replay();
    for entry in log {
        let a = first.replayed(entry.clone());
        let b = second.replayed(entry.clone());
        assert_eq!(a, entry);
        assert_eq!(a, b);
    }
    assert_eq!(first.get_next(), Step::Exhausted);
    assert_eq!(second.get_next(), Step::Exhausted);
    assert_eq!(first.get_next(), Step::Exhausted);
    assert!(!first.is_live());
}

#[test]
fn an_error_in_the_record_finishes_the_replay() {
    let mut stream = replay();
    let entry = Some(vec![StreamEvent::Error(Error {
        code: ErrorCode::InternalError,
        message: "boom".to_string(),
        provider_error_json: None,
    })]);
    assert_eq!(stream.replayed(entry.clone()), entry);
    assert_eq!(stream.get_next(), Step::Exhausted);
}

#[test]
fn an_unfinished_replay_resumes_with_one_live_call() {
    let mut stream = replay();
    assert_eq!(stream.replayed(Some(vec![delta("Hel")])), Some(vec![delta("Hel")]));
    assert_eq!(stream.replayed(Some(vec![delta("lo")])), Some(vec![delta("lo")]));
    let prompt = match stream.get_next() {
        Step::Resume(prompt) => prompt,
        other => panic!("unexpected step: {:?}", other),
    };
    let original = question();
    assert_eq!(prompt.len(), original.len() + 3);
    assert_eq!(
        prompt[0],
        Message { role: Role::System, name: None, content: vec![text(INTERRUPTED)] }
    );
    assert_eq!(
        prompt[1],
        Message {
            role: Role::User,
            name: None,
            content: vec![text("Here is the original question:")],
        }
    );
    assert_eq!(prompt[2..4], original[..]);
    assert_eq!(
        prompt[4],
        Message {
            role: Role::User,
            name: None,
            content: vec![
                text("Here is the partial response that was successfully received:"),
                text("Hel"),
                text("lo"),
            ],
        }
    );
    let received: String = prompt[4].content[1..]
        .iter()
        .map(|part| match part {
            ContentPart::Text(t) => t.as_str(),
            ContentPart::Image(_) => "",
        })
        .collect();
    assert_eq!(received, "Hello");

    assert_eq!(stream.config(), Some(&config()));
    let live = <OllamaComponent as ExtendedGuest>::ChatStream::failed(
        llm_stream::ollama::OllamaChatStream,
        Error { code: ErrorCode::InternalError, message: "x".to_string(), provider_error_json: None },
    );
    assert!(stream.resume(live).is_ok());
    assert!(stream.is_live());
    assert_eq!(stream.get_next(), Step::Poll);
    assert_eq!(stream.get_next(), Step::Poll);
    assert!(stream.stream().is_some());
    assert!(stream.config().is_none());
}

#[test]
fn resume_is_refused_unless_the_replay_is_unfinished() {
    let make = || {
        <OllamaComponent as ExtendedGuest>::ChatStream::failed(
            llm_stream::ollama::OllamaChatStream,
            Error {
                code: ErrorCode::InternalError,
                message: "x".to_string(),
                provider_error_json: None,
            },
        )
    };
    let mut finished = replay();
    let _ = finished.replayed(Some(vec![finish()]));
    assert!(finished.resume(make()).is_err());
    assert!(!finished.is_live());
    let mut live = DurableChatStream::<OllamaComponent>::live(make());
    assert!(live.is_live());
    assert_eq!(live.get_next(), Step::Poll);
    assert!(live.resume(make()).is_err());
    assert_eq!(live.subscribe(), Subscription::Live);
}

#[test]
fn handles_given_out_during_the_replay_are_kept() {
    let mut stream = replay();
    assert_eq!(stream.subscribe(), Subscription::Lazy(0));
    assert_eq!(stream.subscribe(), Subscription::Lazy(1));
    assert_eq!(stream.pollables(), &vec![0, 1]);
    let live = <OllamaComponent as ExtendedGuest>::ChatStream::failed(
        llm_stream::ollama::OllamaChatStream,
        Error { code: ErrorCode::InternalError, message: "x".to_string(), provider_error_json: None },
    );
    assert!(stream.resume(live).is_ok());
    assert_eq!(stream.pollables(), &vec![0, 1]);
    assert_eq!(stream.subscribe(), Subscription::Live);
    assert_eq!(stream.pollables(), &vec![0, 1]);
}

#[test]
fn the_prompt_is_the_same_for_the_same_input() {
    let deltas = vec![
        StreamDelta { content: Some(vec![text("a")]), tool_calls: None },
        StreamDelta { content: None, tool_calls: None },
    ];
    let one = OllamaComponent::retry_prompt(&question(), &deltas);
    let two = OllamaComponent::retry_prompt(&question(), &deltas);
    assert_eq!(one, two);
    assert_eq!(retry_prompt(&question(), &deltas), retry_prompt(&question(), &deltas));
}

#[test]
fn the_default_prompt_has_a_system_note_and_two_user_notes() {
    let original = vec![Message { role: Role::User, name: None, content: vec![text("Q")] }];
    let deltas = vec![StreamDelta { content: Some(vec![text("A")]), tool_calls: None }];
    let prompt = retry_prompt(&original, &deltas);
    assert_eq!(
        prompt,
        vec![
            Message { role: Role::System, name: None, content: vec![text(INTERRUPTED)] },
            Message {
                role: Role::User,
                name: None,
                content: vec![text("Here is the original question:")],
            },
            Message { role: Role::User, name: None, content: vec![text("Q")] },
            Message {
                role: Role::User,
                name: None,
                content: vec![
                    text("Here is the partial response that was successfully received:"),
                    text("A"),
                ],
            },
        ]
    );
    assert_eq!(prompt, OllamaComponent::retry_prompt(&original, &deltas));
    let prompt = retry_prompt(&question(), &[]);
    assert_eq!(prompt.len(), question().len() + 3);
    assert_eq!(prompt[2..4], question()[..]);
    assert_eq!(
        prompt[4].content,
        vec![text("Here is the partial response that was successfully received:")]
    );
}

#[test]
fn tool_calls_are_written_as_tagged_text() {
    let call = ToolCall {
        id: "x".to_string(),
        name: "y".to_string(),
        arguments_json: "\"z\"".to_string(),
    };
    assert_eq!(tool_call_text(&call), "<tool-call id=\"x\" name=\"y\" arguments=\"\"z\"\"/>");
    let deltas = vec![
        StreamDelta {
            content: Some(vec![text("a"), text("b")]),
            tool_calls: Some(vec![ToolCall {
                id: "1".to_string(),
                name: "f".to_string(),
                arguments_json: "{}".to_string(),
            }]),
        },
        StreamDelta { content: None, tool_calls: Some(vec![]) },
        StreamDelta { content: Some(vec![text("c")]), tool_calls: None },
    ];
    assert_eq!(
        partial_content(&deltas),
        vec![
            text("a"),
            text("b"),
            text("<tool-call id=\"1\" name=\"f\" arguments=\"{}\"/>"),
            text("c"),
        ]
    );
    assert_eq!(partial_content(&[]), Vec::<ContentPart>::new());
}

#[test]
fn a_call_opens_a_live_stream_and_a_replay_a_replaying_one() {
    let live = <OllamaComponent as ExtendedGuest>::ChatStream::failed(
        llm_stream::ollama::OllamaChatStream,
        Error { code: ErrorCode::InternalError, message: "x".to_string(), provider_error_json: None },
    );
    let mut stream = DurableLLM::<OllamaComponent>::stream(Some(live), question(), config());
    assert!(stream.is_live());
    assert!(stream.stream_mut().is_some());
    let (live, handles) = stream.into_parts();
    assert!(live.is_some());
    assert_eq!(handles, Vec::<u64>::new());
    let mut stream = DurableLLM::<OllamaComponent>::stream(None, question(), config());
    assert!(!stream.is_live());
    assert!(stream.stream_mut().is_none());
    assert_eq!(stream.subscribe(), Subscription::Lazy(0));
    let (live, handles) = stream.into_parts();
    assert!(live.is_none());
    assert_eq!(handles, vec![0]);
}
